use sql_lambda::encode::{encode, FormattedBatch, SqlResult, MAX_RESULTS};

fn cols(c: &[(&str, &str)]) -> Vec<(String, String)> {
    c.iter().map(|(a, b)| (a.to_string(), b.to_string())).collect()
}

fn rows(n: usize) -> Vec<Vec<String>> {
    (0..n).map(|i| vec![i.to_string()]).collect()
}

#[test]
fn empty_result_is_empty() {
    let r = SqlResult::empty();
    assert!(r.columns.is_empty() && r.rows.is_empty());
    assert!(r.logical_plan.is_empty() && r.physical_plan.is_empty());
    let d = SqlResult::default();
    assert!(d.columns.is_empty() && d.rows.is_empty() && d.logical_plan.is_empty());
}

#[test]
fn round_trip_keeps_names_types_and_cells() {
    let b = FormattedBatch {
        columns: cols(&[("id", "Int64"), ("name", "Utf8")]),
        rows: vec![
            vec!["1".to_string(), "alice".to_string()],
            vec!["2".to_string(), "".to_string()],
        ],
    };
    let r = encode(vec![b], "Projection: t.id".to_string(), "ProjectionExec".to_string());
    assert_eq!(r.columns, cols(&[("id", "Int64"), ("name", "Utf8")]));
    assert_eq!(
        r.rows,
        vec![
            vec!["1".to_string(), "alice".to_string()],
            vec!["2".to_string(), "".to_string()],
        ]
    );
    assert_eq!(r.logical_plan, "Projection: t.id");
    assert_eq!(r.physical_plan, "ProjectionExec");
}

#[test]
fn rows_are_capped_at_five_hundred() {
    let bs = vec![
        FormattedBatch { columns: cols(&[("n", "Int64")]), rows: rows(300) },
        FormattedBatch { columns: cols(&[("n", "Int64")]), rows: rows(300) },
    ];
    let r = encode(bs, String::new(), String::new());
    assert_eq!(MAX_RESULTS, 500);
    assert_eq!(r.rows.len(), 500);
    assert_eq!(r.rows[299], vec!["299".to_string()]);
    assert_eq!(r.rows[300], vec!["0".to_string()]);
}

#[test]
fn exactly_five_hundred_rows_are_kept() {
    let bs = vec![FormattedBatch { columns: cols(&[("n", "Int64")]), rows: rows(500) }];
    assert_eq!(encode(bs, String::new(), String::new()).rows.len(), 500);
}

#[test]
fn fewer_rows_are_all_kept() {
    let bs = vec![
        FormattedBatch { columns: cols(&[("n", "Int64")]), rows: rows(2) },
        FormattedBatch { columns: cols(&[("n", "Int64")]), rows: rows(1) },
    ];
    let r = encode(bs, String::new(), String::new());
    assert_eq!(r.rows, vec![vec!["0".to_string()], vec!["1".to_string()], vec!["0".to_string()]]);
}

#[test]
fn columns_come_from_first_batch_that_has_them() {
    let bs = vec![
        FormattedBatch { columns: Vec::new(), rows: Vec::new() },
        FormattedBatch { columns: cols(&[("a", "Utf8")]), rows: vec![vec!["NULL".to_string()]] },
        FormattedBatch { columns: cols(&[("b", "Int32")]), rows: Vec::new() },
    ];
    let r = encode(bs, String::new(), String::new());
    assert_eq!(r.columns, cols(&[("a", "Utf8")]));
    assert_eq!(r.rows, vec![vec!["NULL".to_string()]]);
}

#[test]
fn no_batches_give_no_columns_or_rows() {
    let r = encode(Vec::new(), "EmptyRelation".to_string(), "EmptyExec".to_string());
    assert!(r.columns.is_empty() && r.rows.is_empty());
    assert_eq!(r.logical_plan, "EmptyRelation");
}

#[test]
fn output_without_rows_has_no_columns() {
    let bs = vec![FormattedBatch { columns: cols(&[("a", "Int64")]), rows: Vec::new() }];
    let r = encode(bs, String::new(), String::new());
    assert!(r.columns.is_empty());
    assert!(r.rows.is_empty());
}

#[test]
fn columns_skip_batches_without_rows() {
    let bs = vec![
        FormattedBatch { columns: cols(&[("a", "Int64")]), rows: Vec::new() },
        FormattedBatch { columns: cols(&[("b", "Utf8")]), rows: vec![vec!["x".to_string()]] },
    ];
    let r = encode(bs, String::new(), String::new());
    assert_eq!(r.columns, cols(&[("b", "Utf8")]));
}
