//! Splitting a directory entry's name into stem and extension, as paths do.
//!
//! The statements below describe paths on Unix-like targets, where `/` is
//! the only separator and a name has no drive prefix.
use vstd::prelude::*;

verus! {

/// A single plain path component: what a directory listing hands out.
pub open spec fn is_plain_name(n: Seq<char>) -> bool {
    &&& n.len() > 0
    &&& n != seq!['.']
    &&& n != seq!['.', '.']
    &&& forall|j: int| 0 <= j < n.len() ==> n[j] != '/'
}

/// Index of the last `.` in `n`, or -1 where there is none.
pub open spec fn last_dot(n: Seq<char>) -> int
    decreases n.len(),
{
    if n.len() == 0 {
        -1
    } else if n.last() == '.' {
        n.len() - 1
    } else {
        last_dot(n.drop_last())
    }
}

/// The name without its extension; a leading dot starts no extension.
pub open spec fn stem(n: Seq<char>) -> Seq<char> {
    let k = last_dot(n);
    if k <= 0 {
        n
    } else {
        n.subrange(0, k)
    }
}

/// What follows the last dot, unless that dot is the first character.
pub open spec fn extension(n: Seq<char>) -> Option<Seq<char>> {
    let k = last_dot(n);
    if k <= 0 {
        None
    } else {
        Some(n.subrange(k + 1, n.len() as int))
    }
}

/// The extension that marks a data file.
pub open spec fn data_extension() -> Seq<char> {
    seq!['p', 'a', 'r', 'q', 'u', 'e', 't']
}

pub open spec fn is_data_file_name(n: Seq<char>) -> bool {
    extension(n) == Some(data_extension())
}

/// Relies on std::path::Path::file_stem, which on Unix-like targets, for a
/// plain name, drops the part from the last dot on, unless that dot leads
/// the name.
#[verifier::external_body]
fn file_stem(name: &str) -> (r: Option<String>)
    ensures
        is_plain_name(name@) ==> r is Some && r->0@ == stem(name@),
{
    std::path::Path::new(name).file_stem().and_then(|s| s.to_str()).map(|s| s.to_string())
}

/// Relies on std::path::Path::extension, which on Unix-like targets, for a
/// plain name, gives what follows the last dot, unless that dot leads the
/// name.
#[verifier::external_body]
fn file_extension(name: &str) -> (r: Option<String>)
    ensures
        is_plain_name(name@) ==> match r {
            Some(e) => extension(name@) == Some(e@),
            None => extension(name@) is None,
        },
{
    std::path::Path::new(name).extension().and_then(|s| s.to_str()).map(|s| s.to_string())
}

/// Whether `name` carries the data file extension.
pub fn is_data_file(name: &str) -> (r: bool)
    requires
        is_plain_name(name@),
    ensures
        r == is_data_file_name(name@),
{
    match file_extension(name) {
        Some(e) => {
            let want = "parquet";
            proof {
                reveal_strlit("parquet");
            }
            let w = want.to_owned();
            let b = e == w;
            proof {
                assert(w@ =~= data_extension());
            }
            b
        },
        None => false,
    }
}

/// The table name a data file gives: its stem.
pub fn table_name_of_file(name: &str) -> (r: String)
    requires
        is_plain_name(name@),
    ensures
        r@ == stem(name@),
{
    match file_stem(name) {
        Some(s) => s,
        None => name.to_owned(),
    }
}

} // verus!
