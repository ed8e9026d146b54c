//! How reading the backing document goes on from what the file system gave.
use vstd::prelude::*;

verus! {

/// `s` holds nothing but white space.
pub uninterp spec fn blank(s: Seq<char>) -> bool;

/// Relies on `str::trim`, which strips leading and trailing white space: the
/// text is blank when nothing is left, and empty text is blank.
#[verifier::external_body]
fn is_blank(s: &str) -> (r: bool)
    ensures
        r == blank(s@),
        s@.len() == 0 ==> r,
{
    s.trim().is_empty()
}

/// What the file system gave for the backing document.
pub enum FileRead {
    Missing,
    Unreadable,
    Text(String),
}

/// How reading goes on.
pub enum ReadStep {
    /// Report an empty state and write the template in place of the file.
    EmptyWithTemplate,
    /// Decode the text as a document.
    Decode,
}

/// How reading goes on from `read`: a missing, unreadable or blank document
/// stands for the empty state and is replaced by the template; any other
/// text is decoded.
pub fn read_step(read: &FileRead) -> (r: ReadStep)
    ensures
        match read {
            FileRead::Text(t) => if blank(t@) {
                r is EmptyWithTemplate
            } else {
                r is Decode
            },
            _ => r is EmptyWithTemplate,
        },
{
    match read {
        FileRead::Text(t) => {
            if is_blank(t.as_str()) {
                ReadStep::EmptyWithTemplate
            } else {
                ReadStep::Decode
            }
        },
        _ => ReadStep::EmptyWithTemplate,
    }
}

} // verus!
