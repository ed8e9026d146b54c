//! Version requirements, read and written in the canonical form of `semver`.
use vstd::prelude::*;

verus! {

/// The canonical text of the version requirement that `expr` expresses, or
/// `None` where `expr` is not a well-formed version requirement.
pub uninterp spec fn canonical_req(expr: Seq<char>) -> Option<Seq<char>>;

/// Relies on `semver::VersionReq::parse`, which accepts exactly the
/// well-formed requirements, and on `VersionReq`'s `Display`, which writes
/// the parsed requirement in canonical form; both depend on the text alone.
#[verifier::external_body]
fn parse_canonical(expr: &str) -> (r: Option<String>)
    ensures
        r.is_some() == canonical_req(expr@).is_some(),
        r.is_some() ==> r.unwrap()@ == canonical_req(expr@).unwrap(),
{
    semver::VersionReq::parse(expr).ok().map(|req| req.to_string())
}

/// A version requirement that could not be read.
pub struct ValidationError {
    /// The text that was given as a requirement.
    pub expression: String,
}

/// The canonical text of the version requirement `expr`, or a
/// `ValidationError` where `expr` is not one.
pub fn canonical_requirement(expr: &str) -> (r: Result<String, ValidationError>)
    ensures
        r is Ok <==> canonical_req(expr@) is Some,
        r matches Ok(t) ==> t@ == canonical_req(expr@).unwrap(),
        r matches Err(e) ==> e.expression@ == expr@,
{
    match parse_canonical(expr) {
        Some(t) => Ok(t),
        None => Err(ValidationError { expression: expr.to_string() }),
    }
}

} // verus!
