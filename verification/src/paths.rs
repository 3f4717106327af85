use vstd::prelude::*;

verus! {

/// The last component of a path as `std::path::Path::file_name` gives it, for a
/// path and a component that are UTF-8; `None` otherwise.
pub uninterp spec fn file_name_of(path: Seq<u8>) -> Option<Seq<u8>>;

/// What an optional byte vector holds.
pub open spec fn held(v: Option<Vec<u8>>) -> Option<Seq<u8>> {
    match v {
        Some(b) => Some(b@),
        None => None,
    }
}

/// Calls `std::path::Path::file_name` on the path that the bytes spell. The
/// result is a function of the bytes alone; nothing more is claimed of it.
#[verifier::external_body]
pub(crate) fn path_file_name(path: &[u8]) -> (r: Option<Vec<u8>>)
    ensures
        held(r) == file_name_of(path@),
{
    let text = std::str::from_utf8(path).ok()?;
    let name = std::path::Path::new(text).file_name()?;
    Some(name.to_str()?.as_bytes().to_vec())
}

} // verus!
