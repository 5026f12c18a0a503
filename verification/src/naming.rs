//! The extensions of the files that are written.
use vstd::prelude::*;

verus! {

/// Whether a file extension is that of containers.
pub open spec fn is_container_extension(extension: Option<Seq<char>>) -> bool {
    extension == Some("acyph"@)
}

/// Whether a file extension is that of containers.
fn names_container(extension: Option<&str>) -> (names: bool)
    ensures
        names == match extension {
            Some(text) => is_container_extension(Some(text@)),
            None => false,
        },
{
    match extension {
        Some(text) => text.to_owned() == "acyph".to_owned(),
        None => false,
    }
}

/// The extension to give a container's file; none where it has the right one already.
pub fn container_extension(current: Option<&str>) -> (extension: Option<&'static str>)
    ensures
        match (current, extension) {
            (Some(text), None) => is_container_extension(Some(text@)),
            (None, None) => false,
            (Some(text), Some(new)) => !is_container_extension(Some(text@)) && new@ == "acyph"@,
            (None, Some(new)) => new@ == "acyph"@,
        },
{
    if names_container(current) {
        None
    } else {
        Some("acyph")
    }
}

/// The extension to give a decrypted file: none in place of that of containers, and a mark in place
/// of any other.
pub fn decrypted_extension(current: Option<&str>) -> (extension: &'static str)
    ensures
        extension@ == match current {
            Some(text) => if is_container_extension(Some(text@)) {
                ""@
            } else {
                "decrypted"@
            },
            None => "decrypted"@,
        },
{
    if names_container(current) {
        ""
    } else {
        "decrypted"
    }
}

/// The extension of containers is `acyph`, and no other.
pub proof fn law_container_extension(extension: Option<Seq<char>>)
    ensures
        is_container_extension(extension) == (extension == Some("acyph"@)),
{
}

} // verus!
