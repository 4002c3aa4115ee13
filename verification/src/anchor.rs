//! Paths that the system is able to make absolute.
use vstd::prelude::*;

verus! {

/// A path that the system was able to make absolute: an absolute one, or any other while there was
/// a current directory. Only [`Anchor::of`] makes one.
pub struct Anchor {
    path: String,
}

impl View for Anchor {
    type V = Seq<char>;

    closed spec fn view(&self) -> Seq<char> {
        self.path@
    }
}

/// Calls `std::path::absolute`, which fails if it needs the current directory and there is none.
///
/// Believed of it: nothing but that it returns. The anchor holds the path that was asked about, and
/// is there if and only if the call succeeded, which depends on the machine.
#[verifier::external_body]
fn anchored(path: &str) -> (anchor: Option<Anchor>)
    ensures
        anchor is Some ==> anchor->0@ == path@,
{
    match std::path::absolute(path) {
        Ok(_) => Some(Anchor { path: path.to_string() }),
        Err(_) => None,
    }
}

impl Anchor {
    /// The anchor of a path, if the system is able to make the path absolute.
    pub fn of(path: &str) -> (anchor: Option<Anchor>)
        ensures
            anchor is Some ==> anchor->0@ == path@,
    {
        anchored(path)
    }
}

} // verus!
