//! A small owned-text wrapper used by the record types.

use vstd::prelude::*;

verus! {

/// Owned text. The original design borrowed from an underlying buffer to
/// avoid copies; owning the text outright removes the lifetime plumbing at
/// the cost of an allocation, with no behavioural change.
#[derive(Debug, Clone, PartialEq, Eq, Hash)]
pub struct CowStr(pub String);

impl View for CowStr {
    type V = Seq<char>;

    open spec fn view(&self) -> Seq<char> {
        self.0@
    }
}

impl CowStr {
    /// Borrow the text.
    pub fn as_str(&self) -> (r: &str)
        ensures
            r@ == self@,
    {
        self.0.as_str()
    }
}

impl From<String> for CowStr {
    fn from(string: String) -> (r: Self) {
        CowStr(string)
    }
}

impl vstd::std_specs::convert::FromSpecImpl<String> for CowStr {
    open spec fn obeys_from_spec() -> bool {
        true
    }

    open spec fn from_spec(string: String) -> Self {
        CowStr(string)
    }
}

} // verus!
