//! Finding the first item of a vector that a query picks out.
use vstd::prelude::*;
use crate::text::same_text;
use crate::time::UtcTime;

verus! {

/// Items that a query of type `Q` can pick out.
pub trait Lookup<Q> {
    /// Whether `q` picks out this item.
    spec fn found_by(&self, q: Q) -> bool;

    fn is_found_by(&self, q: Q) -> (r: bool)
        ensures
            r == self.found_by(q),
    ;
}

/// The position of the first item of `items` that `q` picks out.
pub fn position<T: Lookup<Q>, Q: Copy>(items: &Vec<T>, q: Q) -> (r: Option<usize>)
    ensures
        r matches Some(i) ==> i < items@.len() && items@[i as int].found_by(q) && forall|j: int|
            0 <= j < i ==> !items@[j].found_by(q),
        r is None ==> forall|j: int| 0 <= j < items@.len() ==> !items@[j].found_by(q),
{
    let mut i: usize = 0;
    while i < items.len()
        invariant
            i <= items@.len(),
            forall|j: int| 0 <= j < i ==> !items@[j].found_by(q),
        decreases items.len() - i,
    {
        if items[i].is_found_by(q) {
            return Some(i);
        }
        i = i + 1;
    }
    None
}

/// A repository with a time is picked out by the same name and time.
impl<'a> Lookup<(&'a str, UtcTime)> for (String, UtcTime) {
    open spec fn found_by(&self, q: (&'a str, UtcTime)) -> bool {
        self.0@ == q.0@ && self.1 == q.1
    }

    fn is_found_by(&self, q: (&'a str, UtcTime)) -> (r: bool) {
        same_text(self.0.as_str(), q.0) && self.1.secs == q.1.secs && self.1.nanos == q.1.nanos
    }
}

/// The links of a repository are picked out by its name.
impl<'a> Lookup<&'a str> for (String, Vec<String>) {
    open spec fn found_by(&self, q: &'a str) -> bool {
        self.0@ == q@
    }

    fn is_found_by(&self, q: &'a str) -> (r: bool) {
        same_text(self.0.as_str(), q)
    }
}

} // verus!
