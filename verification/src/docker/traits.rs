//! The describe capability every domain record kind implements, and the
//! structured sections it produces.

use vstd::prelude::*;

verus! {

/// One titled group of (label, value) rows in a record's description.
/// Values are already display text: downstream renderers need no
/// type-specific formatting.
pub struct DescribeSection {
    pub title: String,
    pub items: Vec<(String, String)>,
}

impl DescribeSection {
    /// A section with the given title and no rows yet.
    pub fn new(title: &str) -> (r: DescribeSection)
        ensures
            r.title@ == title@,
            r.items@.len() == 0,
    {
        DescribeSection { title: String::from_str(title), items: Vec::new() }
    }

    /// Appends one (label, value) row; rows keep insertion order.
    pub fn item(&mut self, label: &str, value: String)
        ensures
            final(self).title == old(self).title,
            final(self).items@.len() == old(self).items@.len() + 1,
            forall|k: int|
                0 <= k < old(self).items@.len() ==> final(self).items@[k] == old(self).items@[k],
            final(self).items@.last().0@ == label@,
            final(self).items@.last().1 == value,
    {
        self.items.push((String::from_str(label), value));
    }
}

/// The uniform capability of every domain record kind: a canonical
/// identity, a display name, and a structured description.
pub trait Describe {
    /// Canonical identity for cross-referencing and deletion. For kinds
    /// the runtime addresses by name this equals `get_name`.
    fn get_id(&self) -> String;

    /// Human-facing display name.
    fn get_name(&self) -> String;

    /// Ordered description of the record; purely a projection of its
    /// fields, with at least one section present.
    fn describe(&self) -> (r: Vec<DescribeSection>)
        ensures
            r@.len() >= 1,
    ;
}

} // verus!
