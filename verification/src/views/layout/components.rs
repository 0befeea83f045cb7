//! The parts that the renderers are built from.

use vstd::prelude::*;

verus! {

/// The icon in front of the header of a collapsible section.
#[derive(Clone, Copy, Debug, PartialEq, Eq, Structural)]
pub enum CollapsibleSectionIcon {
    Default,
    Blank,
    Circle,
}

/// A label and the value shown under it.
pub struct LabeledValue {
    pub label: String,
    pub value: String,
}

/// What stands for a value that the file does not give.
pub open spec fn not_available() -> Seq<char> {
    "N/A"@
}

impl LabeledValue {
    /// The row for `label` and `value`.
    pub fn new(label: &str, value: &str) -> (r: Self)
        ensures
            r.label@ == label@,
            r.value@ == value@,
    {
        LabeledValue { label: label.to_owned(), value: value.to_owned() }
    }

    /// The row for `label` and a value that may be missing: `N/A` stands
    /// for a missing one.
    pub fn optional(label: &str, value: &Option<String>) -> (r: Self)
        ensures
            r.label@ == label@,
            r.value@ == match value {
                Some(v) => v@,
                None => not_available(),
            },
    {
        match value {
            Some(v) => LabeledValue { label: label.to_owned(), value: v.clone() },
            None => LabeledValue { label: label.to_owned(), value: "N/A".to_owned() },
        }
    }
}

} // verus!
