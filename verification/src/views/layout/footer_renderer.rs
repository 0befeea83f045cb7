//! The footer as rows of labels and values.

use crate::file::ParkhayFooter;
use crate::views::layout::components::not_available;
use crate::views::layout::components::LabeledValue;
use crate::metadata::KeyValue;
use vstd::prelude::*;

verus! {

/// Renders the footer of a file.
pub struct FooterRenderer;

/// The row of one key/value pair: its key, and its value or `N/A`.
pub open spec fn key_value_row(pair: KeyValue) -> (Seq<char>, Seq<char>) {
    (
        pair.key@,
        match pair.value {
            Some(v) => v@,
            None => not_available(),
        },
    )
}

impl FooterRenderer {
    /// The row that says who wrote the file: `N/A` if the footer does not
    /// say.
    pub fn created_by(footer: &ParkhayFooter) -> (r: LabeledValue)
        ensures
            r.label@ == "Created By"@,
            r.value@ == match footer.created_by {
                Some(v) => v@,
                None => not_available(),
            },
    {
        LabeledValue::optional("Created By", &footer.created_by)
    }

    /// The rows of the key/value metadata, one for each pair and in their
    /// order.
    pub fn key_value_rows(kv_metadata: &Vec<KeyValue>) -> (rows: Vec<LabeledValue>)
        ensures
            rows@.len() == kv_metadata@.len(),
            forall|k: int|
                0 <= k < rows@.len() ==> (rows@[k].label@, rows@[k].value@) == key_value_row(
                    #[trigger] kv_metadata@[k],
                ),
    {
        let mut rows: Vec<LabeledValue> = Vec::new();
        let mut k: usize = 0;
        while k < kv_metadata.len()
            invariant
                0 <= k <= kv_metadata@.len(),
                rows@.len() == k,
                forall|j: int|
                    0 <= j < k ==> (rows@[j].label@, rows@[j].value@) == key_value_row(
                        #[trigger] kv_metadata@[j],
                    ),
            decreases kv_metadata@.len() - k,
        {
            let pair = &kv_metadata[k];
            rows.push(LabeledValue::optional(pair.key.as_str(), &pair.value));
            k = k + 1;
        }
        rows
    }
}

} // verus!
