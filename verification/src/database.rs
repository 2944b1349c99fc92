//! What a step writes to the database: one answer per token, with the
//! antenna it was read on as the chosen option.
use vstd::prelude::*;
use crate::tags::TagsMap;
use crate::text::{nat_decimal, u64_to_decimal};

verus! {

/// One answer row: the step, the chosen option (the antenna number), and
/// the token.
#[derive(Debug)]
pub struct AnswerRecord {
    pub step_id: i32,
    pub option_key: String,
    pub token_key: String,
}

/// The answers that a step records for a map of readings: per reading, the
/// antenna number in decimal as option and the tag id as token.
pub fn answer_records(step_id: i32, tags_map: &TagsMap) -> (r: Vec<AnswerRecord>)
    ensures
        r@.len() == tags_map@.len(),
        forall|k: int|
            0 <= k < r@.len() ==> (#[trigger] r@[k]).step_id == step_id && r@[k].option_key@
                == nat_decimal(tags_map@[k].antenna as nat) && r@[k].token_key@
                == tags_map@[k].id,
{
    let tags = tags_map.values();
    let mut r: Vec<AnswerRecord> = Vec::new();
    let mut i: usize = 0;
    while i < tags.len()
        invariant
            i <= tags@.len(),
            crate::tags::views(tags@) == tags_map@,
            r@.len() == i,
            forall|k: int|
                0 <= k < i ==> (#[trigger] r@[k]).step_id == step_id && r@[k].option_key@
                    == nat_decimal(tags_map@[k].antenna as nat) && r@[k].token_key@
                    == tags_map@[k].id,
        decreases tags@.len() - i,
    {
        let tag = &tags[i];
        assert(tags_map@[i as int] == tag@);
        r.push(
            AnswerRecord {
                step_id,
                option_key: u64_to_decimal(tag.antenna as u64),
                token_key: tag.id.clone(),
            },
        );
        i = i + 1;
    }
    r
}

} // verus!
