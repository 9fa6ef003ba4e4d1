//! Prompts of the e-mail classification pipeline.

use vstd::prelude::*;

verus! {

/// A stored prompt of one pipeline stage (`classify`, `extract` or
/// `summarize`); at most one prompt of a stage is meant to be active.
#[derive(Debug, Clone, PartialEq, Eq)]
pub struct AiPrompt {
    pub id: String,
    pub name: String,
    pub stage: String,
    pub prompt: String,
    pub is_active: bool,
    pub created_at: String,
    pub updated_at: String,
}

/// A stored flag as read from a row whose column may hold a boolean, an
/// unsigned integer or a float: the first reading that applies decides, in
/// that order; the float reading is given as whether the float is non-zero.
/// Unset when none applies.
pub fn stored_flag(as_bool: Option<bool>, as_unsigned: Option<u64>, float_nonzero: Option<bool>) -> (r:
    bool)
    ensures
        r == match as_bool {
            Some(b) => b,
            None => match as_unsigned {
                Some(n) => n != 0,
                None => match float_nonzero {
                    Some(f) => f,
                    None => false,
                },
            },
        },
{
    match as_bool {
        Some(b) => b,
        None => match as_unsigned {
            Some(n) => n != 0,
            None => match float_nonzero {
                Some(f) => f,
                None => false,
            },
        },
    }
}

/// The position of the first active prompt of the list, if any: the prompt
/// that the prompt editor shows as the active version.
pub fn active_prompt_index(prompts: &Vec<AiPrompt>) -> (r: Option<usize>)
    ensures
        match r {
            Some(i) => i < prompts@.len() && prompts@[i as int].is_active && forall|j: int|
                0 <= j < i ==> !(#[trigger] prompts@[j]).is_active,
            None => forall|j: int| 0 <= j < prompts@.len() ==> !(#[trigger] prompts@[j]).is_active,
        },
{
    let mut k: usize = 0;
    while k < prompts.len()
        invariant
            k <= prompts@.len(),
            forall|j: int| 0 <= j < k ==> !(#[trigger] prompts@[j]).is_active,
        decreases prompts.len() - k,
    {
        if prompts[k].is_active {
            return Some(k);
        }
        k += 1;
    }
    None
}

/// Whether a new prompt can be saved from the editor: both its name and its
/// text are filled in.
pub fn can_save_prompt(name: &str, text: &str) -> (r: bool)
    ensures
        r == (name@.len() > 0 && text@.len() > 0),
{
    !name.is_empty() && !text.is_empty()
}

} // verus!
