use vstd::prelude::*;

use crate::text::{pop_char, push_char};

verus! {

/// A key as the input line of a prompt sees it.
#[derive(Debug, Clone, Copy, PartialEq, Eq, Structural)]
pub enum PromptKey {
    /// Accept the input.
    Enter,
    /// Take back the last character.
    Erase,
    /// Give up on the prompt.
    Cancel,
    /// Type a character.
    Char(char),
    /// Any other key; it is ignored.
    Other,
}

/// Where a prompt stands after a key.
#[derive(Debug, Clone, Copy, PartialEq, Eq, Structural)]
pub enum PromptState {
    /// Still reading input.
    Editing,
    /// The input is accepted.
    Done,
    /// The prompt was given up.
    Cancelled,
}

/// Applies one key to the input line `buf` of a prompt. Enter accepts only a non-empty
/// input.
pub fn prompt_step(buf: &mut String, key: PromptKey) -> (state: PromptState)
    ensures
        key == PromptKey::Enter ==> final(buf)@ == old(buf)@ && state == if old(buf)@.len() > 0 {
            PromptState::Done
        } else {
            PromptState::Editing
        },
        key == PromptKey::Erase ==> final(buf)@ == (if old(buf)@.len() > 0 {
            old(buf)@.drop_last()
        } else {
            old(buf)@
        }) && state == PromptState::Editing,
        key == PromptKey::Cancel ==> final(buf)@ == old(buf)@ && state == PromptState::Cancelled,
        key matches PromptKey::Char(c) ==> final(buf)@ == old(buf)@.push(c) && state
            == PromptState::Editing,
        key == PromptKey::Other ==> final(buf)@ == old(buf)@ && state == PromptState::Editing,
{
    match key {
        PromptKey::Enter => {
            if !buf.as_str().is_empty() {
                PromptState::Done
            } else {
                PromptState::Editing
            }
        },
        PromptKey::Erase => {
            pop_char(buf);
            PromptState::Editing
        },
        PromptKey::Cancel => PromptState::Cancelled,
        PromptKey::Char(c) => {
            push_char(buf, c);
            PromptState::Editing
        },
        PromptKey::Other => PromptState::Editing,
    }
}

} // verus!
