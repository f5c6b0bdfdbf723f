//! The prompt of the interactive loop.
use crate::text::to_string;
use vstd::prelude::*;

verus! {

/// A prompt to read lines of input with.
#[derive(Debug, Default)]
pub struct UserInput {
    prompt: String,
}

impl UserInput {
    pub closed spec fn prompt_text(&self) -> Seq<char> {
        self.prompt@
    }

    /// A prompt that shows nothing.
    pub fn new() -> (r: UserInput)
        ensures
            r.prompt_text().len() == 0,
    {
        UserInput { prompt: String::new() }
    }

    pub fn new_with_prompt(prompt: &str) -> (r: UserInput)
        ensures
            r.prompt_text() == prompt@,
    {
        UserInput { prompt: to_string(prompt) }
    }

    pub fn set_prompt(&mut self, prompt: &str)
        ensures
            final(self).prompt_text() == prompt@,
    {
        self.prompt = to_string(prompt);
    }

    /// The text shown before each line is read.
    pub fn prompt(&self) -> (r: &str)
        ensures
            r@ == self.prompt_text(),
    {
        self.prompt.as_str()
    }
}

} // verus!
