//! The three token counters of a chat completion.

use vstd::prelude::*;

verus! {

/// Token counters, as one event reports them.
#[derive(Debug, Clone, Copy, PartialEq, Eq, Structural)]
pub struct Usage {
    pub completion_tokens: i32,
    pub prompt_tokens: i32,
    pub total_tokens: i32,
}

/// True if `n` fits 32 signed bits.
pub open spec fn fits_i32(n: int) -> bool {
    i32::MIN <= n <= i32::MAX
}

impl Default for Usage {
    fn default() -> (r: Self)
        ensures
            r == (Usage { completion_tokens: 0, prompt_tokens: 0, total_tokens: 0 }),
    {
        Usage { completion_tokens: 0, prompt_tokens: 0, total_tokens: 0 }
    }
}

impl Usage {
    /// Adds the counters of `usage`, each to its own.
    pub fn add(&mut self, usage: &Usage)
        requires
            fits_i32(old(self).completion_tokens + usage.completion_tokens),
            fits_i32(old(self).prompt_tokens + usage.prompt_tokens),
            fits_i32(old(self).total_tokens + usage.total_tokens),
        ensures
            final(self).completion_tokens == old(self).completion_tokens + usage.completion_tokens,
            final(self).prompt_tokens == old(self).prompt_tokens + usage.prompt_tokens,
            final(self).total_tokens == old(self).total_tokens + usage.total_tokens,
    {
        self.completion_tokens = self.completion_tokens + usage.completion_tokens;
        self.prompt_tokens = self.prompt_tokens + usage.prompt_tokens;
        self.total_tokens = self.total_tokens + usage.total_tokens;
    }

    /// Sets every counter to zero.
    pub fn reset(&mut self)
        ensures
            *final(self) == (Usage { completion_tokens: 0, prompt_tokens: 0, total_tokens: 0 }),
    {
        self.completion_tokens = 0;
        self.prompt_tokens = 0;
        self.total_tokens = 0;
    }
}

} // verus!
