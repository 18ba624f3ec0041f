//! How many bytes reach the model, and how many travel as payload.

use vstd::prelude::*;

verus! {

/// The bytes counted so far.
#[derive(Debug, PartialEq, Eq, Structural)]
pub struct ContextMeter {
    pub context_bytes: u64,
    pub data_bytes: u64,
}

impl Default for ContextMeter {
    fn default() -> (m: Self)
        ensures
            m.context_bytes == 0,
            m.data_bytes == 0,
    {
        ContextMeter { context_bytes: 0, data_bytes: 0 }
    }
}

impl ContextMeter {
    /// Counts bytes that entered the control plane of the model.
    pub fn count_context(&mut self, n: u64)
        requires
            old(self).context_bytes + n <= u64::MAX,
        ensures
            final(self).context_bytes == old(self).context_bytes + n,
            final(self).data_bytes == old(self).data_bytes,
    {
        self.context_bytes = self.context_bytes + n;
    }

    /// Counts bytes of payload.
    pub fn count_data(&mut self, n: u64)
        requires
            old(self).data_bytes + n <= u64::MAX,
        ensures
            final(self).data_bytes == old(self).data_bytes + n,
            final(self).context_bytes == old(self).context_bytes,
    {
        self.data_bytes = self.data_bytes + n;
    }
}

} // verus!
