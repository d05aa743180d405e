use vstd::prelude::*;

verus! {

/// Seconds that the client waits after a failed session establishment.
pub const RETRY_DELAY_SECS: u64 = 5;

/// Seconds between two samples sent on one session.
pub const SAMPLE_INTERVAL_SECS: u64 = 5;

/// Most unidirectional streams that a peer may hold open at once on one
/// session; opening another waits until one is finished.
pub const MAX_CONCURRENT_STREAMS: u8 = 1;

/// Options shared by the client and the server.
pub struct GlobalOptions {
    /// Free-text label of this instance, used in logs and as the sender of samples.
    pub name: String,
}

impl GlobalOptions {
    pub fn new(name: String) -> (r: GlobalOptions)
        ensures
            r.name@ == name@,
    {
        GlobalOptions { name }
    }
}

} // verus!
