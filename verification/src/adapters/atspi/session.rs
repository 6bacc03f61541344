//! Bookkeeping for the connection to the accessibility bus.

use vstd::prelude::*;

verus! {

/// The state of a connection to the accessibility bus: whether it is up, and
/// how many times it has been re-established.
#[derive(Debug)]
pub struct AtspiSession {
    reconnect_count: u32,
    connected: bool,
}

impl AtspiSession {
    /// The number of reconnection attempts made so far.
    pub closed spec fn attempts(&self) -> nat {
        self.reconnect_count as nat
    }

    /// Whether the last connection attempt succeeded.
    pub closed spec fn up(&self) -> bool {
        self.connected
    }

    /// A session whose first connection succeeded.
    pub fn new_connected() -> (s: Self)
        ensures
            s.attempts() == 0,
            s.up(),
    {
        AtspiSession { reconnect_count: 0, connected: true }
    }

    /// A session that has no connection yet.
    pub fn disconnected_for_test() -> (s: Self)
        ensures
            s.attempts() == 0,
            !s.up(),
    {
        AtspiSession { reconnect_count: 0, connected: false }
    }

    /// Records the outcome of one reconnection attempt: the counter grows by
    /// one and the session is up exactly when the attempt succeeded.
    pub fn record_reconnect(&mut self, success: bool)
        requires
            old(self).attempts() < u32::MAX,
        ensures
            final(self).attempts() == old(self).attempts() + 1,
            final(self).up() == success,
    {
        self.reconnect_count = self.reconnect_count + 1;
        self.connected = success;
    }

    /// Records a reconnection attempt with the given outcome.
    pub fn simulate_reconnect_result(&mut self, success: bool)
        requires
            old(self).attempts() < u32::MAX,
        ensures
            final(self).attempts() == old(self).attempts() + 1,
            final(self).up() == success,
    {
        self.record_reconnect(success);
    }

    /// The number of reconnection attempts made so far.
    pub fn reconnect_count(&self) -> (n: u32)
        ensures
            n == self.attempts(),
    {
        self.reconnect_count
    }

    /// Whether the session is connected.
    pub fn is_connected(&self) -> (b: bool)
        ensures
            b == self.up(),
    {
        self.connected
    }
}

} // verus!
