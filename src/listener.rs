//! The state of one local listener: the upstream it currently forwards to,
//! when that upstream was assigned, and whether it has been told to stop.
//! Times are milliseconds on a monotonic clock that the caller reads.
use vstd::prelude::*;
use crate::proxy_model::Proxy;

verus! {

pub struct ListenerState {
    /// The upstream that newly accepted clients are forwarded to.
    pub proxy: Proxy,
    /// When `proxy` was assigned.
    pub started_at: u64,
    /// Set once the listener is told to stop; it is never cleared.
    pub should_stop: bool,
}

/// What the accept loop does with a connection it has just accepted.
pub enum AcceptAction {
    /// The listener is stopping: leave the loop; the connection is dropped.
    Exit,
    /// Serve the client through this snapshot of the current upstream.
    Dispatch(Proxy),
}

impl ListenerState {
    /// A running listener whose upstream `proxy` is assigned at `now`.
    pub fn new(proxy: Proxy, now: u64) -> (r: ListenerState)
        ensures
            r.proxy == proxy,
            r.started_at == now,
            !r.should_stop,
    {
        ListenerState { proxy, started_at: now, should_stop: false }
    }

    /// A copy of the current upstream.
    pub fn get_proxy(&self) -> (r: Proxy)
        ensures
            r == self.proxy,
    {
        self.proxy.clone()
    }

    /// Replaces the upstream with one that passed its probe, and restarts the
    /// holding time at `now`.
    pub fn set_proxy(&mut self, checked: Proxy, now: u64)
        ensures
            final(self).proxy == checked,
            final(self).started_at == now,
            final(self).should_stop == old(self).should_stop,
    {
        self.proxy = checked;
        self.started_at = now;
    }

    /// Milliseconds the current upstream has been held at `now` (0 if the
    /// clock reads earlier than the assignment).
    pub fn get_duration(&self, now: u64) -> (r: u64)
        ensures
            r == if now >= self.started_at {
                now - self.started_at
            } else {
                0
            },
    {
        if now >= self.started_at {
            now - self.started_at
        } else {
            0
        }
    }

    /// Whole seconds the current upstream has been held at `now`.
    pub fn held_secs(&self, now: u64) -> (r: u64)
        ensures
            r == (if now >= self.started_at {
                now - self.started_at
            } else {
                0
            }) as int / 1000,
    {
        self.get_duration(now) / 1000
    }

    /// Tells the listener to stop; the upstream stays as it was.
    pub fn stop(&mut self)
        ensures
            final(self).should_stop,
            final(self).proxy == old(self).proxy,
            final(self).started_at == old(self).started_at,
    {
        self.should_stop = true;
    }

    /// Decides on a connection just accepted: once stopping, no client is
    /// dispatched; otherwise the client goes to the current upstream.
    pub fn on_accept(&self) -> (r: AcceptAction)
        ensures
            self.should_stop ==> r is Exit,
            !self.should_stop ==> r == AcceptAction::Dispatch(self.proxy),
    {
        if self.should_stop {
            AcceptAction::Exit
        } else {
            AcceptAction::Dispatch(self.proxy.clone())
        }
    }
}

} // verus!
