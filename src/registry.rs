//! Bookkeeping of the manager's listeners: the port allocator, and finding
//! the listener that serves a given proxy.
use vstd::prelude::*;
use crate::errors::ProxyError;
use crate::proxy_model::Proxy;

verus! {

/// Hands out local ports in increasing order, starting from a seed port.
#[derive(Debug)]
pub struct PortAllocator {
    next: u32,
}

impl PortAllocator {
    /// The first port that the next allocation would hand out; past the last
    /// port it is 65536.
    pub closed spec fn next_port(&self) -> nat {
        self.next as nat
    }

    pub closed spec fn wf(&self) -> bool {
        self.next <= 65536
    }

    /// An allocator whose first port is `seed`.
    pub fn new(seed: u16) -> (r: PortAllocator)
        ensures
            r.wf(),
            r.next_port() == seed,
    {
        PortAllocator { next: seed as u32 }
    }

    /// Takes the next free port; `None` once every port above the seed is taken.
    pub fn allocate(&mut self) -> (r: Option<u16>)
        requires
            old(self).wf(),
        ensures
            final(self).wf(),
            allocation_step(*old(self), *final(self), r),
    {
        if self.next > 65535 {
            None
        } else {
            let p = self.next as u16;
            self.next = self.next + 1;
            Some(p)
        }
    }
}

/// One allocation: the port handed out is the allocator's next one, which
/// then moves one up; when none is left nothing changes.
pub open spec fn allocation_step(before: PortAllocator, after: PortAllocator, r: Option<u16>) -> bool {
    if before.next_port() <= 65535 {
        r == Some(before.next_port() as u16) && after.next_port() == before.next_port() + 1
    } else {
        r is None && after.next_port() == before.next_port()
    }
}

/// Ports handed out by successive allocations are pairwise distinct:
/// `states[i]` is the allocator before call `i`, `results[i]` what it returned.
pub proof fn lemma_ports_distinct(states: Seq<PortAllocator>, results: Seq<Option<u16>>, i: int, j: int)
    requires
        states.len() == results.len() + 1,
        forall|k: int|
            0 <= k < results.len() ==> #[trigger] allocation_step(states[k], states[k + 1], results[k]),
        0 <= i < j < results.len(),
        results[i] is Some,
        results[j] is Some,
    ensures
        results[i] != results[j],
{
    lemma_next_grows(states, results, i + 1, j);
    assert(allocation_step(states[i], states[i + 1], results[i]));
    assert(allocation_step(states[j], states[j + 1], results[j]));
}

proof fn lemma_next_grows(states: Seq<PortAllocator>, results: Seq<Option<u16>>, a: int, b: int)
    requires
        states.len() == results.len() + 1,
        forall|k: int|
            0 <= k < results.len() ==> #[trigger] allocation_step(states[k], states[k + 1], results[k]),
        0 <= a <= b < states.len(),
    ensures
        states[a].next_port() <= states[b].next_port(),
    decreases b - a,
{
    if a < b {
        lemma_next_grows(states, results, a, b - 1);
        let k = b - 1;
        assert(allocation_step(states[k], states[k + 1], results[k]));
    }
}

/// The index of the first listener whose current proxy has the host of
/// `proxy`, or `ServerNotFound` with that host.
pub fn find_server(current: &Vec<Proxy>, proxy: &Proxy) -> (r: Result<usize, ProxyError>)
    ensures
        match r {
            Ok(i) => i < current@.len() && current@[i as int].ip@ == proxy.ip@ && forall|k: int|
                0 <= k < i ==> current@[k].ip@ != proxy.ip@,
            Err(e) => e == ProxyError::ServerNotFound(proxy.ip) && forall|k: int|
                0 <= k < current@.len() ==> current@[k].ip@ != proxy.ip@,
        },
{
    let mut i: usize = 0;
    while i < current.len()
        invariant
            0 <= i <= current@.len(),
            forall|k: int| 0 <= k < i ==> current@[k].ip@ != proxy.ip@,
        decreases current@.len() - i,
    {
        if current[i].ip == proxy.ip {
            return Ok(i);
        }
        i = i + 1;
    }
    Err(ProxyError::ServerNotFound(proxy.ip.clone()))
}

} // verus!
