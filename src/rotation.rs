//! The rotation policy. The catalog is a circular queue: taking the next proxy
//! moves the head to the tail. A rotation tick gives each listener that has
//! held its proxy long enough the next proxy of the catalog.
use vstd::prelude::*;
use crate::catalog::distinct_records;
use crate::errors::ProxyError;
use crate::proxy_model::Proxy;

verus! {

/// The catalog after one pick: the head moved to the tail.
pub open spec fn rotated(s: Seq<Proxy>) -> Seq<Proxy> {
    s.skip(1).push(s[0])
}

/// The catalog after `k` picks.
pub open spec fn rotated_by(s: Seq<Proxy>, k: nat) -> Seq<Proxy>
    decreases k,
{
    if k == 0 {
        s
    } else {
        rotated(rotated_by(s, (k - 1) as nat))
    }
}

/// The proxies handed out by `k` successive picks.
pub open spec fn picks(s: Seq<Proxy>, k: nat) -> Seq<Proxy>
    decreases k,
{
    if k == 0 {
        Seq::<Proxy>::empty()
    } else {
        picks(s, (k - 1) as nat).push(rotated_by(s, (k - 1) as nat)[0])
    }
}

/// Takes the next proxy: removes the head of the catalog and appends it to the tail.
pub fn next_proxy(catalog: &mut Vec<Proxy>) -> (r: Option<Proxy>)
    ensures
        old(catalog)@.len() == 0 ==> r is None && final(catalog)@ == old(catalog)@,
        old(catalog)@.len() > 0 ==> r == Some(old(catalog)@[0]) && final(catalog)@ == rotated(
            old(catalog)@,
        ),
{
    if catalog.len() == 0 {
        return None;
    }
    let p = catalog.remove(0);
    catalog.push(p.clone());
    assert(catalog@ =~= rotated(old(catalog)@));
    Some(p)
}

/// The proxy of a new manager's first listener: the next one of the catalog,
/// or `ProxyNotSet` when the catalog is empty.
pub fn first_assignment(catalog: &mut Vec<Proxy>) -> (r: Result<Proxy, ProxyError>)
    ensures
        old(catalog)@.len() == 0 ==> r == Err::<Proxy, ProxyError>(ProxyError::ProxyNotSet)
            && final(catalog)@ == old(catalog)@,
        old(catalog)@.len() > 0 ==> r == Ok::<Proxy, ProxyError>(old(catalog)@[0])
            && final(catalog)@ == rotated(old(catalog)@),
{
    match next_proxy(catalog) {
        Some(p) => Ok(p),
        None => Err(ProxyError::ProxyNotSet),
    }
}

/// Whether the rotation loop goes on: rotation is enabled and there is a proxy to rotate to.
pub fn rotation_active(rotate_interval: u64, catalog_len: usize) -> (r: bool)
    ensures
        r == (rotate_interval != 0 && catalog_len > 0),
{
    rotate_interval != 0 && catalog_len > 0
}

/// The outcome of one rotation tick over listeners given as (current proxy,
/// seconds it has been held): for each listener the proxy to switch to, if
/// any, and the catalog afterwards. A listener that held its proxy for less
/// than the interval keeps it; any other takes the next proxy, unless that is
/// the one it already has.
pub open spec fn tick_plan(cat: Seq<Proxy>, ls: Seq<(Proxy, u64)>, interval: u64) -> (
    Seq<Option<Proxy>>,
    Seq<Proxy>,
)
    decreases ls.len(),
{
    if ls.len() == 0 {
        (Seq::<Option<Proxy>>::empty(), cat)
    } else {
        let prev = tick_plan(cat, ls.drop_last(), interval);
        let acts = prev.0;
        let c = prev.1;
        let cur = ls.last().0;
        let held = ls.last().1;
        if held < interval || c.len() == 0 {
            (acts.push(None), c)
        } else if c[0]@ == cur@ {
            (acts.push(None), rotated(c))
        } else {
            (acts.push(Some(c[0])), rotated(c))
        }
    }
}

/// Plans one rotation tick: which listener switches to which proxy.
pub fn plan_rotation(catalog: &mut Vec<Proxy>, listeners: &Vec<(Proxy, u64)>, rotate_interval: u64) -> (r: Vec<Option<Proxy>>)
    ensures
        (r@, final(catalog)@) == tick_plan(old(catalog)@, listeners@, rotate_interval),
{
    let mut out: Vec<Option<Proxy>> = Vec::new();
    let mut i: usize = 0;
    while i < listeners.len()
        invariant
            0 <= i <= listeners@.len(),
            (out@, catalog@) == tick_plan(old(catalog)@, listeners@.take(i as int), rotate_interval),
        decreases listeners@.len() - i,
    {
        assert(listeners@.take(i + 1).drop_last() =~= listeners@.take(i as int));
        let cur = &listeners[i].0;
        let held = listeners[i].1;
        if held < rotate_interval || catalog.len() == 0 {
            out.push(None);
        } else {
            match next_proxy(catalog) {
                Some(p) => {
                    if p == *cur {
                        out.push(None);
                    } else {
                        out.push(Some(p));
                    }
                },
                None => {
                    out.push(None);
                },
            }
        }
        i = i + 1;
    }
    assert(listeners@.take(i as int) =~= listeners@);
    out
}

proof fn lemma_rotated_by(s: Seq<Proxy>, k: nat)
    requires
        k <= s.len(),
        s.len() > 0,
    ensures
        rotated_by(s, k) == s.skip(k as int) + s.take(k as int),
        picks(s, k) == s.take(k as int),
    decreases k,
{
    if k == 0 {
        assert(s.skip(0) + s.take(0) =~= s);
        assert(s.take(0) =~= Seq::<Proxy>::empty());
    } else {
        let j = (k - 1) as nat;
        lemma_rotated_by(s, j);
        let r = rotated_by(s, j);
        assert(r[0] == s[j as int]);
        assert(rotated(r) =~= s.skip(k as int) + s.take(k as int));
        assert(s.take(k as int) =~= s.take(j as int).push(s[j as int]));
    }
}

/// Fairness of the rotation cursor: over as many picks as the catalog has
/// entries, every entry is handed out exactly once, in catalog order, and the
/// catalog is back as it was.
pub proof fn lemma_rotation_fair(s: Seq<Proxy>)
    requires
        s.len() >= 1,
    ensures
        picks(s, s.len()) == s,
        rotated_by(s, s.len()) == s,
        s.no_duplicates() ==> picks(s, s.len()).no_duplicates() && picks(s, s.len()).to_set()
            == s.to_set(),
{
    lemma_rotated_by(s, s.len());
    assert(s.take(s.len() as int) =~= s);
    assert(s.skip(s.len() as int) + s =~= s);
}

/// One listener that is due at every tick and whose probes all succeed:
/// after `k` ticks from catalog `cat` while holding `cur`, the proxies it was
/// assigned in order, the catalog, and the proxy it holds.
pub open spec fn lone_listener_ticks(cat: Seq<Proxy>, cur: Proxy, k: nat, interval: u64) -> (
    Seq<Proxy>,
    Seq<Proxy>,
    Proxy,
)
    decreases k,
{
    if k == 0 {
        (Seq::<Proxy>::empty(), cat, cur)
    } else {
        let prev = lone_listener_ticks(cat, cur, (k - 1) as nat, interval);
        let plan = tick_plan(prev.1, seq![(prev.2, interval)], interval);
        match plan.0[0] {
            Some(n) => (prev.0.push(n), plan.1, n),
            None => (prev.0, plan.1, prev.2),
        }
    }
}

proof fn lemma_lone_listener_step(s: Seq<Proxy>, k: nat, interval: u64)
    requires
        s.len() >= 2,
        distinct_records(s),
        k < s.len(),
    ensures
        ({
            let st = lone_listener_ticks(rotated(s), s[0], k, interval);
            &&& st.0 == s.subrange(1, k + 1 as int)
            &&& st.2 == s[k as int]
            &&& st.1 == rotated_by(s, k + 1)
        }),
    decreases k,
{
    lemma_rotated_by(s, 1);
    assert(rotated_by(s, 0) == s);
    if k == 0 {
        assert(s.subrange(1, 1) =~= Seq::<Proxy>::empty());
        assert(rotated_by(s, 1) == rotated(s));
    } else {
        let j = (k - 1) as nat;
        lemma_lone_listener_step(s, j, interval);
        lemma_rotated_by(s, k);
        lemma_rotated_by(s, k + 1);
        let prev = lone_listener_ticks(rotated(s), s[0], j, interval);
        let c = prev.1;
        let one = seq![(prev.2, interval)];
        assert(one.drop_last() =~= Seq::<(Proxy, u64)>::empty());
        assert(c[0] == s[k as int]);
        assert(c.len() == s.len());
        assert(s[k as int]@ != s[j as int]@);
        assert(c[0]@ != prev.2@);
        assert(tick_plan(c, one.drop_last(), interval) == (Seq::<Option<Proxy>>::empty(), c));
        let plan = tick_plan(c, one, interval);
        assert(plan.0 == Seq::<Option<Proxy>>::empty().push(Some(c[0])));
        assert(plan.1 == rotated(c));
        assert(plan.0[0] == Some(c[0]));
        assert(rotated_by(s, k + 1) == rotated(rotated_by(s, k)));
        assert(s.subrange(1, k + 1 as int) =~= s.subrange(1, j + 1 as int).push(s[k as int]));
    }
}

/// Fairness of rotation for a single listener: with `N >= 2` distinct
/// proxies, a listener that starts on the first of them and is due at every
/// tick is assigned, over `N` ticks, every proxy of the catalog exactly once.
pub proof fn lemma_lone_listener_fair(s: Seq<Proxy>, interval: u64)
    requires
        s.len() >= 2,
        distinct_records(s),
    ensures
        ({
            let assigned = lone_listener_ticks(rotated(s), s[0], s.len(), interval).0;
            &&& assigned == rotated(s)
            &&& assigned.no_duplicates()
            &&& assigned.to_set() == s.to_set()
        }),
{
    let n = s.len();
    let j = (n - 1) as nat;
    lemma_lone_listener_step(s, j, interval);
    lemma_rotated_by(s, n);
    let prev = lone_listener_ticks(rotated(s), s[0], j, interval);
    let c = prev.1;
    assert(c =~= s.skip(n as int) + s.take(n as int));
    assert(c =~= s);
    let one = seq![(prev.2, interval)];
    assert(one.drop_last() =~= Seq::<(Proxy, u64)>::empty());
    assert(s[0]@ != s[j as int]@);
    assert(c[0] == s[0]);
    assert(tick_plan(c, one.drop_last(), interval) == (Seq::<Option<Proxy>>::empty(), c));
    let plan = tick_plan(c, one, interval);
    assert(plan.0 == Seq::<Option<Proxy>>::empty().push(Some(c[0])));
    assert(plan.0[0] == Some(c[0]));
    assert(lone_listener_ticks(rotated(s), s[0], n, interval).0 == prev.0.push(s[0]));
    assert(s.subrange(1, n as int).push(s[0]) =~= rotated(s));
    let r = rotated(s);
    assert(r.no_duplicates()) by {
        assert forall|a: int, b: int| 0 <= a < b < r.len() implies r[a] != r[b] by {
            if b == r.len() - 1 {
                assert(r[a] == s[a + 1]);
                assert(s[0]@ != s[a + 1]@);
            } else {
                assert(r[a] == s[a + 1] && r[b] == s[b + 1]);
                assert(s[a + 1]@ != s[b + 1]@);
            }
        }
    }
    assert(r.to_set() =~= s.to_set()) by {
        assert forall|x: Proxy| r.to_set().contains(x) implies s.to_set().contains(x) by {
            let i = choose|i: int| 0 <= i < r.len() && r[i] == x;
            if i == r.len() - 1 {
                assert(s[0] == x);
            } else {
                assert(s[i + 1] == x);
            }
        }
        assert forall|x: Proxy| s.to_set().contains(x) implies r.to_set().contains(x) by {
            let i = choose|i: int| 0 <= i < s.len() && s[i] == x;
            if i == 0 {
                assert(r[r.len() - 1] == x);
            } else {
                assert(r[i - 1] == x);
            }
        }
    }
}

} // verus!
