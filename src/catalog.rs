//! The catalog loader's logic: reading records from text, choosing which
//! candidates to probe, ordering the live set by latency, and the text that is
//! persisted as the cache of validated proxies.
use vstd::prelude::*;
use crate::proxy_model::{parse_spec, text_of, Proxy, ProxyView};
use crate::text::{chars_of, split_chars, split_on, string_of};

verus! {

broadcast use vstd::seq_lib::group_to_multiset_ensures;

/// The views of a sequence of records.
pub open spec fn views(s: Seq<Proxy>) -> Seq<ProxyView> {
    s.map_values(|p: Proxy| p@)
}

/// The records that the lines parse to, in order, unparseable lines skipped.
pub open spec fn parsed_lines(lines: Seq<Seq<char>>) -> Seq<ProxyView>
    decreases lines.len(),
{
    if lines.len() == 0 {
        Seq::<ProxyView>::empty()
    } else {
        let prev = parsed_lines(lines.drop_last());
        match parse_spec(lines.last()) {
            Some(p) => prev.push(p),
            None => prev,
        }
    }
}

/// Whether a record equal to `p` is in `s`.
pub open spec fn holds_record(s: Seq<ProxyView>, p: ProxyView) -> bool {
    exists|k: int| 0 <= k < s.len() && s[k] == p
}

/// No two records of `s` are equal as records.
pub open spec fn distinct_records(s: Seq<Proxy>) -> bool {
    forall|a: int, b: int| 0 <= a < b < s.len() ==> s[a]@ != s[b]@
}

/// The records of `s` in order, each kept only at its first occurrence.
pub open spec fn unique_first(s: Seq<Proxy>) -> Seq<Proxy>
    decreases s.len(),
{
    if s.len() == 0 {
        Seq::<Proxy>::empty()
    } else {
        let prev = unique_first(s.drop_last());
        if holds_record(views(prev), s.last()@) {
            prev
        } else {
            prev.push(s.last())
        }
    }
}

/// `a` and `b` hold the same records, regardless of order and repeats.
pub open spec fn same_records(a: Seq<Proxy>, b: Seq<Proxy>) -> bool {
    forall|x: ProxyView| #[trigger] holds_record(views(a), x) <==> holds_record(views(b), x)
}

/// The candidates, in order, that are not already in the cache.
pub open spec fn not_cached(cache: Seq<ProxyView>, cands: Seq<ProxyView>) -> Seq<ProxyView>
    decreases cands.len(),
{
    if cands.len() == 0 {
        Seq::<ProxyView>::empty()
    } else {
        let prev = not_cached(cache, cands.drop_last());
        if holds_record(cache, cands.last()) {
            prev
        } else {
            prev.push(cands.last())
        }
    }
}

/// Adjacent records are in ascending order of latency.
pub open spec fn latency_sorted(s: Seq<Proxy>) -> bool {
    forall|i: int, j: int| 0 <= i < j < s.len() ==> s[i].latency <= s[j].latency
}

/// The records of `s` whose latency is `l`, in their order.
pub open spec fn with_latency(s: Seq<Proxy>, l: u64) -> Seq<Proxy> {
    s.filter(|p: Proxy| p.latency == l)
}

proof fn lemma_with_latency_push(s: Seq<Proxy>, p: Proxy, l: u64)
    ensures
        with_latency(s.push(p), l) == if p.latency == l {
            with_latency(s, l).push(p)
        } else {
            with_latency(s, l)
        },
{
    reveal(Seq::filter);
    assert(s.push(p).drop_last() =~= s);
}

proof fn lemma_with_latency_insert(s: Seq<Proxy>, j: int, p: Proxy, l: u64)
    requires
        0 <= j <= s.len(),
        forall|k: int| j <= k < s.len() ==> s[k].latency > p.latency,
    ensures
        with_latency(s.insert(j, p), l) == if p.latency == l {
            with_latency(s, l).push(p)
        } else {
            with_latency(s, l)
        },
{
    let pred = |q: Proxy| q.latency == l;
    let a = s.take(j);
    let b = s.skip(j);
    assert(s =~= a + b);
    assert(s.insert(j, p) =~= a.push(p) + b);
    Seq::filter_distributes_over_add(a, b, pred);
    Seq::filter_distributes_over_add(a.push(p), b, pred);
    lemma_with_latency_push(a, p, l);
    if p.latency == l {
        assert(b.filter(pred).len() == 0) by {
            assert(b.all(|x: Proxy| !pred(x))) by {
                assert forall|k: int| 0 <= k < b.len() implies !pred(#[trigger] b[k]) by {
                    assert(s[j + k].latency > p.latency);
                }
            }
            b.lemma_all_neg_filter_empty(pred);
        }
        assert(b.filter(pred) =~= Seq::<Proxy>::empty());
        assert(a.filter(pred) + b.filter(pred) =~= a.filter(pred));
        assert(a.filter(pred).push(p) + b.filter(pred) =~= a.filter(pred).push(p));
    }
}

proof fn lemma_insert_records(s: Seq<Proxy>, j: int, p: Proxy)
    requires
        0 <= j <= s.len(),
    ensures
        forall|x: ProxyView| #[trigger] holds_record(views(s.insert(j, p)), x) <==> (holds_record(
            views(s),
            x,
        ) || x == p@),
        distinct_records(s) && !holds_record(views(s), p@) ==> distinct_records(s.insert(j, p)),
{
    let t = s.insert(j, p);
    assert forall|x: ProxyView| #[trigger] holds_record(views(t), x) <==> (holds_record(views(s), x)
        || x == p@) by {
        if holds_record(views(t), x) {
            let k = choose|k: int| 0 <= k < views(t).len() && views(t)[k] == x;
            if k < j {
                assert(views(s)[k] == x);
            } else if k > j {
                assert(views(s)[k - 1] == x);
            }
        }
        if holds_record(views(s), x) {
            let k = choose|k: int| 0 <= k < views(s).len() && views(s)[k] == x;
            if k < j {
                assert(views(t)[k] == x);
            } else {
                assert(views(t)[k + 1] == x);
            }
        }
        if x == p@ {
            assert(views(t)[j] == x);
        }
    }
    if distinct_records(s) && !holds_record(views(s), p@) {
        assert forall|a: int, b: int| 0 <= a < b < t.len() implies t[a]@ != t[b]@ by {
            if a == j {
                assert(views(s)[b - 1] == t[b]@);
            } else if b == j {
                assert(views(s)[a] == t[a]@);
            } else {
                let a0 = if a < j { a } else { a - 1 };
                let b0 = if b < j { b } else { b - 1 };
                assert(t[a] == s[a0] && t[b] == s[b0]);
            }
        }
    }
}

/// The cache text: one canonical line per record, each ended by a newline.
pub open spec fn lines_text(s: Seq<ProxyView>) -> Seq<char>
    decreases s.len(),
{
    if s.len() == 0 {
        Seq::<char>::empty()
    } else {
        lines_text(s.drop_last()) + text_of(s.last()) + seq!['\n']
    }
}

/// Reads one record per line of `content`; lines that do not parse are skipped.
pub fn parse_lines(content: &str) -> (r: Vec<Proxy>)
    ensures
        views(r@) == parsed_lines(split_on(content@, '\n')),
{
    let cs = chars_of(content);
    let lines = split_chars(&cs, '\n');
    let ghost all = split_on(content@, '\n');
    let mut out: Vec<Proxy> = Vec::new();
    let mut i: usize = 0;
    while i < lines.len()
        invariant
            0 <= i <= lines@.len(),
            lines@.len() == all.len(),
            forall|k: int| 0 <= k < lines@.len() ==> #[trigger] lines@[k]@ == all[k],
            views(out@) == parsed_lines(all.take(i as int)),
        decreases lines@.len() - i,
    {
        assert(all.take(i + 1).drop_last() =~= all.take(i as int));
        let line = string_of(&lines[i]);
        match Proxy::parse(line.as_str()) {
            Ok(p) => {
                out.push(p);
                assert(views(out@) =~= parsed_lines(all.take(i + 1)));
            },
            Err(_) => {},
        }
        i = i + 1;
    }
    assert(all.take(i as int) =~= all);
    out
}

/// Whether `p` still needs a probe: no record equal to it is in the cache.
pub fn needs_probe(cache: &Vec<Proxy>, p: &Proxy) -> (r: bool)
    ensures
        r == !holds_record(views(cache@), p@),
{
    let mut i: usize = 0;
    while i < cache.len()
        invariant
            0 <= i <= cache@.len(),
            forall|k: int| 0 <= k < i ==> cache@[k]@ != p@,
        decreases cache@.len() - i,
    {
        if cache[i] == *p {
            assert(views(cache@)[i as int] == p@);
            return false;
        }
        i = i + 1;
    }
    assert(!holds_record(views(cache@), p@)) by {
        if holds_record(views(cache@), p@) {
            let k = choose|k: int| 0 <= k < views(cache@).len() && views(cache@)[k] == p@;
            assert(cache@[k]@ == p@);
        }
    }
    true
}

/// The records of `v` in order, each kept only at its first occurrence.
pub fn dedup_records(v: &Vec<Proxy>) -> (r: Vec<Proxy>)
    ensures
        r@ == unique_first(v@),
        distinct_records(r@),
        same_records(r@, v@),
{
    let mut out: Vec<Proxy> = Vec::new();
    let mut i: usize = 0;
    while i < v.len()
        invariant
            0 <= i <= v@.len(),
            out@ == unique_first(v@.take(i as int)),
            distinct_records(out@),
            same_records(out@, v@.take(i as int)),
        decreases v@.len() - i,
    {
        let ghost t = v@.take(i as int);
        let ghost t1 = v@.take(i + 1);
        assert(t1.drop_last() =~= t);
        assert(t1.last() == v@[i as int]);
        let ghost before = out@;
        if needs_probe(&out, &v[i]) {
            out.push(v[i].clone());
            assert(distinct_records(out@)) by {
                assert forall|a: int, b: int| 0 <= a < b < out@.len() implies out@[a]@
                    != out@[b]@ by {
                    if b == before.len() {
                        assert(views(before)[a] == before[a]@);
                    }
                }
            }
        }
        assert(same_records(out@, t1)) by {
            assert forall|x: ProxyView| #[trigger] holds_record(views(out@), x) <==> holds_record(
                views(t1),
                x,
            ) by {
                if holds_record(views(out@), x) {
                    let k = choose|k: int| 0 <= k < views(out@).len() && views(out@)[k] == x;
                    if k < before.len() {
                        assert(views(before)[k] == x);
                        assert(holds_record(views(before), x));
                        assert(holds_record(views(t), x));
                        let m = choose|m: int| 0 <= m < views(t).len() && views(t)[m] == x;
                        assert(views(t1)[m] == x);
                    } else {
                        assert(views(t1)[i as int] == x);
                    }
                }
                if holds_record(views(t1), x) {
                    let m = choose|m: int| 0 <= m < views(t1).len() && views(t1)[m] == x;
                    if m < i {
                        assert(views(t)[m] == x);
                        assert(holds_record(views(before), x));
                        let k = choose|k: int| 0 <= k < views(before).len() && views(before)[k] == x;
                        assert(views(out@)[k] == x);
                    } else if out@.len() > before.len() {
                        assert(views(out@)[before.len() as int] == x);
                    }
                }
            }
        }
        i = i + 1;
    }
    assert(v@.take(i as int) =~= v@);
    out
}

/// The candidates that are not already in the cache, in their order, each
/// taken once.
pub fn candidates_to_probe(cache: &Vec<Proxy>, candidates: &Vec<Proxy>) -> (r: Vec<Proxy>)
    ensures
        views(r@) == not_cached(views(cache@), views(unique_first(candidates@))),
        distinct_records(r@),
{
    let unique = dedup_records(candidates);
    let mut out: Vec<Proxy> = Vec::new();
    let mut i: usize = 0;
    while i < unique.len()
        invariant
            0 <= i <= unique@.len(),
            distinct_records(unique@),
            views(out@) == not_cached(views(cache@), views(unique@.take(i as int))),
            forall|k: int|
                0 <= k < out@.len() ==> exists|m: int| 0 <= m < i && #[trigger] out@[k]@ == unique@[m]@,
            distinct_records(out@),
        decreases unique@.len() - i,
    {
        let ghost before = out@;
        assert(views(unique@.take(i + 1)).drop_last() =~= views(unique@.take(i as int)));
        assert(views(unique@.take(i + 1)).last() == unique@[i as int]@);
        if needs_probe(cache, &unique[i]) {
            out.push(unique[i].clone());
            assert forall|a: int, b: int| 0 <= a < b < out@.len() implies out@[a]@
                != out@[b]@ by {
                if b == before.len() {
                    let m = choose|m: int| 0 <= m < i && before[a]@ == unique@[m]@;
                }
            }
            assert(views(out@) =~= not_cached(views(cache@), views(unique@.take(i + 1))));
        }
        assert forall|k: int| 0 <= k < out@.len() implies exists|m: int|
            0 <= m < i + 1 && #[trigger] out@[k]@ == unique@[m]@ by {
            if k < before.len() {
                let m = choose|m: int| 0 <= m < i && before[k]@ == unique@[m]@;
                assert(out@[k]@ == unique@[m]@);
            } else {
                assert(out@[k]@ == unique@[i as int]@);
            }
        }
        i = i + 1;
    }
    assert(unique@.take(i as int) =~= unique@);
    out
}

/// The record after a successful probe: marked live, with the latency measured.
pub fn mark_live(p: Proxy, latency_ms: u64) -> (r: Proxy)
    ensures
        r@ == (ProxyView { is_working: true, latency: latency_ms, ..p@ }),
{
    Proxy { is_working: true, latency: latency_ms, ..p }
}

/// Orders the records by ascending latency; records of equal latency keep
/// their relative order.
pub fn sort_by_latency(v: &Vec<Proxy>) -> (r: Vec<Proxy>)
    ensures
        latency_sorted(r@),
        r@.to_multiset() == v@.to_multiset(),
        forall|l: u64| #[trigger] with_latency(r@, l) == with_latency(v@, l),
        same_records(r@, v@),
        distinct_records(v@) ==> distinct_records(r@),
{
    let mut out: Vec<Proxy> = Vec::new();
    let mut i: usize = 0;
    while i < v.len()
        invariant
            0 <= i <= v@.len(),
            latency_sorted(out@),
            out@.to_multiset() == v@.take(i as int).to_multiset(),
            forall|l: u64| #[trigger] with_latency(out@, l) == with_latency(v@.take(i as int), l),
            same_records(out@, v@.take(i as int)),
            distinct_records(v@) ==> distinct_records(out@),
        decreases v@.len() - i,
    {
        let p = v[i].clone();
        let mut j: usize = 0;
        while j < out.len() && out[j].latency <= p.latency
            invariant
                0 <= j <= out@.len(),
                forall|k: int| 0 <= k < j ==> out@[k].latency <= p.latency,
            decreases out@.len() - j,
        {
            j = j + 1;
        }
        let ghost before = out@;
        assert forall|k: int| j <= k < before.len() implies before[k].latency > p.latency by {
            assert(before[j as int].latency > p.latency);
            if k > j {
                assert(before[j as int].latency <= before[k].latency);
            }
        }
        out.insert(j, p);
        assert(latency_sorted(out@)) by {
            assert forall|a: int, b: int| 0 <= a < b < out@.len() implies out@[a].latency
                <= out@[b].latency by {
                assert(latency_sorted(before));
                if b < j {
                    assert(out@[a] == before[a] && out@[b] == before[b]);
                } else if b == j {
                    assert(out@[a] == before[a]);
                } else {
                    assert(j < before.len());
                    assert(out@[b] == before[b - 1]);
                    assert(before[j as int].latency > p.latency);
                    if b - 1 > j {
                        assert(before[j as int].latency <= before[b - 1].latency);
                    }
                    if a < j {
                        assert(out@[a] == before[a]);
                    } else if a > j {
                        assert(out@[a] == before[a - 1]);
                    }
                }
            }
        }
        let ghost t = v@.take(i as int);
        assert(v@.take(i + 1) =~= t.push(v@[i as int]));
        proof {
            lemma_insert_records(before, j as int, p);
            lemma_insert_records(t, t.len() as int, p);
            assert(t.insert(t.len() as int, p) =~= t.push(v@[i as int]));
            if distinct_records(v@) {
                if holds_record(views(t), p@) {
                    let m = choose|m: int| 0 <= m < views(t).len() && views(t)[m] == p@;
                    assert(v@[m]@ == v@[i as int]@);
                }
                assert(!holds_record(views(before), p@));
            }
            assert forall|x: ProxyView| #[trigger] holds_record(views(out@), x) <==> holds_record(
                views(v@.take(i + 1)),
                x,
            ) by {
                assert(holds_record(views(before), x) <==> holds_record(views(t), x));
            }
        }
        assert forall|l: u64| #[trigger] with_latency(out@, l) == with_latency(
            v@.take(i + 1),
            l,
        ) by {
            lemma_with_latency_insert(before, j as int, p, l);
            lemma_with_latency_push(v@.take(i as int), v@[i as int], l);
        }
        i = i + 1;
    }
    assert(v@.take(i as int) =~= v@);
    out
}

/// The catalog made of the cached records and the freshly probed ones:
/// each record once, at its first occurrence (cached records first), ordered
/// by ascending latency, records of equal latency keeping their order.
pub fn build_catalog(cache: &Vec<Proxy>, probed: &Vec<Proxy>) -> (r: Vec<Proxy>)
    ensures
        latency_sorted(r@),
        distinct_records(r@),
        same_records(r@, cache@ + probed@),
        r@.to_multiset() == unique_first(cache@ + probed@).to_multiset(),
        forall|l: u64| #[trigger] with_latency(r@, l) == with_latency(unique_first(cache@ + probed@), l),
{
    let mut all: Vec<Proxy> = Vec::new();
    let mut i: usize = 0;
    while i < cache.len()
        invariant
            0 <= i <= cache@.len(),
            all@ == cache@.take(i as int),
        decreases cache@.len() - i,
    {
        all.push(cache[i].clone());
        assert(all@ =~= cache@.take(i + 1));
        i = i + 1;
    }
    let mut k: usize = 0;
    while k < probed.len()
        invariant
            0 <= k <= probed@.len(),
            all@ == cache@ + probed@.take(k as int),
        decreases probed@.len() - k,
    {
        assert(cache@.take(cache@.len() as int) =~= cache@);
        all.push(probed[k].clone());
        assert(all@ =~= cache@ + probed@.take(k + 1));
        k = k + 1;
    }
    assert(cache@ + probed@.take(k as int) =~= cache@ + probed@);
    let unique = dedup_records(&all);
    let r = sort_by_latency(&unique);
    assert(same_records(r@, cache@ + probed@)) by {
        assert forall|x: ProxyView| #[trigger] holds_record(views(r@), x) <==> holds_record(
            views(cache@ + probed@),
            x,
        ) by {
            assert(holds_record(views(r@), x) <==> holds_record(views(unique@), x));
            assert(holds_record(views(unique@), x) <==> holds_record(views(all@), x));
        }
    }
    r
}

/// The text persisted as the cache: each record's canonical line, in order.
pub fn cache_text(catalog: &Vec<Proxy>) -> (r: String)
    ensures
        r@ == lines_text(views(catalog@)),
{
    let mut out: Vec<char> = Vec::new();
    let mut i: usize = 0;
    while i < catalog.len()
        invariant
            0 <= i <= catalog@.len(),
            out@ == lines_text(views(catalog@.take(i as int))),
        decreases catalog@.len() - i,
    {
        assert(views(catalog@.take(i + 1)).drop_last() =~= views(catalog@.take(i as int)));
        catalog[i].push_text(&mut out);
        out.push('\n');
        i = i + 1;
    }
    assert(catalog@.take(i as int) =~= catalog@);
    string_of(&out)
}

} // verus!
