//! Character-level helpers: splitting on a separator, joining, decimal numbers.
use vstd::prelude::*;
use vstd::std_specs::iter::IteratorSpec;

verus! {

/// The fields of `s` between occurrences of `sep`, as `str::split` yields them:
/// always at least one field, empty fields kept.
pub open spec fn split_on(s: Seq<char>, sep: char) -> Seq<Seq<char>>
    decreases s.len(),
{
    if s.len() == 0 {
        seq![Seq::<char>::empty()]
    } else {
        let prev = split_on(s.drop_last(), sep);
        if s.last() == sep {
            prev.push(Seq::<char>::empty())
        } else {
            prev.update(prev.len() - 1, prev.last().push(s.last()))
        }
    }
}

/// The fields of `fs` with `sep` between each two of them.
pub open spec fn join_on(fs: Seq<Seq<char>>, sep: char) -> Seq<char>
    decreases fs.len(),
{
    if fs.len() == 0 {
        Seq::<char>::empty()
    } else if fs.len() == 1 {
        fs[0]
    } else {
        join_on(fs.drop_last(), sep).push(sep) + fs.last()
    }
}

pub proof fn lemma_split_nonempty(s: Seq<char>, sep: char)
    ensures
        split_on(s, sep).len() >= 1,
    decreases s.len(),
{
    if s.len() > 0 {
        lemma_split_nonempty(s.drop_last(), sep);
    }
}

/// Joining the fields of a split gives the text back.
pub proof fn lemma_join_split(s: Seq<char>, sep: char)
    ensures
        join_on(split_on(s, sep), sep) == s,
    decreases s.len(),
{
    if s.len() > 0 {
        let t = s.drop_last();
        lemma_join_split(t, sep);
        lemma_split_nonempty(t, sep);
        let prev = split_on(t, sep);
        if s.last() == sep {
            assert(split_on(s, sep).drop_last() == prev);
            assert(s == t.push(sep) + Seq::<char>::empty());
        } else {
            let cur = split_on(s, sep);
            if prev.len() == 1 {
                assert(cur[0] == prev[0].push(s.last()));
                assert(s == t.push(s.last()));
            } else {
                assert(cur.drop_last() == prev.drop_last());
                let j = join_on(prev.drop_last(), sep).push(sep);
                assert(t == j + prev.last());
                assert(s =~= t.push(s.last()));
                assert(s =~= j + prev.last().push(s.last()));
            }
        }
    }
}

/// Appending text without a separator extends the last field.
pub proof fn lemma_split_extend(t: Seq<char>, b: Seq<char>, sep: char)
    requires
        !b.contains(sep),
    ensures
        split_on(t + b, sep) == split_on(t, sep).update(
            split_on(t, sep).len() - 1,
            split_on(t, sep).last() + b,
        ),
    decreases b.len(),
{
    lemma_split_nonempty(t, sep);
    if b.len() == 0 {
        assert(t + b =~= t);
        assert(split_on(t, sep).last() + b =~= split_on(t, sep).last());
        assert(split_on(t, sep).update(split_on(t, sep).len() - 1, split_on(t, sep).last())
            =~= split_on(t, sep));
    } else {
        let b0 = b.drop_last();
        assert(!b0.contains(sep)) by {
            if b0.contains(sep) {
                let k = choose|k: int| 0 <= k < b0.len() && b0[k] == sep;
                assert(b[k] == sep);
            }
        }
        assert(b.last() != sep) by {
            assert(b[b.len() - 1] == b.last());
        }
        lemma_split_extend(t, b0, sep);
        assert((t + b).drop_last() =~= t + b0);
        lemma_split_nonempty(t + b0, sep);
        let sp = split_on(t, sep);
        let prev = split_on(t + b0, sep);
        assert((t + b).last() == b.last());
        assert(prev.len() == sp.len());
        assert(prev.last() == sp.last() + b0);
        assert(split_on(t + b, sep) == prev.update(prev.len() - 1, prev.last().push(b.last())));
        assert((sp.last() + b0).push(b.last()) =~= sp.last() + b);
        assert(split_on(t + b, sep) =~= split_on(t, sep).update(
            split_on(t, sep).len() - 1,
            split_on(t, sep).last() + b,
        ));
    }
}

/// Splitting joined fields that hold no separator gives the fields back.
pub proof fn lemma_split_join(fs: Seq<Seq<char>>, sep: char)
    requires
        fs.len() >= 1,
        forall|k: int| 0 <= k < fs.len() ==> !(#[trigger] fs[k]).contains(sep),
    ensures
        split_on(join_on(fs, sep), sep) == fs,
    decreases fs.len(),
{
    if fs.len() == 1 {
        lemma_split_extend(Seq::<char>::empty(), fs[0], sep);
        assert(Seq::<char>::empty() + fs[0] =~= fs[0]);
        assert(split_on(fs[0], sep) =~= fs);
    } else {
        let init = fs.drop_last();
        lemma_split_join(init, sep);
        let j = join_on(init, sep).push(sep);
        assert(j.drop_last() =~= join_on(init, sep));
        assert(split_on(j, sep) == fs.drop_last().push(Seq::<char>::empty()));
        assert(!fs[fs.len() - 1].contains(sep));
        lemma_split_extend(j, fs.last(), sep);
        assert(Seq::<char>::empty() + fs.last() =~= fs.last());
        assert(split_on(join_on(fs, sep), sep) =~= fs);
    }
}

/// The chars of `s`, in order.
pub fn chars_of(s: &str) -> (r: Vec<char>)
    ensures
        r@ == s@,
{
    let mut out: Vec<char> = Vec::new();
    push_chars(&mut out, s);
    out
}

/// Appends the chars of `s` to `out`.
pub fn push_chars(out: &mut Vec<char>, s: &str)
    ensures
        final(out)@ == old(out)@ + s@,
{
    broadcast use vstd::string::axiom_spec_iter, vstd::string::next_postcondition;
    let ghost start = out@;
    let mut it = s.chars();
    let ghost mut i: int = 0;
    loop
        invariant
            0 <= i <= s@.len(),
            it.obeys_prophetic_iter_laws(),
            it.remaining() == s@.skip(i),
            it.decrease() is Some,
            out@ == start + s@.take(i),
        ensures
            out@ == start + s@,
        decreases it.decrease()->0,
    {
        match it.next() {
            Some(c) => {
                assert(s@.take(i + 1) =~= s@.take(i).push(c));
                out.push(c);
                proof { i = i + 1; }
            },
            None => {
                assert(s@.take(i) =~= s@);
                break;
            },
        }
    }
}

/// Relies on `String`'s `FromIterator<&char>`: the string made of the given chars.
#[verifier::external_body]
pub fn string_of(cs: &Vec<char>) -> (r: String)
    ensures
        r@ == cs@,
{
    cs.iter().collect()
}

/// Splits `s` into its fields between occurrences of `sep`.
pub fn split_chars(s: &Vec<char>, sep: char) -> (r: Vec<Vec<char>>)
    ensures
        r@.len() == split_on(s@, sep).len(),
        forall|k: int| 0 <= k < r@.len() ==> #[trigger] r@[k]@ == split_on(s@, sep)[k],
{
    let mut fields: Vec<Vec<char>> = Vec::new();
    let mut cur: Vec<char> = Vec::new();
    let mut i: usize = 0;
    while i < s.len()
        invariant
            0 <= i <= s@.len(),
            fields@.len() + 1 == split_on(s@.take(i as int), sep).len(),
            forall|k: int|
                0 <= k < fields@.len() ==> #[trigger] fields@[k]@ == split_on(
                    s@.take(i as int),
                    sep,
                )[k],
            cur@ == split_on(s@.take(i as int), sep).last(),
        decreases s@.len() - i,
    {
        let c = s[i];
        let ghost t = s@.take(i as int);
        assert(s@.take(i + 1).drop_last() =~= t);
        proof {
            lemma_split_nonempty(t, sep);
        }
        if c == sep {
            fields.push(cur);
            cur = Vec::new();
        } else {
            cur.push(c);
        }
        i = i + 1;
    }
    assert(s@.take(i as int) =~= s@);
    fields.push(cur);
    fields
}

pub open spec fn is_digit(c: char) -> bool {
    '0' <= c && c <= '9'
}

pub open spec fn digit_value(c: char) -> nat {
    (c as u32 - '0' as u32) as nat
}

pub open spec fn digit_char(d: nat) -> char {
    if d == 0 {
        '0'
    } else if d == 1 {
        '1'
    } else if d == 2 {
        '2'
    } else if d == 3 {
        '3'
    } else if d == 4 {
        '4'
    } else if d == 5 {
        '5'
    } else if d == 6 {
        '6'
    } else if d == 7 {
        '7'
    } else if d == 8 {
        '8'
    } else {
        '9'
    }
}

/// The number that the decimal digits `d` denote.
pub open spec fn digits_value(d: Seq<char>) -> nat
    decreases d.len(),
{
    if d.len() == 0 {
        0
    } else {
        digits_value(d.drop_last()) * 10 + digit_value(d.last())
    }
}

pub open spec fn all_digits(d: Seq<char>) -> bool {
    forall|k: int| 0 <= k < d.len() ==> is_digit(#[trigger] d[k])
}

/// The digits of a port field: one leading `+` is allowed, as `u16::from_str` allows it.
pub open spec fn port_digits(f: Seq<char>) -> Seq<char> {
    if f.len() > 0 && f[0] == '+' {
        f.skip(1)
    } else {
        f
    }
}

/// The 16-bit unsigned number that `f` reads as, if any.
pub open spec fn parse_port_spec(f: Seq<char>) -> Option<u16> {
    let d = port_digits(f);
    if d.len() > 0 && all_digits(d) && digits_value(d) <= 65535 {
        Some(digits_value(d) as u16)
    } else {
        None
    }
}

/// The decimal text of `n`, without leading zeros.
pub open spec fn decimal(n: nat) -> Seq<char>
    decreases n,
{
    if n < 10 {
        seq![digit_char(n)]
    } else {
        decimal(n / 10).push(digit_char(n % 10))
    }
}

/// Reads a port field as a 16-bit unsigned decimal number.
pub fn parse_port(f: &Vec<char>) -> (r: Option<u16>)
    ensures
        r == parse_port_spec(f@),
{
    let mut start: usize = 0;
    if f.len() > 0 && f[0] == '+' {
        start = 1;
    }
    let ghost d = port_digits(f@);
    assert(d =~= f@.subrange(start as int, f@.len() as int));
    if start == f.len() {
        return None;
    }
    let mut v: u32 = 0;
    let mut i: usize = start;
    while i < f.len()
        invariant
            start <= i <= f@.len(),
            d == port_digits(f@),
            d == f@.subrange(start as int, f@.len() as int),
            all_digits(f@.subrange(start as int, i as int)),
            v == if digits_value(f@.subrange(start as int, i as int)) < 65536 {
                digits_value(f@.subrange(start as int, i as int))
            } else {
                65536
            },
        decreases f@.len() - i,
    {
        let c = f[i];
        if !(c >= '0' && c <= '9') {
            assert(d[i - start] == c);
            assert(!is_digit(d[i - start]));
            assert(!all_digits(d));
            return None;
        }
        let ghost prev = f@.subrange(start as int, i as int);
        let ghost next = f@.subrange(start as int, i + 1);
        assert(next.drop_last() =~= prev);
        assert(next.last() == c);
        let dv: u32 = (c as u32) - ('0' as u32);
        assert(dv == digit_value(c));
        let ghost x = digits_value(prev);
        assert(digits_value(next) == x * 10 + dv);
        let w: u32 = v * 10 + dv;
        assert(x < 65536 ==> w == x * 10 + dv);
        assert(x >= 65536 ==> x * 10 + dv >= 65536) by (nonlinear_arith);
        v = if w < 65536 {
            w
        } else {
            65536
        };
        i = i + 1;
    }
    assert(f@.subrange(start as int, i as int) =~= d);
    if v < 65536 {
        Some(v as u16)
    } else {
        None
    }
}

fn digit_char_exec(d: u16) -> (c: char)
    requires
        d < 10,
    ensures
        c == digit_char(d as nat),
{
    if d == 0 {
        '0'
    } else if d == 1 {
        '1'
    } else if d == 2 {
        '2'
    } else if d == 3 {
        '3'
    } else if d == 4 {
        '4'
    } else if d == 5 {
        '5'
    } else if d == 6 {
        '6'
    } else if d == 7 {
        '7'
    } else if d == 8 {
        '8'
    } else {
        '9'
    }
}

/// Appends the decimal text of `n` to `out`.
pub fn push_decimal(out: &mut Vec<char>, n: u16)
    ensures
        final(out)@ == old(out)@ + decimal(n as nat),
    decreases n,
{
    if n >= 10 {
        push_decimal(out, n / 10);
    }
    out.push(digit_char_exec(n % 10));
    assert(out@ =~= old(out)@ + decimal(n as nat));
}

/// The decimal text of a 16-bit number reads back as that number.
pub proof fn lemma_parse_decimal(n: u16)
    ensures
        parse_port_spec(decimal(n as nat)) == Some(n),
{
    lemma_decimal_digits(n as nat);
    let d = decimal(n as nat);
    assert(port_digits(d) == d);
}

proof fn lemma_digit_char(k: nat)
    requires
        k < 10,
    ensures
        is_digit(digit_char(k)),
        digit_value(digit_char(k)) == k,
        digit_char(k) != '+',
{
}

pub proof fn lemma_decimal_digits(n: nat)
    ensures
        decimal(n).len() > 0,
        all_digits(decimal(n)),
        digits_value(decimal(n)) == n,
        decimal(n)[0] != '+',
    decreases n,
{
    lemma_digit_char(n % 10);
    if n < 10 {
        let d = decimal(n);
        assert(d.drop_last() =~= Seq::<char>::empty());
        assert(digits_value(d.drop_last()) == 0);
        assert(digits_value(d) == digits_value(d.drop_last()) * 10 + digit_value(d.last()));
    } else {
        lemma_decimal_digits(n / 10);
        assert(n == (n / 10) * 10 + n % 10);
        let d = decimal(n);
        assert(d.last() == digit_char(n % 10));
        assert(d.drop_last() =~= decimal(n / 10));
        assert(digits_value(d) == digits_value(d.drop_last()) * 10 + digit_value(d.last()));
        assert(all_digits(d)) by {
            assert forall|k: int| 0 <= k < d.len() implies is_digit(#[trigger] d[k]) by {
                if k < d.len() - 1 {
                    assert(d[k] == decimal(n / 10)[k]);
                }
            }
        }
    }
}

} // verus!
