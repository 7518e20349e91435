//! The proxy record and its canonical text form `host:port[:user:pass]`.
use vstd::prelude::*;
use crate::errors::ProxyError;
use crate::text::{
    chars_of, decimal, is_digit, join_on, lemma_decimal_digits, lemma_join_split,
    lemma_parse_decimal, lemma_split_join, lemma_split_nonempty, parse_port,
    parse_port_spec, push_chars, push_decimal, split_chars, split_on, string_of,
};

verus! {

/// Credentials for the upstream's username/password subnegotiation.
#[derive(Debug, Hash)]
pub struct ProxyAuth {
    pub user: String,
    pub pass: String,
}

/// One upstream SOCKS5 proxy.
#[derive(Debug, Hash)]
pub struct Proxy {
    /// Dotted quad or host name.
    pub ip: String,
    pub port: u16,
    pub auth: Option<ProxyAuth>,
    /// Set once a liveness probe went through.
    pub is_working: bool,
    /// Measured round trip of the liveness probe, in milliseconds.
    pub latency: u64,
    /// Marker reserved for the rotation policy.
    pub used: bool,
}

/// What a proxy record holds, as mathematical values.
pub struct ProxyView {
    pub host: Seq<char>,
    pub port: u16,
    pub auth: Option<(Seq<char>, Seq<char>)>,
    pub is_working: bool,
    pub latency: u64,
    pub used: bool,
}

impl View for Proxy {
    type V = ProxyView;

    open spec fn view(&self) -> ProxyView {
        ProxyView {
            host: self.ip@,
            port: self.port,
            auth: match self.auth {
                Some(a) => Some((a.user@, a.pass@)),
                None => None,
            },
            is_working: self.is_working,
            latency: self.latency,
            used: self.used,
        }
    }
}

/// The record that a text denotes, if any. The text is split on `:`; the first
/// field is the host, the second the port. Two fields make an anonymous record;
/// with three or more, the third is the user and the fourth (empty if absent)
/// the password, further fields being ignored.
pub open spec fn parse_spec(s: Seq<char>) -> Option<ProxyView> {
    let f = split_on(s, ':');
    if f.len() < 2 || parse_port_spec(f[1]) is None {
        None
    } else {
        Some(
            ProxyView {
                host: f[0],
                port: parse_port_spec(f[1])->0,
                auth: if f.len() == 2 {
                    None
                } else {
                    Some((f[2], if f.len() >= 4 { f[3] } else { Seq::<char>::empty() }))
                },
                is_working: false,
                latency: 0,
                used: true,
            },
        )
    }
}

/// The canonical text of a record: `host:port`, or `host:port:user:pass`.
pub open spec fn text_of(p: ProxyView) -> Seq<char> {
    let base = p.host + seq![':'] + decimal(p.port as nat);
    match p.auth {
        None => base,
        Some((u, w)) => base + seq![':'] + u + seq![':'] + w,
    }
}

/// A text that is exactly the canonical text of its own fields: two or four
/// fields, the second of them a port written in plain decimal.
pub open spec fn is_canonical(s: Seq<char>) -> bool {
    let f = split_on(s, ':');
    &&& (f.len() == 2 || f.len() == 4)
    &&& parse_port_spec(f[1]) is Some
    &&& decimal(parse_port_spec(f[1])->0 as nat) == f[1]
}

/// Formatting what a canonical text parses to gives that text back.
pub proof fn lemma_parse_format_round_trip(s: Seq<char>)
    requires
        is_canonical(s),
    ensures
        parse_spec(s) is Some,
        text_of(parse_spec(s)->0) == s,
{
    let f = split_on(s, ':');
    lemma_join_split(s, ':');
    let p = parse_spec(s)->0;
    if f.len() == 2 {
        assert(f.drop_last() =~= seq![f[0]]);
        assert(join_on(f.drop_last(), ':') == f[0]);
        assert(text_of(p) =~= join_on(f, ':'));
    } else {
        let f2 = f.drop_last().drop_last();
        assert(f2.drop_last() =~= seq![f[0]]);
        assert(join_on(f2.drop_last(), ':') == f[0]);
        assert(join_on(f2, ':') == f[0].push(':') + f[1]);
        assert(join_on(f.drop_last(), ':') == join_on(f2, ':').push(':') + f[2]);
        assert(text_of(p) =~= join_on(f, ':'));
    }
}

/// No field of the record holds the separator `:`.
pub open spec fn colon_free(p: ProxyView) -> bool {
    &&& !p.host.contains(':')
    &&& match p.auth {
        None => true,
        Some((u, w)) => !u.contains(':') && !w.contains(':'),
    }
}

proof fn lemma_decimal_colon_free(n: nat)
    ensures
        !decimal(n).contains(':'),
{
    lemma_decimal_digits(n);
    let d = decimal(n);
    if d.contains(':') {
        let k = choose|k: int| 0 <= k < d.len() && d[k] == ':';
        assert(is_digit(d[k]));
    }
}

/// Parsing the canonical text of a record whose fields hold no `:` gives back
/// its address and credentials.
pub proof fn lemma_format_parse_round_trip(p: ProxyView)
    requires
        colon_free(p),
    ensures
        parse_spec(text_of(p)) == Some(ProxyView { is_working: false, latency: 0, used: true, ..p }),
{
    let dp = decimal(p.port as nat);
    lemma_decimal_colon_free(p.port as nat);
    lemma_parse_decimal(p.port);
    let two = seq![p.host, dp];
    assert(two.drop_last() =~= seq![p.host]);
    assert(join_on(seq![p.host], ':') == p.host);
    assert(join_on(two, ':') == p.host.push(':') + dp);
    assert(join_on(two, ':') =~= p.host + seq![':'] + dp);
    match p.auth {
        None => {
            lemma_split_join(two, ':');
            assert(text_of(p) == join_on(two, ':'));
        },
        Some((u, w)) => {
            let four = seq![p.host, dp, u, w];
            assert(four.drop_last().drop_last() =~= two);
            assert(four.drop_last() =~= seq![p.host, dp, u]);
            let three = seq![p.host, dp, u];
            assert(three.drop_last() =~= two);
            assert(join_on(three, ':') == join_on(two, ':').push(':') + u);
            assert(join_on(four, ':') == join_on(three, ':').push(':') + w);
            assert(text_of(p) =~= join_on(four, ':'));
            lemma_split_join(four, ':');
        },
    }
}

impl Clone for ProxyAuth {
    fn clone(&self) -> (r: Self)
        ensures
            r == *self,
    {
        ProxyAuth { user: self.user.clone(), pass: self.pass.clone() }
    }
}

impl Clone for Proxy {
    fn clone(&self) -> (r: Self)
        ensures
            r == *self,
    {
        let auth = match &self.auth {
            Some(a) => Some(a.clone()),
            None => None,
        };
        Proxy {
            ip: self.ip.clone(),
            port: self.port,
            auth,
            is_working: self.is_working,
            latency: self.latency,
            used: self.used,
        }
    }
}

impl PartialEq for Proxy {
    fn eq(&self, other: &Proxy) -> (r: bool) {
        let same_auth = match (&self.auth, &other.auth) {
            (Some(a), Some(b)) => a.user == b.user && a.pass == b.pass,
            (None, None) => true,
            _ => false,
        };
        same_auth && self.ip == other.ip && self.port == other.port && self.is_working
            == other.is_working && self.latency == other.latency && self.used == other.used
    }
}

impl vstd::std_specs::cmp::PartialEqSpecImpl for Proxy {
    open spec fn obeys_eq_spec() -> bool {
        true
    }

    open spec fn eq_spec(&self, other: &Proxy) -> bool {
        self@ == other@
    }
}

impl Eq for Proxy {

}

impl Proxy {
    /// Reads a record from its text form.
    pub fn parse(s: &str) -> (r: Result<Proxy, ProxyError>)
        ensures
            match r {
                Ok(p) => parse_spec(s@) == Some(p@),
                Err(e) => parse_spec(s@) is None && e == ProxyError::InvalidFormat,
            },
    {
        let cs = chars_of(s);
        let f = split_chars(&cs, ':');
        proof {
            lemma_split_nonempty(s@, ':');
        }
        if f.len() < 2 {
            return Err(ProxyError::InvalidFormat);
        }
        let port = match parse_port(&f[1]) {
            Some(n) => n,
            None => {
                return Err(ProxyError::InvalidFormat);
            },
        };
        let auth = if f.len() == 2 {
            None
        } else {
            let pass = if f.len() >= 4 {
                string_of(&f[3])
            } else {
                String::new()
            };
            Some(ProxyAuth { user: string_of(&f[2]), pass })
        };
        let p = Proxy {
            ip: string_of(&f[0]),
            port,
            auth,
            is_working: false,
            latency: 0,
            used: true,
        };
        assert(p@ == parse_spec(s@)->0);
        Ok(p)
    }

    /// The canonical text of the record.
    pub fn to_string(&self) -> (r: String)
        ensures
            r@ == text_of(self@),
    {
        let mut out: Vec<char> = Vec::new();
        self.push_text(&mut out);
        assert(out@ =~= text_of(self@));
        string_of(&out)
    }

    /// Appends the canonical text of the record to `out`.
    pub fn push_text(&self, out: &mut Vec<char>)
        ensures
            final(out)@ == old(out)@ + text_of(self@),
    {
        push_chars(out, self.ip.as_str());
        out.push(':');
        push_decimal(out, self.port);
        match &self.auth {
            Some(a) => {
                out.push(':');
                push_chars(out, a.user.as_str());
                out.push(':');
                push_chars(out, a.pass.as_str());
            },
            None => {},
        }
        assert(out@ =~= old(out)@ + text_of(self@));
    }
}

impl std::str::FromStr for Proxy {
    type Err = ProxyError;

    fn from_str(s: &str) -> (r: Result<Proxy, ProxyError>)
        ensures
            match r {
                Ok(p) => parse_spec(s@) == Some(p@),
                Err(e) => parse_spec(s@) is None && e == ProxyError::InvalidFormat,
            },
    {
        Proxy::parse(s)
    }
}

} // verus!
