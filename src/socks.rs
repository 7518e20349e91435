//! The SOCKS5 frames that the gateway sends, and the decision taken on each
//! reply it reads. The sockets themselves are driven by the caller: it sends
//! what these functions build and hands back what it read.
use vstd::prelude::*;
use vstd::utf8::encode_utf8;
use crate::errors::SocksError;
use crate::proxy_model::{Proxy, ProxyView};

verus! {

pub const SOCKS_VERSION: u8 = 0x05;

pub const AUTHENTICATION_VERSION: u8 = 0x01;

pub const METHOD_NO_AUTH: u8 = 0x00;

pub const METHOD_USER_PASS: u8 = 0x02;

pub const NO_ACCEPTABLE_METHODS: u8 = 0xFF;

pub const CMD_CONNECT: u8 = 0x01;

pub const ATYP_DOMAIN: u8 = 0x03;

/// Port of the liveness target.
pub const PROBE_PORT: u16 = 80;

/// Host of the liveness target.
pub open spec fn probe_host() -> Seq<char> {
    "httpbin.org"@
}

/// The greeting sent to an upstream: version 5, one method, username/password.
pub open spec fn greeting_frame() -> Seq<u8> {
    seq![SOCKS_VERSION, 1u8, METHOD_USER_PASS]
}

/// The username/password subnegotiation frame (RFC 1929).
pub open spec fn auth_frame(u: Seq<u8>, p: Seq<u8>) -> Seq<u8> {
    seq![AUTHENTICATION_VERSION, u.len() as u8] + u + seq![p.len() as u8] + p
}

/// What follows the upstream's method choice `[version, method]`: the
/// subnegotiation frame to send, or the reason to give up.
pub open spec fn method_choice_outcome(p: ProxyView, version: u8, method: u8) -> Result<
    Seq<u8>,
    SocksError,
> {
    if version != SOCKS_VERSION {
        Err(SocksError::UpstreamVersion(version))
    } else if method != METHOD_USER_PASS {
        Err(SocksError::UpstreamAuthMethod(method))
    } else {
        match p.auth {
            None => Err(SocksError::UpstreamAuthRequired),
            Some((u, w)) => {
                let ub = encode_utf8(u);
                let wb = encode_utf8(w);
                if ub.len() > 255 || wb.len() > 255 {
                    Err(SocksError::CredentialTooLong)
                } else {
                    Ok(auth_frame(ub, wb))
                }
            },
        }
    }
}

/// What follows the upstream's subnegotiation reply `[version, status]`.
pub open spec fn auth_reply_outcome(version: u8, status: u8) -> Result<(), SocksError> {
    if version != AUTHENTICATION_VERSION {
        Err(SocksError::AuthVersion(version))
    } else if status != 0 {
        Err(SocksError::AuthFailed(status))
    } else {
        Ok(())
    }
}

/// The reply to a client that offered `methods`.
pub open spec fn client_reply(methods: Seq<u8>) -> Seq<u8> {
    if methods.contains(METHOD_NO_AUTH) {
        seq![SOCKS_VERSION, METHOD_NO_AUTH]
    } else {
        seq![SOCKS_VERSION, NO_ACCEPTABLE_METHODS]
    }
}

/// A CONNECT request by domain name: `[5, 1, 0, 3, len, host..., port_hi, port_lo]`.
pub open spec fn connect_frame(host: Seq<u8>, port: u16) -> Seq<u8> {
    seq![SOCKS_VERSION, CMD_CONNECT, 0u8, ATYP_DOMAIN, host.len() as u8] + host + seq![
        (port / 256) as u8,
        (port % 256) as u8,
    ]
}

fn push_bytes(out: &mut Vec<u8>, b: &[u8])
    ensures
        final(out)@ == old(out)@ + b@,
{
    let mut i: usize = 0;
    while i < b.len()
        invariant
            0 <= i <= b@.len(),
            out@ == old(out)@ + b@.take(i as int),
        decreases b@.len() - i,
    {
        assert(b@.take(i + 1) =~= b@.take(i as int).push(b@[i as int]));
        out.push(b[i]);
        i = i + 1;
    }
    assert(b@.take(i as int) =~= b@);
}

/// The first frame sent to an upstream.
pub fn upstream_greeting() -> (r: Vec<u8>)
    ensures
        r@ == greeting_frame(),
{
    let r = vec![SOCKS_VERSION, 0x01, METHOD_USER_PASS];
    assert(r@ =~= greeting_frame());
    r
}

/// Decides on the upstream's method choice `[version, method]`; on success,
/// gives the subnegotiation frame that carries the proxy's credentials.
pub fn on_method_choice(proxy: &Proxy, version: u8, method: u8) -> (r: Result<Vec<u8>, SocksError>)
    ensures
        method_choice_outcome(proxy@, version, method) == match r {
            Ok(v) => Ok(v@),
            Err(e) => Err::<Seq<u8>, SocksError>(e),
        },
{
    if version != SOCKS_VERSION {
        return Err(SocksError::UpstreamVersion(version));
    }
    if method != METHOD_USER_PASS {
        return Err(SocksError::UpstreamAuthMethod(method));
    }
    match &proxy.auth {
        None => Err(SocksError::UpstreamAuthRequired),
        Some(a) => {
            let u = a.user.as_str().as_bytes();
            let w = a.pass.as_str().as_bytes();
            if u.len() > 255 || w.len() > 255 {
                return Err(SocksError::CredentialTooLong);
            }
            let mut frame: Vec<u8> = Vec::new();
            frame.push(AUTHENTICATION_VERSION);
            frame.push(u.len() as u8);
            push_bytes(&mut frame, u);
            frame.push(w.len() as u8);
            push_bytes(&mut frame, w);
            assert(frame@ =~= auth_frame(u@, w@));
            Ok(frame)
        },
    }
}

/// Decides on the upstream's subnegotiation reply `[version, status]`.
pub fn on_auth_reply(version: u8, status: u8) -> (r: Result<(), SocksError>)
    ensures
        r == auth_reply_outcome(version, status),
{
    if version != AUTHENTICATION_VERSION {
        Err(SocksError::AuthVersion(version))
    } else if status != 0 {
        Err(SocksError::AuthFailed(status))
    } else {
        Ok(())
    }
}

/// Answers a client's greeting that offered `methods`: the reply to send, and
/// whether the session goes on. Only "no authentication" is accepted.
pub fn method_reply(methods: &[u8]) -> (r: (Vec<u8>, Result<(), SocksError>))
    ensures
        r.0@ == client_reply(methods@),
        r.1 == if methods@.contains(METHOD_NO_AUTH) {
            Ok::<(), SocksError>(())
        } else {
            Err(SocksError::MethodNotSupported)
        },
{
    let mut i: usize = 0;
    let mut found = false;
    while i < methods.len()
        invariant
            0 <= i <= methods@.len(),
            found == methods@.take(i as int).contains(METHOD_NO_AUTH),
        decreases methods@.len() - i,
    {
        let ghost t = methods@.take(i as int);
        assert(methods@.take(i + 1) =~= t.push(methods@[i as int]));
        assert(t.push(methods@[i as int]).contains(METHOD_NO_AUTH) <==> (t.contains(
            METHOD_NO_AUTH,
        ) || methods@[i as int] == METHOD_NO_AUTH)) by {
            let s = t.push(methods@[i as int]);
            if t.contains(METHOD_NO_AUTH) {
                let k = choose|k: int| 0 <= k < t.len() && t[k] == METHOD_NO_AUTH;
                assert(s[k] == METHOD_NO_AUTH);
            }
            if s.contains(METHOD_NO_AUTH) && methods@[i as int] != METHOD_NO_AUTH {
                let k = choose|k: int| 0 <= k < s.len() && s[k] == METHOD_NO_AUTH;
                assert(t[k] == METHOD_NO_AUTH);
            }
            if methods@[i as int] == METHOD_NO_AUTH {
                assert(s[t.len() as int] == METHOD_NO_AUTH);
            }
        }
        if methods[i] == METHOD_NO_AUTH {
            found = true;
        }
        i = i + 1;
    }
    assert(methods@.take(i as int) =~= methods@);
    if found {
        let reply = vec![SOCKS_VERSION, METHOD_NO_AUTH];
        assert(reply@ =~= client_reply(methods@));
        (reply, Ok(()))
    } else {
        let reply = vec![SOCKS_VERSION, NO_ACCEPTABLE_METHODS];
        assert(reply@ =~= client_reply(methods@));
        (reply, Err(SocksError::MethodNotSupported))
    }
}

/// A CONNECT request for `host:port` by domain name.
pub fn connect_request(host: &str, port: u16) -> (r: Vec<u8>)
    requires
        encode_utf8(host@).len() <= 255,
    ensures
        r@ == connect_frame(encode_utf8(host@), port),
{
    let h = host.as_bytes();
    let mut frame: Vec<u8> = vec![SOCKS_VERSION, CMD_CONNECT, 0x00, ATYP_DOMAIN, h.len() as u8];
    push_bytes(&mut frame, h);
    frame.push((port / 256) as u8);
    frame.push((port % 256) as u8);
    assert(frame@ =~= connect_frame(encode_utf8(host@), port));
    frame
}

/// The CONNECT request of the liveness probe, to `httpbin.org:80`.
pub fn probe_request() -> (r: Vec<u8>)
    ensures
        r@ == connect_frame(encode_utf8(probe_host()), PROBE_PORT),
{
    let host = "httpbin.org";
    proof {
        reveal_strlit("httpbin.org");
        assert(vstd::utf8::is_ascii_chars(host@));
        vstd::utf8::is_ascii_chars_encode_utf8(host@);
    }
    connect_request(host, PROBE_PORT)
}

} // verus!
