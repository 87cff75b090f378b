//! Which address a request comes from when it passes through a trusted proxy.
use vstd::prelude::*;

verus! {

/// Where the client address of a request is taken from.
#[derive(Debug, Clone, Copy, PartialEq, Eq)]
pub enum RealIpSource {
    /// The TCP peer address, as it is.
    Peer,
    /// The first address of the `X-Forwarded-For` header.
    ForwardedFor,
    /// The `X-Real-IP` header.
    RealIp,
}

/// Headers are honoured only from a trusted peer: `X-Forwarded-For` first,
/// then `X-Real-IP`; otherwise the peer address stands.
pub fn real_ip_source(trusted_peer: bool, has_forwarded_for: bool, has_real_ip: bool) -> (r:
    RealIpSource)
    ensures
        r == (if !trusted_peer {
            RealIpSource::Peer
        } else if has_forwarded_for {
            RealIpSource::ForwardedFor
        } else if has_real_ip {
            RealIpSource::RealIp
        } else {
            RealIpSource::Peer
        }),
{
    if !trusted_peer {
        RealIpSource::Peer
    } else if has_forwarded_for {
        RealIpSource::ForwardedFor
    } else if has_real_ip {
        RealIpSource::RealIp
    } else {
        RealIpSource::Peer
    }
}

/// The first item of a comma-separated header value, with all spaces removed.
pub open spec fn first_item(s: Seq<u8>) -> Seq<u8>
    decreases s.len(),
{
    if s.len() == 0 || s[0] == 0x2c {
        seq![]
    } else if s[0] == 0x20 {
        first_item(s.drop_first())
    } else {
        seq![s[0]] + first_item(s.drop_first())
    }
}

/// The first address of an `X-Forwarded-For` value: spaces removed, up to the first comma.
pub fn first_forwarded_for(value: &[u8]) -> (r: Vec<u8>)
    ensures
        r@ == first_item(value@),
{
    let mut out: Vec<u8> = Vec::new();
    let mut i: usize = 0;
    assert(value@.subrange(0, value@.len() as int) =~= value@);
    assert(out@ + first_item(value@) =~= first_item(value@));
    while i < value.len()
        invariant
            0 <= i <= value@.len(),
            out@ + first_item(value@.subrange(i as int, value@.len() as int)) == first_item(value@),
        decreases value@.len() - i,
    {
        let b = value[i];
        let ghost rest = value@.subrange(i as int, value@.len() as int);
        assert(rest.drop_first() =~= value@.subrange(i + 1, value@.len() as int));
        if b == 0x2c {
            assert(out@ + first_item(rest) =~= out@);
            return out;
        }
        if b != 0x20 {
            out.push(b);
            assert(out@ + first_item(rest.drop_first()) =~= out@.drop_last() + first_item(rest));
        }
        i = i + 1;
    }
    assert(out@ + first_item(value@.subrange(i as int, value@.len() as int)) =~= out@);
    out
}

} // verus!
