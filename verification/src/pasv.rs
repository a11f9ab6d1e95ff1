//! Choosing the IPv4 address a PASV reply advertises. The sockets that
//! yield the candidate addresses live outside the library; the selection
//! over those candidates is decided here.

use vstd::prelude::*;

verus! {

/// An IPv4 address as four octets.
#[derive(Clone, Copy, Debug, PartialEq, Eq, Structural)]
pub struct V4Addr {
    /// First octet.
    pub a: u8,
    /// Second octet.
    pub b: u8,
    /// Third octet.
    pub c: u8,
    /// Fourth octet.
    pub d: u8,
}

/// The all-zero wildcard address.
pub open spec fn is_unspecified(x: V4Addr) -> bool {
    x.a == 0 && x.b == 0 && x.c == 0 && x.d == 0
}

/// The loopback block `127.0.0.0/8`.
pub open spec fn is_loopback(x: V4Addr) -> bool {
    x.a == 127
}

/// The private ranges `10.0.0.0/8`, `172.16.0.0/12` and `192.168.0.0/16`.
pub open spec fn is_private(x: V4Addr) -> bool {
    x.a == 10 || (x.a == 172 && 16 <= x.b <= 31) || (x.a == 192 && x.b == 168)
}

/// An address worth advertising: concrete and not loopback.
pub open spec fn is_advertisable(x: V4Addr) -> bool {
    !is_unspecified(x) && !is_loopback(x)
}

/// Executable test matching `is_advertisable`.
pub fn advertisable(x: &V4Addr) -> (r: bool)
    ensures
        r == is_advertisable(*x),
{
    !(x.a == 0 && x.b == 0 && x.c == 0 && x.d == 0) && x.a != 127
}

/// The first private, non-loopback address among the interface
/// candidates, or loopback when none qualifies.
pub open spec fn pick_lan_spec(cands: Seq<V4Addr>) -> V4Addr
    decreases cands.len(),
{
    if cands.len() == 0 {
        V4Addr { a: 127, b: 0, c: 0, d: 1 }
    } else if is_private(cands[0]) && !is_loopback(cands[0]) {
        cands[0]
    } else {
        pick_lan_spec(cands.drop_first())
    }
}

/// Walk the interface addresses in order and take the first private,
/// non-loopback one; fall back to loopback.
pub fn pick_lan_ip(cands: &Vec<V4Addr>) -> (r: V4Addr)
    ensures
        r == pick_lan_spec(cands@),
{
    let mut i: usize = 0;
    proof {
        assert(cands@.skip(0) =~= cands@);
    }
    while i < cands.len()
        invariant
            i <= cands@.len(),
            pick_lan_spec(cands@) == pick_lan_spec(cands@.skip(i as int)),
        decreases cands.len() - i,
    {
        proof {
            assert(cands@.skip(i as int)[0] == cands@[i as int]);
            assert(cands@.skip(i as int).drop_first() =~= cands@.skip(i + 1));
        }
        let x = cands[i];
        let private = x.a == 10 || (x.a == 172 && 16 <= x.b && x.b <= 31) || (x.a == 192 && x.b
            == 168);
        if private && x.a != 127 {
            return x;
        }
        i += 1;
    }
    V4Addr { a: 127, b: 0, c: 0, d: 1 }
}

/// The address a PASV reply advertises, from the candidates in the order
/// the negotiator consults them: the control connection's own concrete
/// local address first, then what a probe toward the peer reported, then
/// the first private interface address, then loopback.
pub open spec fn select_pasv_spec(
    local: Option<V4Addr>,
    probed: Option<V4Addr>,
    cands: Seq<V4Addr>,
) -> V4Addr {
    if local is Some && is_advertisable(local.unwrap()) {
        local.unwrap()
    } else if probed is Some && is_advertisable(probed.unwrap()) {
        probed.unwrap()
    } else {
        pick_lan_spec(cands)
    }
}

/// Decide the advertised PASV address as `select_pasv_spec` describes.
pub fn select_pasv_ip(local: Option<V4Addr>, probed: Option<V4Addr>, cands: &Vec<V4Addr>) -> (r:
    V4Addr)
    ensures
        r == select_pasv_spec(local, probed, cands@),
{
    match local {
        Some(l) => {
            if advertisable(&l) {
                return l;
            }
        },
        None => {},
    }
    match probed {
        Some(p) => {
            if advertisable(&p) {
                return p;
            }
        },
        None => {},
    }
    pick_lan_ip(cands)
}

} // verus!
