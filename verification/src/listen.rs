//! Which address the agent-report listener binds: only a loopback address is
//! accepted for the unauthenticated endpoint. Parsing the address text and
//! resolving host names belong to the caller.

use vstd::prelude::*;

verus! {

/// A socket address as plain values.
#[derive(Debug, Clone, Copy, PartialEq, Eq)]
pub enum ListenAddr {
    /// An IPv4 address and port.
    V4 { octets: [u8; 4], port: u16 },
    /// An IPv6 address (its eight 16-bit segments) and port.
    V6 { segments: [u16; 8], port: u16 },
}

/// A loopback address: `127.0.0.0/8` for IPv4, `::1` for IPv6.
pub open spec fn is_loopback(a: ListenAddr) -> bool {
    match a {
        ListenAddr::V4 { octets, .. } => octets@[0] == 127,
        ListenAddr::V6 { segments, .. } => segments@ == seq![0u16, 0, 0, 0, 0, 0, 0, 1],
    }
}

/// The first IPv4 address of `s`, if any.
pub open spec fn first_v4(s: Seq<ListenAddr>) -> Option<ListenAddr>
    decreases s.len(),
{
    if s.len() == 0 {
        None
    } else if s[0] is V4 {
        Some(s[0])
    } else {
        first_v4(s.drop_first())
    }
}

/// The address to bind: a literal address when it is loopback; else, of the
/// addresses a host name resolved to, the first IPv4 one when it is loopback;
/// nothing otherwise (a name that resolves to IPv6 addresses alone included).
pub open spec fn chosen_listen_addr(literal: Option<ListenAddr>, resolved: Option<Seq<ListenAddr>>) -> Option<ListenAddr> {
    match literal {
        Some(a) => if is_loopback(a) {
            Some(a)
        } else {
            None
        },
        None => match resolved {
            Some(s) => match first_v4(s) {
                Some(a) => if is_loopback(a) {
                    Some(a)
                } else {
                    None
                },
                None => None,
            },
            None => None,
        },
    }
}

/// Whether `a` is a loopback address.
pub fn addr_is_loopback(a: &ListenAddr) -> (r: bool)
    ensures
        r == is_loopback(*a),
{
    match a {
        ListenAddr::V4 { octets, .. } => octets[0] == 127,
        ListenAddr::V6 { segments, .. } => {
            let r = segments[0] == 0 && segments[1] == 0 && segments[2] == 0 && segments[3] == 0
                && segments[4] == 0 && segments[5] == 0 && segments[6] == 0 && segments[7] == 1;
            assert(r == (segments@ =~= seq![0u16, 0, 0, 0, 0, 0, 0, 1]));
            r
        },
    }
}

/// The first IPv4 address among `addrs`, if any.
pub fn first_ipv4(addrs: &Vec<ListenAddr>) -> (r: Option<ListenAddr>)
    ensures
        r == first_v4(addrs@),
{
    let mut i: usize = 0;
    assert(addrs@.skip(0) =~= addrs@);
    while i < addrs.len()
        invariant
            i <= addrs@.len(),
            first_v4(addrs@) == first_v4(addrs@.skip(i as int)),
        decreases addrs.len() - i,
    {
        assert(addrs@.skip(i as int).drop_first() =~= addrs@.skip(i + 1));
        assert(addrs@.skip(i as int)[0] == addrs@[i as int]);
        if let ListenAddr::V4 { .. } = addrs[i] {
            return Some(addrs[i]);
        }
        i = i + 1;
    }
    assert(addrs@.skip(i as int) =~= Seq::<ListenAddr>::empty());
    None
}

/// Chooses the address to bind from the parse of the configured text (a
/// literal address, if it is one) and, otherwise, what the host name resolved
/// to (`None` when resolution failed).
pub fn choose_listen_addr(literal: Option<ListenAddr>, resolved: Option<Vec<ListenAddr>>) -> (r: Option<ListenAddr>)
    ensures
        r == chosen_listen_addr(
            literal,
            match resolved {
                Some(v) => Some(v@),
                None => None,
            },
        ),
{
    match literal {
        Some(a) => if addr_is_loopback(&a) {
            Some(a)
        } else {
            None
        },
        None => match resolved {
            Some(v) => match first_ipv4(&v) {
                Some(a) => if addr_is_loopback(&a) {
                    Some(a)
                } else {
                    None
                },
                None => None,
            },
            None => None,
        },
    }
}

} // verus!
