//! Address screening for the crawler: a host is only fetched when it resolves to a public
//! address, so that crawled links cannot reach private networks.
use vstd::prelude::*;

verus! {

/// An IP address: the four octets of an IPv4 address, or the eight 16-bit segments of an
/// IPv6 address.
#[derive(Debug, Clone, Copy, PartialEq, Eq)]
pub enum IpAddress {
    V4([u8; 4]),
    V6([u16; 8]),
}

/// IPv4 private ranges: 10.0.0.0/8, 172.16.0.0/12 and 192.168.0.0/16.
pub open spec fn v4_private(o: Seq<u8>) -> bool {
    o[0] == 10 || (o[0] == 172 && 16 <= o[1] <= 31) || (o[0] == 192 && o[1] == 168)
}

/// IPv4 loopback: 127.0.0.0/8.
pub open spec fn v4_loopback(o: Seq<u8>) -> bool {
    o[0] == 127
}

/// IPv4 link-local: 169.254.0.0/16.
pub open spec fn v4_link_local(o: Seq<u8>) -> bool {
    o[0] == 169 && o[1] == 254
}

/// IPv6 loopback `::1`.
pub open spec fn v6_loopback(s: Seq<u16>) -> bool {
    (forall|i: int| 0 <= i < 7 ==> s[i] == 0) && s[7] == 1
}

/// IPv6 unspecified `::`.
pub open spec fn v6_unspecified(s: Seq<u16>) -> bool {
    forall|i: int| 0 <= i < 8 ==> s[i] == 0
}

/// IPv6 unicast link-local, fe80::/10: the first ten bits are those of 0xfe80.
pub open spec fn v6_link_local(s: Seq<u16>) -> bool {
    0xfe80 <= s[0] <= 0xfebf
}

/// IPv6 unique local, fc00::/7: the first seven bits are those of 0xfc00.
pub open spec fn v6_unique_local(s: Seq<u16>) -> bool {
    0xfc00 <= s[0] <= 0xfdff
}

/// The address is private, loopback, link-local (or, for IPv6, unique local or
/// unspecified): not to be crawled.
pub open spec fn private_address(ip: IpAddress) -> bool {
    match ip {
        IpAddress::V4(o) => v4_private(o@) || v4_loopback(o@) || v4_link_local(o@),
        IpAddress::V6(s) => v6_loopback(s@) || v6_link_local(s@) || v6_unique_local(s@) || v6_unspecified(
            s@,
        ),
    }
}

/// Whether the address lies in a private, loopback or link-local range.
pub fn is_private(ip: IpAddress) -> (r: bool)
    ensures
        r == private_address(ip),
{
    match ip {
        IpAddress::V4(o) => {
            let a = o[0];
            let b = o[1];
            a == 10 || (a == 172 && 16 <= b && b <= 31) || (a == 192 && b == 168) || a == 127 || (a
                == 169 && b == 254)
        },
        IpAddress::V6(s) => {
            let mut zeros: usize = 0;
            while zeros < 7 && s[zeros] == 0
                invariant
                    zeros <= 7,
                    forall|i: int| 0 <= i < zeros ==> s@[i] == 0,
                decreases 7 - zeros,
            {
                zeros = zeros + 1;
            }
            let leading_zero = zeros == 7;
            proof {
                if !leading_zero {
                    assert(s@[zeros as int] != 0);
                }
            }
            (leading_zero && (s[7] == 1 || s[7] == 0)) || (0xfe80 <= s[0] && s[0] <= 0xfebf) || (
            0xfc00 <= s[0] && s[0] <= 0xfdff)
        },
    }
}

/// Why resolution gave no usable address.
#[derive(Debug, Clone, Copy, PartialEq, Eq, Structural)]
pub enum ResolveError {
    /// The name resolved, but only to private addresses.
    AllPrivate,
    /// The name resolved to no address at all.
    NoAddress,
}

/// The first public address among those resolved.
pub open spec fn first_public(addrs: Seq<IpAddress>) -> Option<IpAddress>
    decreases addrs.len(),
{
    if addrs.len() == 0 {
        None
    } else if !private_address(addrs[0]) {
        Some(addrs[0])
    } else {
        first_public(addrs.drop_first())
    }
}

/// Pick the address to connect to among those a name resolved to: the first public one;
/// an error when there is none.
pub fn pick_public_address(addrs: &[IpAddress]) -> (r: Result<IpAddress, ResolveError>)
    ensures
        match first_public(addrs@) {
            Some(ip) => r == Ok::<IpAddress, ResolveError>(ip),
            None => r == Err::<IpAddress, ResolveError>(
                if addrs@.len() == 0 {
                    ResolveError::NoAddress
                } else {
                    ResolveError::AllPrivate
                },
            ),
        },
{
    let mut i: usize = 0;
    assert(addrs@.skip(0) =~= addrs@);
    while i < addrs.len()
        invariant
            i <= addrs@.len(),
            first_public(addrs@) == first_public(addrs@.skip(i as int)),
        decreases addrs.len() - i,
    {
        assert(addrs@.skip(i as int).drop_first() =~= addrs@.skip(i + 1));
        if !is_private(addrs[i]) {
            return Ok(addrs[i]);
        }
        i = i + 1;
    }
    if addrs.len() == 0 {
        Err(ResolveError::NoAddress)
    } else {
        Err(ResolveError::AllPrivate)
    }
}

/// Lookups made for one host before giving up.
pub const DNS_ATTEMPTS: u32 = 3;

/// The pause before the next lookup after attempt `attempt` (counted from 1) failed:
/// 250 ms, doubled after each further failure; none after the last attempt.
pub fn dns_retry_delay_ms(attempt: u32) -> (r: Option<u64>)
    ensures
        r == (if 1 <= attempt < DNS_ATTEMPTS {
            Some(if attempt == 1 { 250u64 } else { 500u64 })
        } else {
            None
        }),
{
    if attempt == 1 {
        Some(250)
    } else if attempt == 2 {
        Some(500)
    } else {
        None
    }
}


/// The address picked is one of the resolved addresses and is public; when none is
/// picked, every resolved address is private.
pub proof fn law_picked_address_is_public(addrs: Seq<IpAddress>)
    ensures
        first_public(addrs) matches Some(ip) ==> !private_address(ip) && addrs.contains(ip),
        first_public(addrs) is None ==> forall|k: int| 0 <= k < addrs.len() ==> private_address(
            #[trigger] addrs[k],
        ),
    decreases addrs.len(),
{
    if addrs.len() > 0 {
        law_picked_address_is_public(addrs.drop_first());
        if private_address(addrs[0]) {
            if let Some(ip) = first_public(addrs) {
                let t = addrs.drop_first();
                let k = choose|k: int| 0 <= k < t.len() && t[k] == ip;
                assert(addrs[k + 1] == ip);
            } else {
                assert forall|k: int| 0 <= k < addrs.len() implies private_address(#[trigger] addrs[k]) by {
                    if k > 0 {
                        assert(addrs[k] == addrs.drop_first()[k - 1]);
                    }
                }
            }
        } else {
            assert(addrs[0] == first_public(addrs).unwrap());
        }
    }
}

} // verus!
