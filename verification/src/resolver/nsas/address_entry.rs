//! An address of a name server and its measured round-trip time.
use crate::clock::{now_nanos, NANOS_PER_SEC};
use vstd::prelude::*;

verus! {

/// How long, in seconds, an address stays marked unreachable.
pub const UNREACHABLE_CACHE_TIME: u64 = 5;

/// The round-trip time that marks an address unreachable.
pub const UNREACHABLE_RTT: u32 = 0xffff_ffff;

/// An IP address: four bytes of version 4, or sixteen of version 6, as one
/// big-endian integer.
#[derive(Clone, Copy, Debug, PartialEq, Eq, Structural)]
pub enum IpAddress {
    V4(u32),
    V6(u128),
}

/// An address of a name server, its last round-trip time, and, once it was
/// found unreachable, until when it is held to be so.
#[derive(Clone, Copy, Debug)]
pub struct AddressEntry {
    address: IpAddress,
    rtt: u32,
    dead_until: Option<u64>,
}

/// The abstract value of an address entry.
pub struct AddressV {
    pub address: IpAddress,
    pub rtt: u32,
    pub dead_until: Option<u64>,
}

impl View for AddressEntry {
    type V = AddressV;

    closed spec fn view(&self) -> AddressV {
        AddressV { address: self.address, rtt: self.rtt, dead_until: self.dead_until }
    }
}

/// The round-trip time an entry reports: that of an address once found
/// unreachable is `UNREACHABLE_RTT`.
pub open spec fn reported_rtt(a: AddressV) -> u32 {
    if a.dead_until is Some {
        UNREACHABLE_RTT
    } else {
        a.rtt
    }
}

/// The entry after recording round-trip time `rtt` at `now`: the
/// unreachable time marks it dead for `UNREACHABLE_CACHE_TIME` seconds.
pub open spec fn with_rtt(a: AddressV, rtt: u32, now: u64) -> AddressV {
    AddressV {
        rtt,
        dead_until: if rtt == UNREACHABLE_RTT {
            Some(
                if now + UNREACHABLE_CACHE_TIME * NANOS_PER_SEC > u64::MAX {
                    u64::MAX
                } else {
                    (now + UNREACHABLE_CACHE_TIME * NANOS_PER_SEC) as u64
                },
            )
        } else {
            a.dead_until
        },
        ..a
    }
}

impl AddressEntry {
    /// An entry of `address` with round-trip time `rtt`, not marked dead.
    pub fn new(address: IpAddress, rtt: u32) -> (r: AddressEntry)
        ensures
            r@ == (AddressV { address, rtt, dead_until: None }),
    {
        AddressEntry { address, rtt, dead_until: None }
    }

    /// The address.
    pub fn get_addr(&self) -> (r: IpAddress)
        ensures
            r == self@.address,
    {
        self.address
    }

    /// The version 4 address.
    pub fn get_v4_addr(&self) -> (r: u32)
        requires
            self@.address is V4,
        ensures
            self@.address == IpAddress::V4(r),
    {
        match self.address {
            IpAddress::V4(a) => a,
            IpAddress::V6(_) => {
                proof {
                    assert(false);
                }
                0
            },
        }
    }

    /// The round-trip time, as `reported_rtt` says.
    pub fn get_rtt(&self) -> (r: u32)
        ensures
            r == reported_rtt(self@),
    {
        if self.dead_until.is_some() {
            UNREACHABLE_RTT
        } else {
            self.rtt
        }
    }

    /// The raw round-trip time by which entries are ordered.
    pub fn rtt(&self) -> (r: u32)
        ensures
            r == self@.rtt,
    {
        self.rtt
    }

    /// Records round-trip time `rtt` at `now`, as `with_rtt` says.
    pub fn set_rtt_at(&mut self, rtt: u32, now: u64)
        ensures
            final(self)@ == with_rtt(old(self)@, rtt, now),
    {
        if rtt == UNREACHABLE_RTT {
            self.dead_until = Some(now.saturating_add(UNREACHABLE_CACHE_TIME * NANOS_PER_SEC));
        }
        self.rtt = rtt;
    }

    /// Records round-trip time `rtt` now.
    pub fn set_rtt(&mut self, rtt: u32)
        ensures
            exists|now: u64| final(self)@ == #[trigger] with_rtt(old(self)@, rtt, now),
    {
        let now = now_nanos();
        self.set_rtt_at(rtt, now);
    }

    /// Whether the last round-trip time is not the unreachable one.
    pub fn is_reachable(&self) -> (r: bool)
        ensures
            r == (self@.rtt != UNREACHABLE_RTT),
    {
        self.rtt != UNREACHABLE_RTT
    }

    /// Marks the address unreachable at `now`.
    pub fn set_unreachable_at(&mut self, now: u64)
        ensures
            final(self)@ == with_rtt(old(self)@, UNREACHABLE_RTT, now),
    {
        self.set_rtt_at(UNREACHABLE_RTT, now);
    }

    /// Marks the address unreachable now.
    pub fn set_unreachable(&mut self)
        ensures
            exists|now: u64| final(self)@ == #[trigger] with_rtt(old(self)@, UNREACHABLE_RTT, now),
    {
        self.set_rtt(UNREACHABLE_RTT);
    }

    /// Whether the address is of version 4.
    pub fn is_v4(&self) -> (r: bool)
        ensures
            r == self@.address is V4,
    {
        match self.address {
            IpAddress::V4(_) => true,
            IpAddress::V6(_) => false,
        }
    }

    /// Whether the address is of version 6.
    pub fn is_v6(&self) -> (r: bool)
        ensures
            r == self@.address is V6,
    {
        match self.address {
            IpAddress::V4(_) => false,
            IpAddress::V6(_) => true,
        }
    }
}

/// The views of address entries.
pub open spec fn addresses_view(v: Seq<AddressEntry>) -> Seq<AddressV> {
    v.map_values(|a: AddressEntry| a@)
}

/// Whether the version 4 entry at `i` of `s` has the least round-trip time
/// of the version 4 entries, and no earlier version 4 entry has as little.
pub open spec fn is_selected(s: Seq<AddressV>, i: int) -> bool {
    &&& 0 <= i < s.len()
    &&& s[i].address is V4
    &&& forall|j: int| 0 <= j < s.len() && (#[trigger] s[j]).address is V4 ==> s[i].rtt <= s[j].rtt
    &&& forall|j: int| 0 <= j < i && (#[trigger] s[j]).address is V4 ==> s[i].rtt < s[j].rtt
}

/// Whether some entry of `s` is of version 4.
pub open spec fn has_v4(s: Seq<AddressV>) -> bool {
    exists|j: int| 0 <= j < s.len() && (#[trigger] s[j]).address is V4
}

/// The version 4 entry with the least round-trip time, the first of them
/// where several tie; `None` where there is no version 4 entry.
pub fn select_address(addresses: &Vec<AddressEntry>) -> (r: Option<AddressEntry>)
    ensures
        r is None <==> !has_v4(addresses_view(addresses@)),
        r matches Some(a) ==> exists|i: int| is_selected(addresses_view(addresses@), i) && a@ == addresses_view(addresses@)[i],
{
    let ghost s = addresses_view(addresses@);
    let mut best: Option<usize> = None;
    let mut i: usize = 0;
    while i < addresses.len()
        invariant
            i <= addresses.len(),
            s == addresses_view(addresses@),
            s.len() == addresses.len(),
            best is None ==> forall|j: int| 0 <= j < i ==> !((#[trigger] s[j]).address is V4),
            best matches Some(b) ==> b < i && s[b as int].address is V4
                && (forall|j: int| 0 <= j < i && (#[trigger] s[j]).address is V4 ==> s[b as int].rtt <= s[j].rtt)
                && (forall|j: int| 0 <= j < b && (#[trigger] s[j]).address is V4 ==> s[b as int].rtt < s[j].rtt),
        decreases addresses.len() - i,
    {
        let a = &addresses[i];
        proof {
            assert(s[i as int] == a@);
        }
        if a.is_v4() {
            match best {
                None => {
                    best = Some(i);
                },
                Some(b) => {
                    if a.rtt() < addresses[b].rtt() {
                        best = Some(i);
                    }
                },
            }
        }
        i = i + 1;
    }
    match best {
        None => {
            proof {
                if has_v4(s) {
                    let j = choose|j: int| 0 <= j < s.len() && (#[trigger] s[j]).address is V4;
                    assert(!(s[j].address is V4));
                }
            }
            None
        },
        Some(b) => {
            proof {
                assert(is_selected(s, b as int));
                assert(has_v4(s));
            }
            Some(addresses[b])
        },
    }
}

} // verus!
