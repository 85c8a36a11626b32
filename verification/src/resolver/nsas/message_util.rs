//! What the answers to name server and address queries teach the store.
use crate::message::{Message, MessageV};
use crate::name::Name;
use crate::resolver::message_classifier::{classify_response, classify_spec, CategoryV, ResponseCategory};
use crate::resolver::nsas::address_entry::{addresses_view, AddressEntry, AddressV, IpAddress};
use crate::resolver::nsas::error::NSASError;
use crate::resolver::nsas::nameserver_entry::{NameserverEntry, NameserverEntryV};
use crate::resolver::nsas::zone_cache::{lemma_swap_remove, names_view, swap_remove};
use crate::rr::{rrsets_view, RData, RDataV, RRType, RRset, RRsetV};
use crate::seqs::{first_index, lemma_first_index, lemma_first_index_is};
use vstd::prelude::*;

verus! {

/// Whether every record of `r` is an address of version 4 or 6.
pub open spec fn addresses_only(r: RRsetV) -> bool {
    forall|i: int| 0 <= i < r.rdatas.len() ==> (#[trigger] r.rdatas[i] is A || r.rdatas[i] is AAAA)
}

/// The address entry of an address record, with round-trip time 0.
pub open spec fn address_of(rd: RDataV) -> AddressV {
    match rd {
        RDataV::A(a) => AddressV { address: IpAddress::V4(a), rtt: 0, dead_until: None },
        RDataV::AAAA(a) => AddressV { address: IpAddress::V6(a), rtt: 0, dead_until: None },
        _ => arbitrary(),
    }
}

/// The address entries of the records of `r`.
pub open spec fn address_list(r: RRsetV) -> Seq<AddressV> {
    r.rdatas.map_values(|rd: RDataV| address_of(rd))
}

/// The address entries of an address set, in the order of its records.
pub fn rrset_to_address_entry(rrset: &RRset) -> (r: Vec<AddressEntry>)
    requires
        addresses_only(rrset@),
    ensures
        addresses_view(r@) == address_list(rrset@),
{
    let mut r: Vec<AddressEntry> = Vec::new();
    let mut i: usize = 0;
    while i < rrset.rdatas.len()
        invariant
            i <= rrset.rdatas.len(),
            addresses_only(rrset@),
            r@.len() == i,
            addresses_view(r@) == address_list(rrset@).subrange(0, i as int),
        decreases rrset.rdatas.len() - i,
    {
        proof {
            assert(rrset@.rdatas[i as int] == rrset.rdatas@[i as int]@);
        }
        let e = match &rrset.rdatas[i] {
            RData::A(a) => AddressEntry::new(IpAddress::V4(*a), 0),
            RData::AAAA(a) => AddressEntry::new(IpAddress::V6(*a), 0),
            _ => {
                proof {
                    assert(false);
                }
                AddressEntry::new(IpAddress::V4(0), 0)
            },
        };
        let ghost before = r@;
        r.push(e);
        proof {
            assert(r@ == before.push(e));
            assert(addresses_view(r@) =~= address_list(rrset@).subrange(0, i + 1));
        }
        i = i + 1;
    }
    proof {
        assert(address_list(rrset@).subrange(0, rrset.rdatas.len() as int) =~= address_list(rrset@));
    }
    r
}

/// The addresses an answer to the address query of `nameserver` gives: those
/// of its first answer set, where it answers the query; an error otherwise.
pub fn message_to_address_entry(nameserver: &Name, msg: Message) -> (r: Result<Vec<AddressEntry>, NSASError>)
    requires
        classify_spec(nameserver@, RRType::A, msg@) is Some,
        classify_spec(nameserver@, RRType::A, msg@) == Some(CategoryV::Answer) ==> addresses_only(msg@.answer[0]),
    ensures
        classify_spec(nameserver@, RRType::A, msg@) != Some(CategoryV::Answer) ==> r is Err,
        classify_spec(nameserver@, RRType::A, msg@) == Some(CategoryV::Answer) ==> r is Ok && addresses_view(r->Ok_0@)
            == address_list(msg@.answer[0]),
{
    let category = classify_response(nameserver, RRType::A, &msg);
    match category {
        ResponseCategory::Answer => {
            proof {
                assert(msg@.answer[0] == msg.answer@[0]@);
            }
            Ok(rrset_to_address_entry(&msg.answer[0]))
        },
        _ => Err(NSASError::InvalidNSResponse(String::from_str("address query doesn't return answer"))),
    }
}

/// The names the NS records of `rds` point to, in order.
pub open spec fn ns_names(rds: Seq<RDataV>) -> Seq<Seq<Seq<u8>>>
    decreases rds.len(),
{
    if rds.len() == 0 {
        Seq::empty()
    } else {
        match rds.last() {
            RDataV::NS(n) => ns_names(rds.drop_last()).push(n),
            _ => ns_names(rds.drop_last()),
        }
    }
}

/// Whether `r` is an address set of `name`.
pub open spec fn is_glue_for(r: RRsetV, name: Seq<Seq<u8>>) -> bool {
    r.name == name && (r.typ == RRType::A || r.typ == RRType::AAAA)
}

/// The position of the first address set of `name` in `glue`, or -1.
pub open spec fn glue_pos(glue: Seq<RRsetV>, name: Seq<Seq<u8>>) -> int {
    first_index(glue.map_values(|r: RRsetV| is_glue_for(r, name)), true)
}

/// The matching of server names `names[0..n]` with the address sets `glue`,
/// going over the names from the last: each name is taken out with
/// `swap_remove`; a name with an address set gets an entry of its
/// addresses, and that set is used up; the others are put back at the end.
/// Gives the entries made, in that order, and the names without addresses.
pub open spec fn match_glue(
    names: Seq<Seq<Seq<u8>>>,
    glue: Seq<RRsetV>,
    n: nat,
    entries: Seq<NameserverEntryV>,
) -> (Seq<NameserverEntryV>, Seq<Seq<Seq<u8>>>)
    decreases n,
{
    if n == 0 {
        (entries, names)
    } else {
        let i = n - 1;
        let name = names[i];
        let rest = swap_remove(names, i);
        let j = glue_pos(glue, name);
        if j >= 0 {
            match_glue(rest, glue.remove(j), (n - 1) as nat, entries.push(NameserverEntryV { name, addresses: address_list(glue[j]) }))
        } else {
            match_glue(rest.push(name), glue, (n - 1) as nat, entries)
        }
    }
}

/// Whether every address set that the matching of `match_glue` picks for a
/// name holds addresses only, one at least. Sets that no name picks may hold
/// anything.
pub open spec fn picked_glue_ok(names: Seq<Seq<Seq<u8>>>, glue: Seq<RRsetV>, n: nat) -> bool
    decreases n,
{
    if n == 0 {
        true
    } else {
        let i = n - 1;
        let name = names[i];
        let rest = swap_remove(names, i);
        let j = glue_pos(glue, name);
        if j >= 0 {
            &&& addresses_only(glue[j])
            &&& glue[j].rdatas.len() > 0
            &&& picked_glue_ok(rest, glue.remove(j), (n - 1) as nat)
        } else {
            picked_glue_ok(rest.push(name), glue, (n - 1) as nat)
        }
    }
}

/// Whether the address sets the servers named in the first answer set of `m`
/// pick from its additional section hold addresses only, one at least.
pub open spec fn nameserver_glue_ok(m: MessageV) -> bool {
    let names = ns_names(m.answer[0].rdatas);
    m.additional.len() == 0 || picked_glue_ok(names, m.additional, names.len())
}

/// What `message_to_nameserver_entry` learns from an answer `m` to the NS
/// query of a zone: the entries of the servers named in its first answer set
/// that have address sets in its additional section, and the names of the
/// others.
pub open spec fn learned_nameservers(m: MessageV) -> (Seq<NameserverEntryV>, Seq<Seq<Seq<u8>>>) {
    let names = ns_names(m.answer[0].rdatas);
    if m.additional.len() == 0 {
        (Seq::empty(), names)
    } else {
        match_glue(names, m.additional, names.len(), Seq::empty())
    }
}

/// The names of name server entries, in order.
pub open spec fn entry_names(v: Seq<NameserverEntryV>) -> Seq<Seq<Seq<u8>>> {
    v.map_values(|e: NameserverEntryV| e.name)
}

/// Taking out of `glue` a set that is not an address set of `y` leaves the
/// first address set of `y` as it was.
proof fn lemma_glue_pos_remove(g: Seq<RRsetV>, j: int, y: Seq<Seq<u8>>)
    requires
        0 <= j < g.len(),
        !is_glue_for(g[j], y),
    ensures
        glue_pos(g.remove(j), y) >= 0 <==> glue_pos(g, y) >= 0,
        glue_pos(g, y) >= 0 ==> g.remove(j)[glue_pos(g.remove(j), y)] == g[glue_pos(g, y)],
{
    let f = g.map_values(|r: RRsetV| is_glue_for(r, y));
    let g2 = g.remove(j);
    let f2 = g2.map_values(|r: RRsetV| is_glue_for(r, y));
    lemma_first_index(f, true);
    lemma_first_index(f2, true);
    let p = first_index(f, true);
    assert(f[j] == false);
    if p < 0 {
        assert forall|k: int| 0 <= k < f2.len() implies f2[k] != true by {
            let k2 = if k < j { k } else { k + 1 };
            assert(g2[k] == g[k2]);
            assert(f[k2] == is_glue_for(g[k2], y));
        }
        lemma_first_index_is(f2, true, -1);
    } else {
        let p2 = if p < j { p } else { p - 1 };
        assert(g2[p2] == g[p]);
        assert(f2[p2] == is_glue_for(g[p], y));
        assert forall|k: int| 0 <= k < p2 implies f2[k] != true by {
            let k2 = if k < j { k } else { k + 1 };
            assert(g2[k] == g[k2]);
            assert(f[k2] == is_glue_for(g[k2], y));
        }
        lemma_first_index_is(f2, true, p2);
    }
}

/// The matching keeps every name: the names of the entries made and the
/// names left, together, are the names it started with and those of the
/// entries it was given.
proof fn lemma_match_glue_names(names: Seq<Seq<Seq<u8>>>, glue: Seq<RRsetV>, n: nat, entries: Seq<NameserverEntryV>)
    requires
        n <= names.len(),
    ensures
        entry_names(match_glue(names, glue, n, entries).0).to_multiset().add(match_glue(names, glue, n, entries).1.to_multiset())
            == entry_names(entries).to_multiset().add(names.to_multiset()),
    decreases n,
{
    broadcast use vstd::multiset::group_multiset_axioms;

    if n > 0 {
        let i = n - 1;
        let name = names[i];
        let rest = swap_remove(names, i);
        lemma_swap_remove(names, i);
        assert(names.contains(name));
        vstd::seq_lib::to_multiset_contains(names, name);
        let j = glue_pos(glue, name);
        if j >= 0 {
            let e2 = entries.push(NameserverEntryV { name, addresses: address_list(glue[j]) });
            lemma_match_glue_names(rest, glue.remove(j), (n - 1) as nat, e2);
            assert(entry_names(e2) =~= entry_names(entries).push(name));
            vstd::seq_lib::to_multiset_build(entry_names(entries), name);
            assert(entry_names(e2).to_multiset().add(rest.to_multiset()) =~= entry_names(entries).to_multiset().add(
                names.to_multiset(),
            ));
        } else {
            lemma_match_glue_names(rest.push(name), glue, (n - 1) as nat, entries);
            vstd::seq_lib::to_multiset_build(rest, name);
            assert(rest.push(name).to_multiset() =~= names.to_multiset());
        }
    }
}

/// Over distinct names, the matching gives each name with an address set in
/// the glue it started from, `g0`, an entry of the first such set's
/// addresses, and leaves the others without.
proof fn lemma_match_glue_found(
    names: Seq<Seq<Seq<u8>>>,
    glue: Seq<RRsetV>,
    n: nat,
    entries: Seq<NameserverEntryV>,
    g0: Seq<RRsetV>,
)
    requires
        n <= names.len(),
        names.no_duplicates(),
        forall|k: int|
            0 <= k < n ==> (glue_pos(glue, #[trigger] names[k]) >= 0 <==> glue_pos(g0, names[k]) >= 0) && (glue_pos(glue, names[k])
                >= 0 ==> glue[glue_pos(glue, names[k])] == g0[glue_pos(g0, names[k])]),
        forall|k: int|
            0 <= k < entries.len() ==> glue_pos(g0, (#[trigger] entries[k]).name) >= 0 && entries[k].addresses == address_list(
                g0[glue_pos(g0, entries[k].name)],
            ),
        forall|k: int| n <= k < names.len() ==> glue_pos(g0, #[trigger] names[k]) < 0,
    ensures
        ({
            let (e, m) = match_glue(names, glue, n, entries);
            &&& forall|k: int|
                0 <= k < e.len() ==> glue_pos(g0, (#[trigger] e[k]).name) >= 0 && e[k].addresses == address_list(
                    g0[glue_pos(g0, e[k].name)],
                )
            &&& forall|k: int| 0 <= k < m.len() ==> glue_pos(g0, #[trigger] m[k]) < 0
        }),
    decreases n,
{
    if n > 0 {
        let i = n - 1;
        let name = names[i];
        let rest = swap_remove(names, i);
        lemma_swap_remove(names, i);
        let j = glue_pos(glue, name);
        let flags = glue.map_values(|r: RRsetV| is_glue_for(r, name));
        lemma_first_index(flags, true);
        assert(names[i] == name);
        if j >= 0 {
            let g2 = glue.remove(j);
            let e2 = entries.push(NameserverEntryV { name, addresses: address_list(glue[j]) });
            assert(flags[j] == is_glue_for(glue[j], name));
            assert forall|k: int|
                0 <= k < n - 1 implies (glue_pos(g2, #[trigger] rest[k]) >= 0 <==> glue_pos(g0, rest[k]) >= 0) && (glue_pos(g2, rest[k])
                    >= 0 ==> g2[glue_pos(g2, rest[k])] == g0[glue_pos(g0, rest[k])]) by {
                assert(rest[k] == names[k]);
                assert(names[k] != names[i]);
                lemma_glue_pos_remove(glue, j, names[k]);
            }
            assert forall|k: int| 0 <= k < e2.len() implies glue_pos(g0, (#[trigger] e2[k]).name) >= 0 && e2[k].addresses
                == address_list(g0[glue_pos(g0, e2[k].name)]) by {
                if k < entries.len() {
                    assert(e2[k] == entries[k]);
                }
            }
            assert forall|k: int| n - 1 <= k < rest.len() implies glue_pos(g0, #[trigger] rest[k]) < 0 by {
                if k == i {
                    assert(rest[k] == names[names.len() - 1]);
                } else {
                    assert(rest[k] == names[k]);
                }
            }
            lemma_match_glue_found(rest, g2, (n - 1) as nat, e2, g0);
            assert(match_glue(names, glue, n, entries) == match_glue(rest, g2, (n - 1) as nat, e2));
        } else {
            let r2 = rest.push(name);
            assert forall|a: int, b: int| 0 <= a < r2.len() && 0 <= b < r2.len() && a != b implies r2[a] != r2[b] by {
                if a < rest.len() && b < rest.len() {
                    assert(r2[a] == rest[a] && r2[b] == rest[b]);
                } else if a < rest.len() {
                    assert(r2[a] == rest[a] && rest.contains(rest[a]));
                } else if b < rest.len() {
                    assert(r2[b] == rest[b] && rest.contains(rest[b]));
                }
            }
            assert forall|k: int|
                0 <= k < n - 1 implies (glue_pos(glue, #[trigger] r2[k]) >= 0 <==> glue_pos(g0, r2[k]) >= 0) && (glue_pos(glue, r2[k])
                    >= 0 ==> glue[glue_pos(glue, r2[k])] == g0[glue_pos(g0, r2[k])]) by {
                assert(r2[k] == names[k]);
            }
            assert forall|k: int| n - 1 <= k < r2.len() implies glue_pos(g0, #[trigger] r2[k]) < 0 by {
                if k == rest.len() {
                    assert(r2[k] == name);
                } else if k == i {
                    assert(r2[k] == names[names.len() - 1]);
                } else {
                    assert(r2[k] == names[k]);
                }
            }
            lemma_match_glue_found(r2, glue, (n - 1) as nat, entries, g0);
            assert(match_glue(names, glue, n, entries) == match_glue(r2, glue, (n - 1) as nat, entries));
        }
    } else {
        assert(match_glue(names, glue, n, entries) == (entries, names));
    }
}

/// What an NS answer teaches, stated directly: the names of the entries
/// made and the names left without addresses are, together, the names the
/// NS set points to. Where those names are distinct, a name gets an entry
/// exactly when the additional section holds an address set of it, and the
/// entry holds the addresses of the first such set.
pub proof fn lemma_learned_nameservers(m: MessageV)
    ensures
        ({
            let names = ns_names(m.answer[0].rdatas);
            let (e, missing) = learned_nameservers(m);
            &&& entry_names(e).to_multiset().add(missing.to_multiset()) == names.to_multiset()
            &&& names.no_duplicates() ==> forall|k: int|
                0 <= k < e.len() ==> glue_pos(m.additional, (#[trigger] e[k]).name) >= 0 && e[k].addresses == address_list(
                    m.additional[glue_pos(m.additional, e[k].name)],
                )
            &&& names.no_duplicates() ==> forall|k: int| 0 <= k < missing.len() ==> glue_pos(m.additional, #[trigger] missing[k]) < 0
        }),
{
    broadcast use vstd::multiset::group_multiset_axioms;

    let names = ns_names(m.answer[0].rdatas);
    let empty = Seq::<NameserverEntryV>::empty();
    assert(entry_names(empty) =~= Seq::<Seq<Seq<u8>>>::empty());
    assert forall|a: Seq<Seq<u8>>| entry_names(empty).to_multiset().count(a) == 0 by {
        vstd::seq_lib::to_multiset_contains(entry_names(empty), a);
    }
    assert(entry_names(empty).to_multiset() =~= vstd::multiset::Multiset::<Seq<Seq<u8>>>::empty());
    if m.additional.len() == 0 {
        assert(names.to_multiset() =~= vstd::multiset::Multiset::<Seq<Seq<u8>>>::empty().add(names.to_multiset()));
        assert forall|k: int| 0 <= k < names.len() implies glue_pos(m.additional, #[trigger] names[k]) < 0 by {
            let f = m.additional.map_values(|r: RRsetV| is_glue_for(r, names[k]));
            lemma_first_index(f, true);
        }
    } else {
        lemma_match_glue_names(names, m.additional, names.len(), empty);
        assert(vstd::multiset::Multiset::<Seq<Seq<u8>>>::empty().add(names.to_multiset()) =~= names.to_multiset());
        if names.no_duplicates() {
            lemma_match_glue_found(names, m.additional, names.len(), empty, m.additional);
        }
    }
}

/// The views of name server entries.
pub open spec fn nameserver_entries_view(v: Seq<NameserverEntry>) -> Seq<NameserverEntryV> {
    v.map_values(|e: NameserverEntry| e@)
}

/// Whether `r` is an address set of `name`.
fn is_glue(r: &RRset, name: &Name) -> (b: bool)
    ensures
        b == is_glue_for(r@, name@),
{
    r.name.eq_name(name) && match r.typ {
        RRType::A => true,
        RRType::AAAA => true,
        _ => false,
    }
}

/// The name servers an answer to the NS query of `zone` gives, as
/// `learned_nameservers` says, where it answers the query; an error
/// otherwise.
pub fn message_to_nameserver_entry(zone: &Name, msg: Message) -> (r: Result<(Vec<NameserverEntry>, Vec<Name>), NSASError>)
    requires
        classify_spec(zone@, RRType::NS, msg@) is Some,
        classify_spec(zone@, RRType::NS, msg@) == Some(CategoryV::Answer) ==> nameserver_glue_ok(msg@),
    ensures
        classify_spec(zone@, RRType::NS, msg@) != Some(CategoryV::Answer) ==> r is Err,
        classify_spec(zone@, RRType::NS, msg@) == Some(CategoryV::Answer) ==> r is Ok && (
        nameserver_entries_view(r->Ok_0.0@),
        names_view(r->Ok_0.1@),
        ) == learned_nameservers(msg@),
{
    let category = classify_response(zone, RRType::NS, &msg);
    match category {
        ResponseCategory::Answer => {},
        _ => {
            return Err(NSASError::InvalidNSResponse(String::from_str("ns query doesn't return answer")));
        },
    }
    let ghost m = msg@;
    let Message { answer, additional, .. } = msg;
    proof {
        assert(m.answer[0] == answer@[0]@);
    }
    let first = &answer[0];
    let mut names: Vec<Name> = Vec::new();
    let mut i: usize = 0;
    while i < first.rdatas.len()
        invariant
            i <= first.rdatas.len(),
            names_view(names@) == ns_names(first@.rdatas.subrange(0, i as int)),
        decreases first.rdatas.len() - i,
    {
        proof {
            assert(first@.rdatas.subrange(0, i + 1).drop_last() =~= first@.rdatas.subrange(0, i as int));
            assert(first@.rdatas.subrange(0, i + 1).last() == first.rdatas@[i as int]@);
        }
        match &first.rdatas[i] {
            RData::NS(n) => {
                let ghost before = names@;
                names.push(n.copy());
                proof {
                    assert(names_view(names@) =~= names_view(before).push(n@));
                }
            },
            _ => {},
        }
        i = i + 1;
    }
    proof {
        assert(first@.rdatas.subrange(0, first.rdatas.len() as int) =~= first@.rdatas);
    }
    if additional.len() == 0 {
        proof {
            assert(nameserver_entries_view(Seq::<NameserverEntry>::empty()) =~= Seq::<NameserverEntryV>::empty());
        }
        return Ok((Vec::new(), names));
    }
    let mut glue = additional;
    let mut nameservers: Vec<NameserverEntry> = Vec::new();
    let ghost all_names = names_view(names@);
    let mut n: usize = names.len();
    proof {
        assert(nameserver_entries_view(nameservers@) =~= Seq::<NameserverEntryV>::empty());
        assert(names_view(names@).len() == names@.len());
    }
    while n > 0
        invariant
            n <= names.len(),
            picked_glue_ok(names_view(names@), rrsets_view(glue@), n as nat),
            match_glue(names_view(names@), rrsets_view(glue@), n as nat, nameserver_entries_view(nameservers@))
                == match_glue(all_names, m.additional, all_names.len(), Seq::empty()),
        decreases n,
    {
        let k = n - 1;
        let ghost before = names_view(names@);
        let name = names.swap_remove(k);
        proof {
            assert(names_view(names@) =~= swap_remove(before, k as int));
        }
        let ghost gv = rrsets_view(glue@);
        let ghost flags = gv.map_values(|r: RRsetV| is_glue_for(r, name@));
        proof {
            lemma_first_index(flags, true);
        }
        let mut j: usize = 0;
        let mut found = false;
        while !found && j < glue.len()
            invariant
                j <= glue.len(),
                gv == rrsets_view(glue@),
                flags == gv.map_values(|r: RRsetV| is_glue_for(r, name@)),
                found ==> j < glue.len() && flags[j as int],
                forall|x: int| 0 <= x < j ==> !flags[x],
            decreases glue.len() - j + (if found { 0int } else { 1int }),
        {
            proof {
                assert(gv[j as int] == glue@[j as int]@);
            }
            if is_glue(&glue[j], &name) {
                found = true;
            } else {
                j = j + 1;
            }
        }
        if found {
            proof {
                crate::seqs::lemma_first_index_is(flags, true, j as int);
                assert(gv[j as int] == glue@[j as int]@);
            }
            proof {
                assert(flags[j as int] == is_glue_for(gv[j as int], name@));
                assert(gv[j as int].rdatas.len() > 0);
            }
            let addrs = rrset_to_address_entry(&glue[j]);
            proof {
                assert(addresses_view(addrs@).len() == addrs@.len());
            }
            let ghost ev = nameserver_entries_view(nameservers@);
            let entry = NameserverEntry::new(name, addrs);
            nameservers.push(entry);
            glue.remove(j);
            proof {
                assert(nameserver_entries_view(nameservers@) =~= ev.push(NameserverEntryV { name: before[k as int], addresses: address_list(gv[j as int]) }));
                assert(rrsets_view(glue@) =~= gv.remove(j as int));
            }
        } else {
            proof {
                crate::seqs::lemma_first_index_is(flags, true, -1);
            }
            let ghost nv = names_view(names@);
            names.push(name);
            proof {
                assert(names_view(names@) =~= nv.push(before[k as int]));
            }
        }
        n = k;
    }
    Ok((nameservers, names))
}

} // verus!
