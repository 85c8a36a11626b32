//! Looking up the addresses of name servers, one after another.
use crate::message::Message;
use crate::name::Name;
use crate::resolver::message_classifier::{classify_spec, CategoryV};
use crate::resolver::nsas::message_util::{address_list, addresses_only, message_to_address_entry};
use crate::resolver::nsas::nameserver_entry::{nameserver_added, NameserverEntry, NameserverEntryV};
use crate::resolver::nsas::ns_address_store::NSAddressStore;
use crate::resolver::nsas::zone_cache::names_view;
use crate::rr::RRType;
use vstd::prelude::*;

verus! {

/// The servers whose addresses are still to be looked up, and the one being
/// looked up.
pub struct NameserverFetcher {
    names: Vec<Name>,
    current_name: Option<Name>,
}

/// The abstract state of a fetcher.
pub struct FetcherV {
    pub names: Seq<Seq<Seq<u8>>>,
    pub current: Option<Seq<Seq<u8>>>,
}

impl View for NameserverFetcher {
    type V = FetcherV;

    closed spec fn view(&self) -> FetcherV {
        FetcherV {
            names: names_view(self.names@),
            current: match self.current_name { Some(n) => Some(n@), None => None },
        }
    }
}

impl NameserverFetcher {
    /// A fetcher of the addresses of `names`.
    pub fn new(names: Vec<Name>) -> (r: NameserverFetcher)
        ensures
            r@ == (FetcherV { names: names_view(names@), current: None }),
    {
        NameserverFetcher { names, current_name: None }
    }

    /// The next address query to send: for the last name still to look up,
    /// which becomes the one being looked up; `None` once all are done.
    pub fn next_query(&mut self) -> (r: Option<Message>)
        ensures
            old(self)@.names.len() == 0 ==> r is None && final(self)@ == old(self)@,
            old(self)@.names.len() > 0 ==> (r matches Some(m) && m@ == crate::message::query_message(
                old(self)@.names.last(),
                RRType::A,
            )) && final(self)@ == (FetcherV {
                names: old(self)@.names.drop_last(),
                current: Some(old(self)@.names.last()),
            }),
    {
        let ghost nv = names_view(self.names@);
        match self.names.pop() {
            None => None,
            Some(name) => {
                proof {
                    assert(names_view(self.names@) =~= nv.drop_last());
                }
                let q = Message::with_query(name.copy(), RRType::A);
                self.current_name = Some(name);
                Some(q)
            },
        }
    }

    /// The answer `msg` to the address query came: where it answers it with
    /// addresses, the server's entry is stored.
    pub fn on_response(&mut self, msg: Message, nsas: &mut NSAddressStore)
        requires
            old(self)@.current is Some,
            old(nsas).wf(),
            classify_spec(old(self)@.current.unwrap(), RRType::A, msg@) is Some,
            classify_spec(old(self)@.current.unwrap(), RRType::A, msg@) == Some(CategoryV::Answer) ==> addresses_only(
                msg@.answer[0],
            ),
        ensures
            final(nsas).wf(),
            final(nsas)@.zones == old(nsas)@.zones,
            final(nsas)@.probing == old(nsas)@.probing,
            final(self)@ == (FetcherV { current: None, ..old(self)@ }),
            ({
                let name = old(self)@.current.unwrap();
                let ok = classify_spec(name, RRType::A, msg@) == Some(CategoryV::Answer) && address_list(msg@.answer[0]).len() > 0;
                &&& !ok ==> final(nsas)@ == old(nsas)@
                &&& ok ==> final(nsas)@.nameservers == nameserver_added(
                    old(nsas)@.nameservers,
                    NameserverEntryV { name, addresses: address_list(msg@.answer[0]) },
                )
            }),
    {
        let name = match self.current_name.take() {
            Some(n) => n,
            None => {
                proof {
                    assert(false);
                }
                Name::root()
            },
        };
        match message_to_address_entry(&name, msg) {
            Ok(addrs) => {
                if addrs.len() > 0 {
                    nsas.add_nameserver(NameserverEntry::new(name, addrs));
                }
            },
            Err(_) => {},
        }
    }

    /// The address query failed: nothing is learned.
    pub fn on_error(&mut self)
        ensures
            final(self)@ == (FetcherV { current: None, ..old(self)@ }),
    {
        self.current_name = None;
    }
}

} // verus!
