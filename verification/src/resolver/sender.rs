//! What comes of sending one query to one server: the server's round-trip
//! time is recorded, and failures are reported.
use crate::resolver::error::RecursorError;
use crate::resolver::nsas::address_entry::UNREACHABLE_RTT;
use crate::resolver::nsas::nameserver_entry::{entry_with_rtt, nameserver_pos, Nameserver, NameserverV};
use crate::resolver::nsas::ns_address_store::NSAddressStore;
use vstd::prelude::*;

verus! {

/// How long, in milliseconds, the answer of a server is waited for.
pub const DEFAULT_RECV_TIMEOUT_MS: u32 = 1000;

/// The size of the buffer an answer is received into.
pub const DEFAULT_RECV_BUF_SIZE: usize = 1024;

/// What came of sending a query to a server.
pub enum SendEvent {
    /// Sending failed; the text says how.
    SendFailed(String),
    /// Receiving failed; the text says how.
    RecvFailed(String),
    /// No answer came in time.
    TimedOut,
    /// An answer came after this many milliseconds.
    Replied(u32),
}

/// The round-trip time recorded for `event`.
pub open spec fn event_rtt(event: SendEvent) -> u32 {
    match event {
        SendEvent::SendFailed(_) | SendEvent::RecvFailed(_) => UNREACHABLE_RTT,
        SendEvent::TimedOut => DEFAULT_RECV_TIMEOUT_MS,
        SendEvent::Replied(ms) => ms,
    }
}

/// Records what came of sending a query to `server` at `now`: a failure
/// marks the server's address unreachable, a timeout records the waiting
/// time, an answer the time it took; the store learns the time. Gives the
/// error of a failure or a timeout, and nothing for an answer, which the
/// caller then decodes.
pub fn on_send_event(server: &mut Nameserver, nsas: &mut NSAddressStore, event: SendEvent, now: u64) -> (r: Result<(), RecursorError>)
    requires
        old(nsas).wf(),
    ensures
        final(nsas).wf(),
        final(server)@ == (NameserverV { rtt: event_rtt(event), ..old(server)@ }),
        final(nsas)@.zones == old(nsas)@.zones,
        final(nsas)@.probing == old(nsas)@.probing,
        ({
            let v = old(nsas)@.nameservers.entries;
            let i = nameserver_pos(v, old(server)@.name);
            final(nsas)@.nameservers.entries == if i < 0 {
                v
            } else {
                v.remove(i).push(entry_with_rtt(v[i], old(server)@.address, event_rtt(event), now))
            }
        }),
        match event {
            SendEvent::Replied(_) => r is Ok,
            SendEvent::TimedOut => r matches Err(RecursorError::Timeout(a)) && a == old(server)@.address,
            _ => r matches Err(RecursorError::IoError(_)),
        },
{
    match event {
        SendEvent::SendFailed(msg) => {
            server.rtt = UNREACHABLE_RTT;
            nsas.update_nameserver_rtt_at(server, now);
            Err(RecursorError::IoError(msg))
        },
        SendEvent::RecvFailed(msg) => {
            server.rtt = UNREACHABLE_RTT;
            nsas.update_nameserver_rtt_at(server, now);
            Err(RecursorError::IoError(msg))
        },
        SendEvent::TimedOut => {
            server.rtt = DEFAULT_RECV_TIMEOUT_MS;
            nsas.update_nameserver_rtt_at(server, now);
            Err(RecursorError::Timeout(server.address))
        },
        SendEvent::Replied(ms) => {
            server.rtt = ms;
            nsas.update_nameserver_rtt_at(server, now);
            Ok(())
        },
    }
}

} // verus!
