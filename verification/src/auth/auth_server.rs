//! The authoritative server's query handler.
use crate::auth::zones::{auth_response, has_zone_for, is_best_zone, zones_wf, AuthZone};
use crate::datasrc::memory_zone::find_spec;
use crate::datasrc::zone::FindOption;
use crate::server::handler::Query;
use vstd::prelude::*;

verus! {

/// An authoritative server: the zones it serves.
pub struct AuthServer {
    pub zones: AuthZone,
}

impl AuthServer {
    /// A server of no zone.
    pub fn new() -> (r: AuthServer)
        ensures
            r.zones@ == Seq::<crate::datasrc::memory_zone::ZoneV>::empty(),
            zones_wf(r.zones@),
    {
        AuthServer { zones: AuthZone::new() }
    }

    /// The zones served.
    pub fn zones(&self) -> (r: &AuthZone)
        ensures
            r@ == self.zones@,
    {
        &self.zones
    }

    /// Answers `query` from the zones, as `AuthZone::handle_query` says,
    /// and marks it done where a zone answered.
    pub fn handle_query(&self, query: Query) -> (r: Query)
        requires
            zones_wf(self.zones@),
            query.message@.question is Some,
        ensures
            r.client == query.client,
            ({
                let q = query.message@.question.unwrap();
                if !has_zone_for(self.zones@, q.0) {
                    !r.done && r.message@ == query.message@
                } else {
                    r.done && exists|i: int|
                        is_best_zone(self.zones@, q.0, i) && r.message@ == #[trigger] auth_response(
                            query.message@,
                            self.zones@[i],
                            find_spec(self.zones@[i], q.0, q.1, FindOption::FollowZoneCut),
                            q.1,
                        )
                }
            }),
    {
        let mut query = query;
        let done = self.zones.handle_query(&mut query.message);
        query.done = done;
        query
    }
}

} // verus!
