use dns_server::auth::dynamic_server::{apply_ops, DynamicUpdateHandler, ZoneOp};
use dns_server::auth::error::AuthError;
use dns_server::auth::zones::AuthZone;
use dns_server::datasrc::error::DataSrcError;
use dns_server::datasrc::memory_zone::MemoryZone;
use dns_server::datasrc::rdataset::Rdataset;
use dns_server::datasrc::zone::{FindOption, FindResultType};
use dns_server::datasrc::zone_loader::load_zone;
use dns_server::message::{Message, Rcode};
use dns_server::name::Name;
use dns_server::rr::{RData, RRType, RRset, CLASS_IN};

fn name(s: &str) -> Name {
    Name::new(s.split('.').filter(|l| !l.is_empty()).map(|l| l.as_bytes().to_vec()).collect())
}

fn ip4(s: &str) -> u32 {
    s.split('.').fold(0u32, |acc, p| acc * 256 + p.parse::<u32>().unwrap())
}

fn ip6(s: &str) -> u128 {
    let (head, tail) = match s.find("::") {
        Some(i) => (&s[..i], &s[i + 2..]),
        None => (s, ""),
    };
    let hs: Vec<u128> = head.split(':').filter(|x| !x.is_empty()).map(|x| u128::from_str_radix(x, 16).unwrap()).collect();
    let ts: Vec<u128> = tail.split(':').filter(|x| !x.is_empty()).map(|x| u128::from_str_radix(x, 16).unwrap()).collect();
    let mut groups = hs.clone();
    while groups.len() + ts.len() < 8 {
        groups.push(0);
    }
    groups.extend(ts);
    groups.iter().fold(0u128, |acc, g| (acc << 16) | g)
}

fn rrset(n: &str, ttl: u32, typ: RRType, rdatas: Vec<RData>) -> RRset {
    RRset { name: name(n), typ, class: CLASS_IN, ttl, rdatas }
}

fn a(n: &str, ttl: u32, ips: &[&str]) -> RRset {
    rrset(n, ttl, RRType::A, ips.iter().map(|i| RData::A(ip4(i))).collect())
}

fn soa(n: &str, ttl: u32, mname: &str, rname: &str) -> RRset {
    rrset(
        n,
        ttl,
        RRType::SOA,
        vec![RData::SOA { mname: name(mname), rname: name(rname), serial: 100, refresh: 1800, retry: 900, expire: 604800, minimum: 86400 }],
    )
}

fn ns(n: &str, ttl: u32, target: &str) -> RRset {
    rrset(n, ttl, RRType::NS, vec![RData::NS(name(target))])
}

fn default_zone() -> Vec<RRset> {
    vec![
        soa("example.org.", 300, "xxx.net.", "ns.example.org."),
        ns("example.org.", 300, "ns.example.org."),
        a("example.org.", 300, &["192.0.2.1"]),
        a("ns.example.org.", 300, &["192.0.2.2"]),
        rrset("ns.example.org.", 300, RRType::AAAA, vec![RData::AAAA(ip6("2001:db8::2"))]),
        rrset("cname.example.org.", 300, RRType::CNAME, vec![RData::CName(name("canonical.example.org"))]),
        ns("dname.example.org.", 300, "ns.dname.example.org."),
        ns("child.example.org.", 300, "ns.child.example.org."),
        a("ns.child.example.org.", 300, &["192.0.2.153"]),
        ns("grand.child.example.org.", 300, "ns.grand.child.example.org."),
        rrset("ns.grand.child.example.org.", 300, RRType::AAAA, vec![RData::AAAA(ip6("2001:db8::253"))]),
        a("foo.wild.example.org.", 300, &["192.0.2.3"]),
        a("wild.*.foo.example.org.", 300, &["192.0.2.1"]),
        a("wild.*.foo.*.bar.example.org.", 300, &["192.0.2.1"]),
        a("bar.foo.wild.example.org.", 300, &["192.0.2.2"]),
        a("baz.foo.wild.example.org.", 300, &["192.0.2.3"]),
    ]
}

fn build_zone(origin: &str, sets: Vec<RRset>) -> MemoryZone {
    let mut zone = MemoryZone::new(name(origin));
    for s in sets {
        zone.add_rrset(s).unwrap();
    }
    zone
}

#[test]
fn test_get_rrset() {
    let a_rrset = a("a.cn", 0, &["1.1.1.1", "2.2.2.2"]);
    let mut rrset = Rdataset::new();
    rrset.add_rrset(a("a.cn", 0, &["1.1.1.1", "2.2.2.2"])).unwrap();
    assert_eq!(rrset.get_rrset(&name("a.cn"), RRType::A), Some(a_rrset));
}

#[test]
fn test_delete_rrset() {
    let n = name("a.cn");
    let mut rrset = Rdataset::new();
    rrset.add_rrset(a("a.cn", 0, &["1.1.1.1", "2.2.2.2"])).unwrap();
    let _ = rrset.delete_rdata(&a("a.cn", 0, &["1.1.1.1"]));
    assert_eq!(rrset.get_rrset(&n, RRType::A), Some(a("a.cn", 0, &["2.2.2.2"])));
    let _ = rrset.delete_rdata(&a("a.cn", 0, &["2.2.2.2", "3.3.3.3"]));
    assert_eq!(rrset.get_rrset(&n, RRType::A), None);

    let new_rrset = a("a.cn", 0, &["1.1.1.1", "2.2.2.2"]);
    rrset.add_rrset(a("a.cn", 0, &["1.1.1.1", "2.2.2.2"])).unwrap();
    assert_eq!(rrset.get_rrset(&n, RRType::A), Some(new_rrset));
    let _ = rrset.delete_rrset(RRType::A);
    assert_eq!(rrset.get_rrset(&n, RRType::A), None);
}

#[test]
fn rdataset_refuses_bad_sets() {
    let mut set = Rdataset::new();
    assert!(matches!(set.add_rrset(a("a.cn", 0, &[])), Err(DataSrcError::RRsetHasNoRdata)));
    let two_cnames = rrset("a.cn", 0, RRType::CNAME, vec![RData::CName(name("b.cn")), RData::CName(name("c.cn"))]);
    assert!(matches!(set.add_rrset(two_cnames), Err(DataSrcError::ExclusiveRRsetHasMoreThanOneRdata)));
    set.add_rrset(a("a.cn", 0, &["1.1.1.1"])).unwrap();
    let cname = rrset("a.cn", 0, RRType::CNAME, vec![RData::CName(name("b.cn"))]);
    assert!(matches!(set.add_rrset(cname), Err(DataSrcError::CNameCoExistsWithOtherRR)));
    assert!(matches!(set.delete_rrset(RRType::MX), Err(DataSrcError::RRsetNotFound(RRType::MX))));
}

#[test]
fn rdataset_merges_added_data() {
    let mut set = Rdataset::new();
    set.add_rrset(a("a.cn", 10, &["1.1.1.1"])).unwrap();
    set.add_rrset(a("a.cn", 20, &["2.2.2.2"])).unwrap();
    assert_eq!(set.get_rrset(&name("a.cn"), RRType::A), Some(a("a.cn", 20, &["1.1.1.1", "2.2.2.2"])));
}

#[test]
fn test_find_cname() {
    let mut zone = build_zone("example.org", default_zone());
    let result = zone.find(&name("cname.example.org."), RRType::A, FindOption::FollowZoneCut);
    assert_eq!(result.typ, FindResultType::CName);
    assert_eq!(result.rrset.unwrap().typ, RRType::CNAME);

    let result = zone.find(&name("cname.example.org."), RRType::CNAME, FindOption::FollowZoneCut);
    assert_eq!(result.typ, FindResultType::Success);
    assert_eq!(result.rrset.unwrap().rdatas[0], RData::CName(name("canonical.example.org.")));

    zone.add_rrset(rrset("cname.child.example.org.", 300, RRType::CNAME, vec![RData::CName(name("www.knet.cn"))])).unwrap();
    let result = zone.find(&name("cname.child.example.org."), RRType::AAAA, FindOption::GlueOK);
    assert_eq!(result.typ, FindResultType::CName);
    assert_eq!(result.rrset.unwrap().rdatas[0], RData::CName(name("www.knet.cn.")));
}

#[test]
fn test_delegation() {
    let zone = build_zone("example.org", default_zone());
    let child_ns = RData::NS(name("ns.child.example.org."));

    let result = zone.find(&name("www.child.example.org."), RRType::A, FindOption::FollowZoneCut);
    assert_eq!(result.typ, FindResultType::Delegation);
    assert_eq!(result.rrset.unwrap().rdatas[0], child_ns);

    let result = zone.find(&name("child.example.org."), RRType::A, FindOption::FollowZoneCut);
    assert_eq!(result.typ, FindResultType::Delegation);
    assert_eq!(result.rrset.unwrap().rdatas[0], child_ns);

    let result = zone.find(&name("child.example.org."), RRType::NS, FindOption::FollowZoneCut);
    assert_eq!(result.typ, FindResultType::Delegation);
    assert_eq!(result.rrset.unwrap().rdatas[0], child_ns);

    let result = zone.find(&name("example.org."), RRType::NS, FindOption::FollowZoneCut);
    assert_eq!(result.typ, FindResultType::Success);
    assert_eq!(result.rrset.unwrap().rdatas[0], RData::NS(name("ns.example.org.")));

    let result = zone.find(&name("www.grand.child.example.org."), RRType::A, FindOption::FollowZoneCut);
    assert_eq!(result.typ, FindResultType::Delegation);
    assert_eq!(result.rrset.unwrap().rdatas[0], child_ns);
}

#[test]
fn test_general_find() {
    let zone = build_zone("example.org", default_zone());

    let result = zone.find(&name("example.org."), RRType::NS, FindOption::FollowZoneCut);
    assert_eq!(result.typ, FindResultType::Success);
    assert_eq!(result.rrset.unwrap().rdatas[0], RData::NS(name("ns.example.org.")));

    let result = zone.find(&name("ns.example.org."), RRType::A, FindOption::FollowZoneCut);
    assert_eq!(result.typ, FindResultType::Success);
    assert_eq!(result.rrset.unwrap().rdatas[0], RData::A(ip4("192.0.2.2")));

    let result = zone.find(&name("example.org."), RRType::AAAA, FindOption::FollowZoneCut);
    assert_eq!(result.typ, FindResultType::NXRRset);

    let result = zone.find(&name("ns.example.org."), RRType::NS, FindOption::FollowZoneCut);
    assert_eq!(result.typ, FindResultType::NXRRset);

    let result = zone.find(&name("nothere.example.org"), RRType::A, FindOption::FollowZoneCut);
    assert_eq!(result.typ, FindResultType::NXDomain);

    let result = zone.find(&name("example.net"), RRType::A, FindOption::FollowZoneCut);
    assert_eq!(result.typ, FindResultType::NXDomain);
}

#[test]
fn test_find_glue() {
    let zone = build_zone("example.org", default_zone());
    let child_ns = RData::NS(name("ns.child.example.org."));

    let result = zone.find(&name("ns.child.example.org."), RRType::A, FindOption::FollowZoneCut);
    assert_eq!(result.typ, FindResultType::Delegation);
    assert_eq!(result.rrset.unwrap().rdatas[0], child_ns);

    let result = zone.find(&name("ns.child.example.org."), RRType::A, FindOption::GlueOK);
    assert_eq!(result.typ, FindResultType::Success);
    assert_eq!(result.rrset.unwrap().rdatas[0], RData::A(ip4("192.0.2.153")));

    let result = zone.find(&name("ns.child.example.org."), RRType::AAAA, FindOption::GlueOK);
    assert_eq!(result.typ, FindResultType::NXRRset);

    let result = zone.find(&name("www.child.example.org."), RRType::A, FindOption::GlueOK);
    assert_eq!(result.typ, FindResultType::Delegation);
    assert_eq!(result.rrset.unwrap().rdatas[0], child_ns);

    let result = zone.find(&name("ns.grand.child.example.org"), RRType::AAAA, FindOption::GlueOK);
    assert_eq!(result.typ, FindResultType::Success);
    assert_eq!(result.rrset.unwrap().rdatas[0], RData::AAAA(ip6("2001:db8::253")));

    let result = zone.find(&name("www.grand.child.example.org."), RRType::TXT, FindOption::GlueOK);
    assert_eq!(result.typ, FindResultType::Delegation);
    assert_eq!(result.rrset.unwrap().rdatas[0], child_ns);
}

fn wildcard_zone() -> MemoryZone {
    let sets = vec![
        soa("example.", 300, "xxx.net.", "ns.example."),
        rrset("*.example.", 3600, RRType::AAAA, vec![RData::AAAA(ip6("::1"))]),
        rrset("*.example.", 3600, RRType::MX, vec![RData::MX { preference: 10, exchange: name("host1.example.") }]),
        a("*.c.example.", 3600, &["2.2.2.2"]),
        rrset("sub.*.example.", 3600, RRType::AAAA, vec![RData::AAAA(ip6("::2"))]),
        a("host1.example.", 3600, &["192.0.2.1"]),
        rrset(
            "_ssh._tcp.host1.example.",
            3600,
            RRType::SRV,
            vec![RData::SRV { priority: 10, weight: 60, port: 5060, target: name("bigbox.example.com.") }],
        ),
        rrset(
            "_ssh._tcp.host2.example.",
            3600,
            RRType::SRV,
            vec![RData::SRV { priority: 10, weight: 60, port: 5060, target: name("b.c.example.") }],
        ),
        ns("subdel.example.", 3600, "ns.example.com."),
        ns("subdel.example.", 3600, "ns.example.net."),
    ];
    build_zone("example", sets)
}

#[test]
fn test_wildcard_find() {
    let zone = wildcard_zone();

    let result = zone.find(&name("host3.example."), RRType::A, FindOption::FollowZoneCut);
    assert_eq!(result.typ, FindResultType::NXRRset);

    let result = zone.find(&name("host3.example"), RRType::MX, FindOption::FollowZoneCut);
    assert_eq!(result.typ, FindResultType::Success);
    assert_eq!(result.rrset.unwrap().rdatas[0], RData::MX { preference: 10, exchange: name("host1.example.") });

    let result = zone.find(&name("foo.bar.example"), RRType::AAAA, FindOption::FollowZoneCut);
    assert_eq!(result.typ, FindResultType::Success);
    assert_eq!(result.rrset.unwrap().rdatas[0], RData::AAAA(ip6("::1")));

    let result = zone.find(&name("ghost.*.example"), RRType::A, FindOption::FollowZoneCut);
    assert_eq!(result.typ, FindResultType::NXDomain);

    let result = zone.find(&name("b.c.example"), RRType::A, FindOption::FollowZoneCut);
    assert_eq!(result.typ, FindResultType::Success);
    assert_eq!(result.rrset.unwrap().rdatas[0], RData::A(ip4("2.2.2.2")));
}

#[test]
fn wildcard_answer_is_owned_by_the_query_name() {
    let zone = wildcard_zone();
    let result = zone.find(&name("foo.bar.example"), RRType::AAAA, FindOption::FollowZoneCut);
    assert_eq!(result.rrset.unwrap().name, name("foo.bar.example"));
}

#[test]
fn test_srv_find_glue() {
    let sets = vec![
        soa("example.org.", 300, "xxx.net.", "ns.example.org."),
        ns("example.org.", 300, "ns.example.org."),
        a("ns.example.org.", 300, &["192.0.2.2"]),
        rrset(
            "_service._proto.example.org.",
            100,
            RRType::SRV,
            vec![RData::SRV { priority: 1, weight: 2, port: 3, target: name("glue.example.org.") }],
        ),
        a("glue.example.org.", 100, &["1.1.1.4"]),
    ];
    let zone = build_zone("example.org", sets);
    let result = zone.find(&name("_service._proto.example.org."), RRType::SRV, FindOption::FollowZoneCut);
    assert_eq!(result.typ, FindResultType::Success);
    let glue = zone.get_additional(&result.rrset);
    assert_eq!(glue.len(), 1);
    assert_eq!(glue[0].rdatas[0], RData::A(ip4("1.1.1.4")));
}

#[test]
fn test_empty_node() {
    let sets = vec![
        a("example.org.", 300, &["192.0.2.1"]),
        a("bar.example.org.", 300, &["192.0.2.1"]),
        a("x.foo.example.org.", 300, &["192.0.2.1"]),
        a("aaa.baz.example.org.", 300, &["192.0.2.1"]),
        a("bbb.baz.example.org.", 300, &["192.0.2.1"]),
    ];
    let zone = build_zone("example.org", sets);
    assert_eq!(zone.find(&name("baz.example.org."), RRType::A, FindOption::FollowZoneCut).typ, FindResultType::NXRRset);
    assert_eq!(zone.find(&name("foo.example.org."), RRType::A, FindOption::FollowZoneCut).typ, FindResultType::NXRRset);
    assert_eq!(zone.find(&name("org."), RRType::A, FindOption::FollowZoneCut).typ, FindResultType::NXDomain);
}

#[test]
fn zone_refuses_sets_outside_it() {
    let mut zone = MemoryZone::new(name("example.org"));
    assert!(matches!(zone.add_rrset(a("example.net", 300, &["1.1.1.1"])), Err(DataSrcError::OutOfZone)));
}

#[test]
fn find_after_add_gives_the_added_set() {
    let mut zone = build_zone("example.org", default_zone());
    zone.add_rrset(a("new.example.org.", 60, &["10.0.0.1", "10.0.0.2"])).unwrap();
    let result = zone.find(&name("new.example.org."), RRType::A, FindOption::FollowZoneCut);
    assert_eq!(result.typ, FindResultType::Success);
    assert_eq!(result.rrset.unwrap(), a("new.example.org.", 60, &["10.0.0.1", "10.0.0.2"]));
}

#[test]
fn zone_apex_data() {
    let zone = build_zone("example.org", default_zone());
    assert_eq!(zone.get_apex_soa(), Some(soa("example.org.", 300, "xxx.net.", "ns.example.org.")));
    let (ns_set, glue) = zone.get_apex_ns_and_glue();
    assert_eq!(ns_set, Some(ns("example.org.", 300, "ns.example.org.")));
    assert_eq!(glue.len(), 2);
    assert_eq!(glue[0].typ, RRType::A);
    assert_eq!(glue[1].typ, RRType::AAAA);
}

#[test]
fn load_zone_stops_at_first_refused_set() {
    let ok = load_zone(name("example.org"), default_zone());
    assert!(ok.is_ok());
    let bad = load_zone(name("example.org"), vec![a("www.example.org", 1, &["1.1.1.1"]), a("www.example.com", 1, &["1.1.1.1"])]);
    assert!(matches!(bad, Err(DataSrcError::OutOfZone)));
}

#[test]
fn auth_zone_answers_from_the_deepest_zone() {
    let mut zones = AuthZone::new();
    zones.add_zone(name("example.org"), default_zone()).unwrap();
    zones
        .add_zone(name("child.example.org"), vec![soa("child.example.org", 60, "a.b", "c.d"), a("www.child.example.org", 60, &["9.9.9.9"])])
        .unwrap();
    assert!(matches!(zones.add_zone(name("example.org"), vec![]), Err(AuthError::DuplicateZone(_))));

    let mut query = Message::with_query(name("www.child.example.org"), RRType::A);
    assert!(zones.handle_query(&mut query));
    assert!(query.header.flags.qr);
    assert!(query.header.flags.aa);
    assert_eq!(query.answer, vec![a("www.child.example.org", 60, &["9.9.9.9"])]);

    let mut query = Message::with_query(name("nothere.example.org"), RRType::A);
    assert!(zones.handle_query(&mut query));
    assert_eq!(query.header.rcode, Rcode::NXDomain);
    assert_eq!(query.authority, vec![soa("example.org.", 300, "xxx.net.", "ns.example.org.")]);

    let mut query = Message::with_query(name("www.example.com"), RRType::A);
    assert!(!zones.handle_query(&mut query));
    assert!(!query.header.flags.qr);

    zones.delete_zone(&name("child.example.org")).unwrap();
    assert!(matches!(zones.delete_zone(&name("child.example.org")), Err(AuthError::UnknownZone(_))));
    let mut query = Message::with_query(name("www.child.example.org"), RRType::A);
    assert!(zones.handle_query(&mut query));
    assert!(!query.header.flags.aa);
    assert_eq!(query.authority, vec![ns("child.example.org.", 300, "ns.child.example.org.")]);
    assert_eq!(query.additional, vec![a("ns.child.example.org.", 300, &["192.0.2.153"])]);
}

#[test]
fn auth_zone_success_adds_apex_ns_and_glue() {
    let mut zones = AuthZone::new();
    zones.add_zone(name("example.org"), default_zone()).unwrap();
    let mut query = Message::with_query(name("example.org"), RRType::A);
    assert!(zones.handle_query(&mut query));
    assert_eq!(query.answer, vec![a("example.org.", 300, &["192.0.2.1"])]);
    assert_eq!(query.authority, vec![ns("example.org.", 300, "ns.example.org.")]);
    assert_eq!(query.additional.len(), 2);
    let mut query = Message::with_query(name("example.org"), RRType::NS);
    assert!(zones.handle_query(&mut query));
    assert_eq!(query.authority.len(), 0);
    assert_eq!(query.additional.len(), 2);
}

fn served(origin: &str) -> DynamicUpdateHandler {
    let mut zones = AuthZone::new();
    zones.add_zone(name(origin), default_zone()).unwrap();
    DynamicUpdateHandler::new(zones)
}

fn lookup(h: &DynamicUpdateHandler, n: &str, typ: RRType) -> (FindResultType, Option<RRset>) {
    let zone = h.zones.get_zone(&name(n)).unwrap();
    let r = zone.find(&name(n), typ, FindOption::FollowZoneCut);
    (r.typ, r.rrset)
}

#[test]
fn dynamic_update_adds_then_removes_sets() {
    let mut h = served("example.org");
    h.do_add_rrsets(&name("example.org"), vec![a("new.example.org", 60, &["10.0.0.1"]), a("new.example.org", 60, &["10.0.0.2"])]).unwrap();
    assert_eq!(lookup(&h, "new.example.org", RRType::A), (FindResultType::Success, Some(a("new.example.org", 60, &["10.0.0.1", "10.0.0.2"]))));

    h.do_delete_rdatas(&name("example.org"), &vec![a("new.example.org", 60, &["10.0.0.1"])]).unwrap();
    assert_eq!(lookup(&h, "new.example.org", RRType::A), (FindResultType::Success, Some(a("new.example.org", 60, &["10.0.0.2"]))));

    h.do_update_rdatas(&name("example.org"), &a("new.example.org", 60, &["10.0.0.2"]), a("new.example.org", 60, &["10.0.0.9"])).unwrap();
    assert_eq!(lookup(&h, "new.example.org", RRType::A), (FindResultType::Success, Some(a("new.example.org", 60, &["10.0.0.9"]))));

    h.do_delete_rrsets(&name("example.org"), &vec![(name("new.example.org"), RRType::A)]).unwrap();
    assert_eq!(lookup(&h, "new.example.org", RRType::A).1, None);

    h.do_delete_domains(&name("example.org"), &vec![name("ns.example.org")]).unwrap();
    assert_eq!(lookup(&h, "ns.example.org", RRType::A), (FindResultType::NXDomain, None));
}

#[test]
fn dynamic_update_refuses_unknown_zone() {
    let mut h = served("example.org");
    let r = h.do_add_rrsets(&name("example.com"), vec![a("www.example.com", 60, &["10.0.0.1"])]);
    assert!(matches!(r, Err(AuthError::UnknownZone(n)) if n == name("example.com")));
    let r = h.do_delete_domains(&name("example.com"), &vec![name("www.example.com")]);
    assert!(matches!(r, Err(AuthError::UnknownZone(_))));
    let r = h.do_update_rdatas(&name("example.com"), &a("www.example.com", 60, &["1.1.1.1"]), a("www.example.com", 60, &["2.2.2.2"]));
    assert!(matches!(r, Err(AuthError::UnknownZone(_))));
}

#[test]
fn dynamic_update_stops_at_first_refused_change() {
    let mut h = served("example.org");
    let r = h.do_add_rrsets(
        &name("example.org"),
        vec![a("one.example.org", 60, &["10.0.0.1"]), a("www.example.com", 60, &["10.0.0.2"]), a("two.example.org", 60, &["10.0.0.3"])],
    );
    assert!(matches!(r, Err(AuthError::InvalidZone(DataSrcError::OutOfZone))));
    assert_eq!(lookup(&h, "one.example.org", RRType::A).0, FindResultType::Success);
    assert_eq!(lookup(&h, "two.example.org", RRType::A), (FindResultType::NXDomain, None));

    let r = h.do_delete_domains(&name("example.org"), &vec![name("example.org")]);
    assert!(matches!(r, Err(AuthError::InvalidZone(DataSrcError::ZoneOrginNotAllowToDelete))));
    let r = h.do_delete_domains(&name("example.org"), &vec![name("missing.example.org")]);
    assert!(matches!(r, Err(AuthError::InvalidZone(DataSrcError::NameNotFound(_)))));
    let r = h.do_delete_rrsets(&name("example.org"), &vec![(name("example.org"), RRType::MX)]);
    assert!(matches!(r, Err(AuthError::InvalidZone(_))));
}

#[test]
fn dynamic_update_adds_and_deletes_zones() {
    let mut h = served("example.org");
    assert!(matches!(h.do_add_zone(name("example.org"), vec![]), Err(AuthError::DuplicateZone(_))));
    h.do_add_zone(name("example.com"), vec![soa("example.com", 60, "a.b", "c.d"), a("www.example.com", 60, &["1.2.3.4"])]).unwrap();
    assert_eq!(lookup(&h, "www.example.com", RRType::A).0, FindResultType::Success);

    let r = h.do_delete_zones(&vec![name("example.com"), name("example.net"), name("example.org")]);
    assert!(matches!(r, Err(AuthError::UnknownZone(n)) if n == name("example.net")));
    assert!(h.zones.get_zone(&name("www.example.com")).is_none());
    assert!(h.zones.get_zone(&name("www.example.org")).is_some());
    h.do_delete_zones(&vec![name("example.org")]).unwrap();
    assert!(h.zones.get_zone(&name("www.example.org")).is_none());
}

#[test]
fn zone_changes_apply_in_order() {
    let mut zone = build_zone("example.org", default_zone());
    let ops = vec![
        ZoneOp::AddRRset(a("x.example.org", 60, &["10.1.1.1"])),
        ZoneOp::DeleteRRset(name("x.example.org"), RRType::A),
        ZoneOp::AddRRset(a("y.example.org", 60, &["10.1.1.2"])),
    ];
    apply_ops(&mut zone, &ops).unwrap();
    assert_eq!(zone.find(&name("x.example.org"), RRType::A, FindOption::FollowZoneCut).rrset, None);
    assert_eq!(zone.find(&name("y.example.org"), RRType::A, FindOption::FollowZoneCut).rrset, Some(a("y.example.org", 60, &["10.1.1.2"])));
}

#[test]
fn zone_refusal_carries_the_first_error() {
    let bad = load_zone(
        name("example.org"),
        vec![a("www.example.org", 1, &["1.1.1.1"]), rrset("x.example.org", 1, RRType::A, vec![]), a("www.example.com", 1, &["1.1.1.1"])],
    );
    assert!(matches!(bad, Err(DataSrcError::RRsetHasNoRdata)));
    let mut zones = AuthZone::new();
    let r = zones.add_zone(name("example.org"), vec![a("www.example.com", 1, &["1.1.1.1"])]);
    assert!(matches!(r, Err(AuthError::InvalidZone(DataSrcError::OutOfZone))));
    let r = zones.add_zone(
        name("example.org"),
        vec![rrset("c.example.org", 1, RRType::CNAME, vec![RData::CName(name("a.b")), RData::CName(name("c.d"))])],
    );
    assert!(matches!(r, Err(AuthError::InvalidZone(DataSrcError::ExclusiveRRsetHasMoreThanOneRdata))));
}
