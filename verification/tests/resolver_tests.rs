use dns_server::cache::trust_level::RRsetTrustLevel as CacheTrust;
use dns_server::message::{HeaderFlag, Message, Rcode};
use dns_server::name::Name;
use dns_server::resolver::cache::{MessageCache, RRsetTrustLevel};
use dns_server::resolver::error::RecursorError;
use dns_server::resolver::message_classifier::{classify_response, InvalidReason, ResponseCategory};
use dns_server::resolver::nsas::address_entry::{AddressEntry, IpAddress, UNREACHABLE_RTT};
use dns_server::resolver::nsas::address_selector;
use dns_server::resolver::nsas::message_util::{message_to_address_entry, message_to_nameserver_entry, rrset_to_address_entry};
use dns_server::resolver::nsas::nameserver_entry::{Nameserver, NameserverCache, NameserverEntry};
use dns_server::resolver::nsas::nameserver_fetcher::NameserverFetcher;
use dns_server::resolver::nsas::ns_address_store::NSAddressStore;
use dns_server::resolver::nsas::zone_cache::{ZoneCache, ZoneEntry};
use dns_server::resolver::recursor::Recursor;
use dns_server::resolver::running_query::QueryStep;
use dns_server::resolver::sender::{on_send_event, SendEvent};
use dns_server::rr::{RData, RRType, RRset, CLASS_IN};

fn name(s: &str) -> Name {
    Name::new(s.split('.').filter(|l| !l.is_empty()).map(|l| l.as_bytes().to_vec()).collect())
}

fn ip4(s: &str) -> u32 {
    s.split('.').fold(0u32, |acc, p| acc * 256 + p.parse::<u32>().unwrap())
}

fn set(n: &str, typ: RRType, rdatas: Vec<RData>) -> RRset {
    RRset { name: name(n), typ, class: CLASS_IN, ttl: 300, rdatas }
}

fn a(n: &str, ips: &[&str]) -> RRset {
    set(n, RRType::A, ips.iter().map(|i| RData::A(ip4(i))).collect())
}

fn ns_set(n: &str, targets: &[String]) -> RRset {
    set(n, RRType::NS, targets.iter().map(|t| RData::NS(name(t))).collect())
}

fn cname(n: &str, target: &str) -> RRset {
    set(n, RRType::CNAME, vec![RData::CName(name(target))])
}

fn response(qname: &str, qtype: RRType) -> Message {
    let mut m = Message::with_query(name(qname), qtype);
    m.header.id = 0xcb7b;
    m.set_flag(HeaderFlag::QueryRespone);
    m
}

#[test]
fn test_classify_message() {
    let gtld: Vec<String> = "lbcdefgahijkm".chars().map(|c| format!("{}.gtld-servers.net.", c)).collect();
    let mut referral = response("baidu.com.", RRType::A);
    referral.add_auth(ns_set("com.", &gtld));
    referral.add_additional(a("l.gtld-servers.net.", &["192.41.162.30"]));
    assert_eq!(classify_response(&name("baidu.com."), RRType::A, &referral), ResponseCategory::Referral);

    let mut chain = response("www.baidu.com.", RRType::A);
    chain.add_answer(cname("www.baidu.com.", "www.a.shifen.com."));
    chain.add_answer(cname("www.a.shifen.com.", "www.wshifen.com."));
    chain.add_answer(a("www.wshifen.com.", &["104.193.88.77", "104.193.88.123"]));
    assert_eq!(classify_response(&name("www.baidu.com."), RRType::A, &chain), ResponseCategory::AnswerCName);

    let mut one_cname = response("www.baidu.com.", RRType::A);
    one_cname.add_answer(cname("www.baidu.com.", "www.a.shifen.com."));
    one_cname.add_auth(ns_set("a.shifen.com.", &["ns1.a.shifen.com.".to_string(), "ns2.a.shifen.com.".to_string()]));
    assert_eq!(
        classify_response(&name("www.baidu.com."), RRType::A, &one_cname),
        ResponseCategory::CName(name("www.a.shifen.com."))
    );

    let mut answer = response("www.google.com.", RRType::A);
    answer.add_answer(a("www.google.com.", &["172.217.160.100"]));
    assert_eq!(classify_response(&name("www.google.com."), RRType::A, &answer), ResponseCategory::Answer);
}

#[test]
fn classify_rejects_what_does_not_answer() {
    let query = Message::with_query(name("a.cn"), RRType::A);
    assert_eq!(classify_response(&name("a.cn"), RRType::A, &query), ResponseCategory::Invalid(InvalidReason::NotResponse));
    let resp = response("a.cn", RRType::A);
    assert_eq!(classify_response(&name("b.cn"), RRType::A, &resp), ResponseCategory::Invalid(InvalidReason::QuestionMismatch));
    assert_eq!(classify_response(&name("a.cn"), RRType::A, &resp), ResponseCategory::Invalid(InvalidReason::EmptyResponse));
    let mut nx = response("a.cn", RRType::A);
    nx.set_rcode(Rcode::NXDomain);
    assert_eq!(classify_response(&name("a.cn"), RRType::A, &nx), ResponseCategory::NXDomain);
}

fn sample_addresses() -> Vec<AddressEntry> {
    vec![
        AddressEntry::new(IpAddress::V4(ip4("1.1.1.1")), 0),
        AddressEntry::new(IpAddress::V6(1), 1),
        AddressEntry::new(IpAddress::V4(ip4("2.2.2.2")), 2),
    ]
}

#[test]
fn address_entry_test_address_selector() {
    let addresses = sample_addresses();
    let target = dns_server::resolver::nsas::address_entry::select_address(&addresses);
    assert_eq!(target.unwrap().get_addr(), IpAddress::V4(ip4("1.1.1.1")));
}

#[test]
fn address_selector_test_address_selector() {
    let addresses = sample_addresses();
    let target = address_selector::select_address(&addresses);
    assert_eq!(target.unwrap().get_addr(), IpAddress::V4(ip4("1.1.1.1")));
}

#[test]
fn selector_prefers_fastest_v4_and_first_on_ties() {
    let addresses = vec![
        AddressEntry::new(IpAddress::V6(1), 0),
        AddressEntry::new(IpAddress::V4(5), 7),
        AddressEntry::new(IpAddress::V4(6), 3),
        AddressEntry::new(IpAddress::V4(7), 3),
    ];
    assert_eq!(address_selector::select_address(&addresses).unwrap().get_addr(), IpAddress::V4(6));
    assert!(address_selector::select_address(&vec![AddressEntry::new(IpAddress::V6(1), 0)]).is_none());
}

#[test]
fn unreachable_address_reports_unreachable_rtt() {
    let mut e = AddressEntry::new(IpAddress::V4(1), 10);
    assert!(e.is_reachable());
    e.set_unreachable_at(0);
    assert!(!e.is_reachable());
    assert_eq!(e.get_rtt(), UNREACHABLE_RTT);
    e.set_rtt_at(20, 1);
    assert_eq!(e.get_rtt(), UNREACHABLE_RTT);
    assert_eq!(e.rtt(), 20);
}

#[test]
fn test_nameserver_cache() {
    let mut cache = NameserverCache::new(10);
    let entry = NameserverEntry::new(name("n1"), vec![AddressEntry::new(IpAddress::V4(ip4("1.1.1.1")), 0)]);
    cache.add_nameserver(entry);
    let found = cache.get_nameserver(&name("n1"));
    assert!(found.is_some());
    assert_eq!(found.unwrap().address, IpAddress::V4(ip4("1.1.1.1")));
    assert!(cache.get_nameserver(&name("n2")).is_none());
}

#[test]
fn nameserver_entry_updates_first_matching_address() {
    let mut entry = NameserverEntry::new(
        name("n1"),
        vec![AddressEntry::new(IpAddress::V4(1), 50), AddressEntry::new(IpAddress::V4(2), 40)],
    );
    assert_eq!(entry.select_nameserver().address, IpAddress::V4(2));
    entry.update_address_rtt_at(IpAddress::V4(1), 10, 0);
    assert_eq!(entry.select_nameserver().address, IpAddress::V4(1));
    entry.set_address_unreachable_at(IpAddress::V4(1), 0);
    assert_eq!(entry.get_addresses()[0].get_rtt(), UNREACHABLE_RTT);
}

fn ns_response(zone: &str, servers: &[String]) -> Message {
    let mut m = response(zone, RRType::NS);
    m.add_answer(ns_set(zone, servers));
    m
}

#[test]
fn test_create_nameserver_from_message() {
    let letters: Vec<char> = "lmdejgfbakhic".chars().collect();
    let gtld: Vec<String> = letters.iter().map(|c| format!("{}.gtld-servers.net.", c)).collect();
    let mut com = ns_response("com.", &gtld);
    for (i, n) in gtld.iter().enumerate() {
        com.add_additional(a(n, &[&format!("192.0.2.{}", i)]));
        com.add_additional(set(n, RRType::AAAA, vec![RData::AAAA(i as u128)]));
    }
    let (entries, missing_names) = message_to_nameserver_entry(&name("com"), com).unwrap();
    assert!(missing_names.is_empty());
    assert_eq!(entries.len(), 13);

    let amazon: Vec<String> = vec!["ns3.p31.dynect.net.", "ns2.p31.dynect.net.", "ns1.p31.dynect.net.", "pdns1.ultradns.net.", "pdns6.ultradns.co.uk.", "ns4.p31.dynect.net."]
        .into_iter()
        .map(|s| s.to_string())
        .collect();
    let (entries, missing_names) = message_to_nameserver_entry(&name("amazon.com"), ns_response("amazon.com.", &amazon)).unwrap();
    assert!(entries.is_empty());
    assert_eq!(missing_names.len(), 6);

    let huawei: Vec<String> = vec!["nsallsec.huawei.com.", "nsall4th.huawei.com.", "nsall3rd.huawei.com.", "nsall.huawei.com."]
        .into_iter()
        .map(|s| s.to_string())
        .collect();
    let mut msg = ns_response("huawei.com.", &huawei);
    msg.add_additional(a("nsall.huawei.com.", &["45.249.212.230"]));
    msg.add_additional(a("nsall3rd.huawei.com.", &["116.66.184.201", "168.195.93.41"]));
    msg.add_additional(a("nsall4th.huawei.com.", &["122.96.104.66"]));
    msg.add_additional(a("nsallsec.huawei.com.", &["185.176.76.229"]));
    let (entries, missing_names) = message_to_nameserver_entry(&name("huawei.com"), msg).unwrap();
    assert!(missing_names.is_empty());
    assert_eq!(entries.len(), 4);
}

#[test]
fn nameserver_message_without_answer_is_refused() {
    let mut m = response("com.", RRType::NS);
    m.set_rcode(Rcode::NXDomain);
    assert!(message_to_nameserver_entry(&name("com"), m).is_err());
}

#[test]
fn address_message_gives_addresses() {
    let mut m = response("ns1.a.cn", RRType::A);
    m.add_answer(a("ns1.a.cn", &["1.2.3.4", "5.6.7.8"]));
    let addrs = message_to_address_entry(&name("ns1.a.cn"), m).unwrap();
    assert_eq!(addrs.len(), 2);
    assert_eq!(addrs[1].get_addr(), IpAddress::V4(ip4("5.6.7.8")));
    let v6 = set("x", RRType::AAAA, vec![RData::AAAA(9)]);
    assert_eq!(rrset_to_address_entry(&v6)[0].get_addr(), IpAddress::V6(9));
}

#[test]
fn test_fetch_all() {
    let names = vec![name("ns1.knet.cn"), name("ns2.knet.cn"), name("ns3.knet.cn")];
    let mut store = NSAddressStore::new();
    let mut fetcher = NameserverFetcher::new(names);
    assert_eq!(store.nameserver_count(), 0);
    while let Some(query) = fetcher.next_query() {
        let q = query.question.as_ref().unwrap();
        let mut resp = response("x", RRType::A);
        resp.question = Some(dns_server::message::Question { name: q.name.copy(), typ: q.typ });
        resp.set_flag(HeaderFlag::AuthAnswer);
        resp.set_flag(HeaderFlag::RecursionDesired);
        resp.add_answer(RRset { name: q.name.copy(), typ: RRType::A, class: CLASS_IN, ttl: 2000, rdatas: vec![RData::A(ip4("1.1.1.1"))] });
        fetcher.on_response(resp, &mut store);
    }
    assert_eq!(store.nameserver_count(), 3);
}

#[test]
fn zone_cache_chooses_fastest_known_server() {
    let mut servers = NameserverCache::new(10);
    servers.add_nameserver(NameserverEntry::new(name("ns1.a.cn"), vec![AddressEntry::new(IpAddress::V4(1), 30)]));
    servers.add_nameserver(NameserverEntry::new(name("ns2.a.cn"), vec![AddressEntry::new(IpAddress::V4(2), 20)]));
    let mut zones = ZoneCache::new(10);
    zones.add_zone_at(ZoneEntry::new_at(name("a.cn"), vec![name("ns1.a.cn"), name("ns2.a.cn"), name("ns3.a.cn")], 100, 0), 0);
    let (server, missing) = zones.get_nameserver_at(&name("a.cn"), &mut servers, 1);
    assert_eq!(server.unwrap().address, IpAddress::V4(2));
    assert_eq!(missing, vec![name("ns3.a.cn")]);
    let (server, missing) = zones.get_nameserver_at(&name("a.cn"), &mut servers, 200_000_000_000);
    assert!(server.is_none());
    assert!(missing.is_empty());
    assert_eq!(zones.len(), 0);
}

#[test]
fn store_marks_missing_servers_for_probing_once() {
    let mut store = NSAddressStore::new();
    store.add_nameserver(NameserverEntry::new(name("ns1.a.cn"), vec![AddressEntry::new(IpAddress::V4(1), 30)]));
    store.add_zone_at(ZoneEntry::new_at(name("a.cn"), vec![name("ns1.a.cn"), name("ns2.a.cn")], 100, 0), 0);
    let (server, probe) = store.get_nameserver_at(&name("a.cn"), 1);
    assert_eq!(server.unwrap().name, name("ns1.a.cn"));
    assert_eq!(probe, vec![name("ns2.a.cn")]);
    let (_, probe) = store.get_nameserver_at(&name("a.cn"), 2);
    assert!(probe.is_empty());
    store.probe_done(&vec![name("ns2.a.cn")]);
    let (_, probe) = store.get_nameserver_at(&name("a.cn"), 3);
    assert_eq!(probe, vec![name("ns2.a.cn")]);
    assert!(store.get_nameserver_at(&name("b.cn"), 3).0.is_none());
}

#[test]
fn sender_records_round_trip_times() {
    let mut store = NSAddressStore::new();
    store.add_nameserver(NameserverEntry::new(name("ns1.a.cn"), vec![AddressEntry::new(IpAddress::V4(1), 30)]));
    store.add_zone_at(ZoneEntry::new_at(name("a.cn"), vec![name("ns1.a.cn")], 100, 0), 0);
    let mut server = Nameserver { name: name("ns1.a.cn"), address: IpAddress::V4(1), rtt: 30 };
    assert!(on_send_event(&mut server, &mut store, SendEvent::Replied(5), 1).is_ok());
    assert_eq!(store.get_nameserver_at(&name("a.cn"), 2).0.unwrap().rtt, 5);
    let r = on_send_event(&mut server, &mut store, SendEvent::TimedOut, 3);
    assert!(matches!(r, Err(RecursorError::Timeout(IpAddress::V4(1)))));
    assert_eq!(store.get_nameserver_at(&name("a.cn"), 4).0.unwrap().rtt, 1000);
    let r = on_send_event(&mut server, &mut store, SendEvent::SendFailed("refused".to_string()), 5);
    assert!(matches!(r, Err(RecursorError::IoError(_))));
    assert_eq!(store.get_nameserver_at(&name("a.cn"), 6).0.unwrap().rtt, UNREACHABLE_RTT);
}

#[test]
fn running_query_resolves_through_a_referral() {
    let mut recursor = Recursor::new();
    let mut q = recursor.handle_query(Message::with_query(name("www.a.cn"), RRType::A));
    assert!(matches!(q.start_at(&mut recursor.cache, &mut recursor.nsas, 0), Err(RecursorError::NoNameserver)));

    let mut q = recursor.handle_query(Message::with_query(name("www.a.cn"), RRType::A));
    recursor.cache.add_rrset_at(ns_set("cn.", &["ns.cn.".to_string()]), RRsetTrustLevel::PrimNonGlue, 0);
    recursor.nsas.add_nameserver(NameserverEntry::new(name("ns.cn"), vec![AddressEntry::new(IpAddress::V4(9), 1)]));
    recursor.nsas.add_zone_at(ZoneEntry::new_at(name("cn"), vec![name("ns.cn")], 100, 0), 0);
    match q.start_at(&mut recursor.cache, &mut recursor.nsas, 1).unwrap() {
        QueryStep::Ask { server, .. } => assert_eq!(server.address, IpAddress::V4(9)),
        _ => panic!("expected a server to ask"),
    }

    let mut referral = response("www.a.cn", RRType::A);
    referral.add_auth(ns_set("a.cn.", &["ns.a.cn.".to_string()]));
    assert!(q.handle_response_at(referral, &mut recursor.cache, 2).unwrap().is_none());
    assert_eq!(q.current_zone(), &Some(name("a.cn")));
    match q.start_at(&mut recursor.cache, &mut recursor.nsas, 3).unwrap() {
        QueryStep::FetchZone { zone, depth } => {
            assert_eq!(zone, name("a.cn"));
            assert_eq!(depth, 1);
        },
        _ => panic!("expected the zone to be fetched"),
    }

    let mut answer = response("www.a.cn", RRType::A);
    answer.add_answer(a("www.a.cn", &["7.7.7.7"]));
    let done = q.handle_response_at(answer, &mut recursor.cache, 4).unwrap().unwrap();
    assert!(done.header.flags.qr);
    assert_eq!(done.answer, vec![a("www.a.cn", &["7.7.7.7"])]);
    assert_eq!(done.question.as_ref().unwrap().name, name("www.a.cn"));

    let mut again = recursor.handle_query(Message::with_query(name("www.a.cn"), RRType::A));
    match again.start_at(&mut recursor.cache, &mut recursor.nsas, 5).unwrap() {
        QueryStep::Done(m) => {
            assert_eq!(m.answer.len(), 1);
            assert_eq!(m.answer[0].rdatas, vec![RData::A(ip4("7.7.7.7"))]);
            assert_eq!(m.answer[0].ttl, 299);
        },
        _ => panic!("expected a cached answer"),
    }
}

#[test]
fn running_query_follows_cnames_and_fails_on_bad_answers() {
    let recursor = Recursor::new();
    let mut cache = MessageCache::new(10);
    let mut q = recursor.new_query(Message::with_query(name("www.a.cn"), RRType::A), 2);
    let mut c = response("www.a.cn", RRType::A);
    c.add_answer(cname("www.a.cn", "web.b.cn"));
    assert!(q.handle_response_at(c, &mut cache, 0).unwrap().is_none());
    let next = q.query().as_ref().unwrap();
    assert_eq!(next.question.as_ref().unwrap().name, name("web.b.cn"));
    assert_eq!(q.depth(), 2);

    let bad = response("web.b.cn", RRType::A);
    let failed = q.handle_response_at(bad, &mut cache, 1).unwrap().unwrap();
    assert_eq!(failed.header.rcode, Rcode::ServFail);
    assert_eq!(failed.answer, vec![cname("www.a.cn", "web.b.cn")]);
}

#[test]
fn trust_levels_map_by_name() {
    assert_eq!(RRsetTrustLevel::PrimGlue.to_cache_level(), CacheTrust::PrimGlue);
    assert!(CacheTrust::AnswerWithAA.is_above(CacheTrust::AuthorityWithAA));
    assert!(!CacheTrust::Default.is_above(CacheTrust::Default));
}

#[test]
fn nameserver_found_after_add_replaces_old_entry() {
    let mut cache = NameserverCache::new(1);
    cache.add_nameserver(NameserverEntry::new(name("n1"), vec![AddressEntry::new(IpAddress::V4(1), 30)]));
    cache.add_nameserver(NameserverEntry::new(name("n1"), vec![AddressEntry::new(IpAddress::V4(7), 20), AddressEntry::new(IpAddress::V4(8), 10)]));
    assert_eq!(cache.len(), 1);
    let found = cache.get_nameserver(&name("n1")).unwrap();
    assert_eq!(found.address, IpAddress::V4(8));
    cache.add_nameserver(NameserverEntry::new(name("n2"), vec![AddressEntry::new(IpAddress::V6(9), 10)]));
    assert_eq!(cache.len(), 1);
    assert!(cache.get_nameserver(&name("n1")).is_none());
    assert!(cache.get_nameserver(&name("n2")).is_none());
}

#[test]
fn zone_cache_keeps_unexpired_entry_on_add() {
    let mut zones = ZoneCache::new(4);
    let mut servers = NameserverCache::new(4);
    servers.add_nameserver(NameserverEntry::new(name("ns1.example"), vec![AddressEntry::new(IpAddress::V4(11), 5)]));
    servers.add_nameserver(NameserverEntry::new(name("ns2.example"), vec![AddressEntry::new(IpAddress::V4(22), 5)]));
    zones.add_zone_at(ZoneEntry::new_at(name("example"), vec![name("ns1.example")], 10, 0), 0);
    zones.add_zone_at(ZoneEntry::new_at(name("example"), vec![name("ns2.example")], 10, 0), 1);
    assert_eq!(zones.len(), 1);
    let (server, missing) = zones.get_nameserver_at(&name("example"), &mut servers, 2);
    assert_eq!(server.unwrap().address, IpAddress::V4(11));
    assert!(missing.is_empty());

    let expired_at: u64 = 10 * 1_000_000_000;
    zones.add_zone_at(ZoneEntry::new_at(name("example"), vec![name("ns2.example")], 10, expired_at), expired_at);
    let (server, _) = zones.get_nameserver_at(&name("example"), &mut servers, expired_at + 1);
    assert_eq!(server.unwrap().address, IpAddress::V4(22));
}

#[test]
fn fetcher_from_store_asks_for_the_last_name_first() {
    let store = NSAddressStore::new();
    let mut fetcher = store.fetch_nameservers(vec![name("ns1.knet.cn"), name("ns2.knet.cn")]);
    let q = fetcher.next_query().unwrap();
    assert_eq!(q.question.as_ref().unwrap().name, name("ns2.knet.cn"));
    assert_eq!(q.question.as_ref().unwrap().typ, RRType::A);
    fetcher.on_error();
    let q = fetcher.next_query().unwrap();
    assert_eq!(q.question.as_ref().unwrap().name, name("ns1.knet.cn"));
    assert!(fetcher.next_query().is_none());
}

#[test]
fn response_without_question_fails_the_query() {
    let recursor = Recursor::new();
    let mut cache = MessageCache::new(10);
    let mut q = recursor.new_query(Message::with_query(name("www.a.cn"), RRType::A), 2);
    let mut bare = response("www.a.cn", RRType::A);
    bare.question = None;
    bare.add_answer(a("www.a.cn", &["1.2.3.4"]));
    let failed = q.handle_response_at(bare, &mut cache, 0).unwrap().unwrap();
    assert_eq!(failed.header.rcode, Rcode::ServFail);
    assert!(failed.answer.is_empty());
    assert_eq!(cache.len(), 0);
}

#[test]
fn referral_to_other_sets_without_zone_fails_the_query() {
    let recursor = Recursor::new();
    let mut cache = MessageCache::new(10);
    let mut q = recursor.new_query(Message::with_query(name("www.a.cn"), RRType::A), 2);
    let mut referral = response("www.a.cn", RRType::A);
    referral.add_auth(ns_set("a.cn.", &["ns1.a.cn.".to_string()]));
    referral.add_auth(ns_set("b.cn.", &["ns1.b.cn.".to_string()]));
    let failed = q.handle_response_at(referral, &mut cache, 0).unwrap().unwrap();
    assert_eq!(failed.header.rcode, Rcode::ServFail);
}

#[test]
fn unmatched_glue_may_be_anything() {
    let mut m = ns_response("a.cn.", &["ns1.a.cn.".to_string(), "ns2.a.cn.".to_string()]);
    m.add_additional(a("ns1.a.cn.", &["10.0.0.1"]));
    m.add_additional(set("other.cn.", RRType::A, vec![]));
    m.add_additional(set("more.cn.", RRType::AAAA, vec![RData::NS(name("x.cn"))]));
    let (entries, missing) = message_to_nameserver_entry(&name("a.cn"), m).unwrap();
    assert_eq!(entries.len(), 1);
    assert_eq!(entries[0].get_name(), &name("ns1.a.cn"));
    assert_eq!(missing, vec![name("ns2.a.cn")]);
}

#[test]
fn every_ns_target_is_either_learned_or_missing() {
    let servers = vec!["ns1.a.cn.".to_string(), "ns2.a.cn.".to_string(), "ns3.a.cn.".to_string()];
    let mut m = ns_response("a.cn.", &servers);
    m.add_additional(a("ns3.a.cn.", &["10.0.0.3"]));
    m.add_additional(a("ns1.a.cn.", &["10.0.0.1"]));
    m.add_additional(a("ns1.a.cn.", &["10.0.0.9"]));
    let (entries, missing) = message_to_nameserver_entry(&name("a.cn"), m).unwrap();
    let mut learned: Vec<Name> = entries.iter().map(|e| e.get_name().copy()).collect();
    assert_eq!(learned.len(), 2);
    assert_eq!(missing, vec![name("ns2.a.cn")]);
    learned.extend(missing);
    for s in &servers {
        assert!(learned.contains(&name(s)));
    }
    let ns1 = entries.iter().find(|e| e.get_name() == &name("ns1.a.cn")).unwrap();
    assert_eq!(ns1.get_addresses()[0].get_addr(), IpAddress::V4(ip4("10.0.0.1")));
}
