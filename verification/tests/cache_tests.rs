use dns_server::cache::message_cache::MessageLruCache;
use dns_server::cache::message_entry::MessageEntry;
use dns_server::cache::rrset_cache::RRsetLruCache;
use dns_server::cache::rrset_entry::RRsetEntry;
use dns_server::cache::trust_level::RRsetTrustLevel;
use dns_server::message::{HeaderFlag, Message, Rcode, SectionType};
use dns_server::name::Name;
use dns_server::resolver::cache::{MessageCache, RRsetTrustLevel as ResolverTrustLevel};
use dns_server::resolver::message_classifier::ResponseCategory;
use dns_server::rr::{RData, RRType, RRset, CLASS_IN};

fn name(s: &str) -> Name {
    Name::new(s.split('.').filter(|l| !l.is_empty()).map(|l| l.as_bytes().to_vec()).collect())
}

fn ip4(s: &str) -> u32 {
    s.split('.').fold(0u32, |acc, p| acc * 256 + p.parse::<u32>().unwrap())
}

fn a(n: &str, ttl: u32, ips: &[&str]) -> RRset {
    RRset { name: name(n), typ: RRType::A, class: CLASS_IN, ttl, rdatas: ips.iter().map(|i| RData::A(ip4(i))).collect() }
}

fn ns(n: &str, ttl: u32, target: &str) -> RRset {
    RRset { name: name(n), typ: RRType::NS, class: CLASS_IN, ttl, rdatas: vec![RData::NS(name(target))] }
}

fn now_nanos() -> u64 {
    std::time::SystemTime::now().duration_since(std::time::UNIX_EPOCH).unwrap().as_nanos() as u64
}

fn build_positive_response() -> Message {
    let mut msg = Message::with_query(name("test.example.com."), RRType::A);
    msg.header.id = 1200;
    msg.set_rcode(Rcode::NoError);
    msg.set_flag(HeaderFlag::RecursionDesired);
    msg.add_answer(a("test.example.com.", 3600, &["192.0.2.2", "192.0.2.1"]));
    msg.add_auth(ns("example.com.", 10, "ns1.example.com."));
    msg.add_additional(a("ns1.example.com.", 3600, &["2.2.2.2"]));
    msg
}

fn build_negative_response() -> Message {
    let mut msg = Message::with_query(name("test.example.com."), RRType::A);
    msg.header.id = 1200;
    msg.set_rcode(Rcode::NXDomain);
    msg.set_flag(HeaderFlag::RecursionDesired);
    msg.add_auth(RRset {
        name: name("example.com."),
        typ: RRType::SOA,
        class: CLASS_IN,
        ttl: 30,
        rdatas: vec![RData::SOA {
            mname: name("a.gtld-servers.net."),
            rname: name("nstld.verisign-grs.com."),
            serial: 1563935574,
            refresh: 1800,
            retry: 900,
            expire: 604800,
            minimum: 86400,
        }],
    });
    msg
}

#[test]
fn rrset_cache_test_rrset_cache() {
    let mut cache = RRsetLruCache::new(2);
    let rrset = a("www.zdns.cn", 300, &["1.1.1.1"]);
    assert!(cache.get_rrset(&rrset.name, rrset.typ).is_none());
    cache.add_rrset(rrset.copy(), RRsetTrustLevel::NonAuthAnswerWithAA);
    let insert_rrset = cache.get_rrset(&rrset.name, rrset.typ).unwrap();
    assert_eq!(insert_rrset.rdatas, rrset.rdatas);

    let low_trust_level_rrset = a("www.zdns.cn", 300, &["2.2.2.2"]);
    cache.add_rrset(low_trust_level_rrset.copy(), RRsetTrustLevel::AdditionalWithoutAA);
    let insert_rrset = cache.get_rrset(&rrset.name, rrset.typ).unwrap();
    assert_eq!(insert_rrset.rdatas, rrset.rdatas);

    cache.add_rrset(low_trust_level_rrset.copy(), RRsetTrustLevel::PrimNonGlue);
    let insert_rrset = cache.get_rrset(&rrset.name, rrset.typ).unwrap();
    assert_eq!(insert_rrset.rdatas, low_trust_level_rrset.rdatas);
    assert_eq!(cache.len(), 1);

    cache.add_rrset(a("www1.zdns.cn", 300, &["1.1.1.1"]), RRsetTrustLevel::NonAuthAnswerWithAA);
    cache.add_rrset(a("www2.zdns.cn", 300, &["1.1.1.1"]), RRsetTrustLevel::NonAuthAnswerWithAA);
    assert_eq!(cache.len(), 2);
    assert!(cache.get_rrset(&name("www.zdns.cn"), RRType::A).is_none());
    assert!(cache.get_rrset(&name("www1.zdns.cn"), RRType::A).is_some());
}

#[test]
fn rrset_cache_test_rrset_cache_bench() {
    let mut cache = RRsetLruCache::new(10);
    assert_eq!(cache.len(), 0);
    for i in 0..1000 {
        let rrset = a(&format!("www{}.zdns.cn", i), 300, &["1.1.1.1"]);
        cache.add_rrset(rrset, RRsetTrustLevel::NonAuthAnswerWithAA);
    }
    assert_eq!(cache.len(), 10);
    for i in 0..989 {
        assert!(cache.get_rrset(&name(&format!("www{}.zdns.cn", i)), RRType::A).is_none());
    }
    for i in 990..1000 {
        assert!(cache.get_rrset(&name(&format!("www{}.zdns.cn", i)), RRType::A).is_some());
    }
}

#[test]
fn test_rrset_entry() {
    let rrset = a("www.zdns.cn", 300, &["2.2.2.2"]);
    let entry = RRsetEntry::new(rrset.copy(), RRsetTrustLevel::AdditionalWithoutAA);
    assert_eq!(entry.key(), (name("www.zdns.cn").to_labels(), RRType::A.code()));
    let mut rrset_with_new_ttl = entry.get_rrset().unwrap();
    assert!(rrset_with_new_ttl.ttl != rrset.ttl);
    rrset_with_new_ttl.ttl = rrset.ttl;
    assert_eq!(rrset_with_new_ttl, rrset);
}

#[test]
fn rrset_entry_expires() {
    let entry = RRsetEntry::new_at(a("www.zdns.cn", 2, &["2.2.2.2"]), RRsetTrustLevel::Default, 1_000_000_000);
    assert_eq!(entry.expire_time(), 3_000_000_000);
    assert_eq!(entry.get_rrset_at(1_500_000_000).unwrap().ttl, 1);
    assert!(entry.get_rrset_at(3_000_000_000).is_none());
    assert!(entry.is_expired_at(3_000_000_000));
    assert!(!entry.is_expired_at(2_999_999_999));
}

#[test]
fn trusted_set_is_kept_until_it_expires() {
    let mut cache = RRsetLruCache::new(4);
    cache.add_rrset_at(a("a.cn", 10, &["1.1.1.1"]), RRsetTrustLevel::AnswerWithAA, 0);
    cache.add_rrset_at(a("a.cn", 10, &["2.2.2.2"]), RRsetTrustLevel::AdditionalWithAA, 5_000_000_000);
    assert_eq!(cache.get_rrset_at(&name("a.cn"), RRType::A, 6_000_000_000).unwrap().rdatas, vec![RData::A(ip4("1.1.1.1"))]);
    cache.add_rrset_at(a("a.cn", 10, &["2.2.2.2"]), RRsetTrustLevel::AdditionalWithAA, 10_000_000_000);
    assert_eq!(cache.get_rrset_at(&name("a.cn"), RRType::A, 11_000_000_000).unwrap().rdatas, vec![RData::A(ip4("2.2.2.2"))]);
    assert!(cache.get_rrset_at(&name("a.cn"), RRType::A, 20_000_000_000).is_none());
    assert_eq!(cache.len(), 0);
}

#[test]
fn zero_capacity_cache_keeps_nothing() {
    let mut cache = RRsetLruCache::new(0);
    cache.add_rrset(a("a.cn", 10, &["1.1.1.1"]), RRsetTrustLevel::PrimNonGlue);
    assert_eq!(cache.len(), 0);
    assert!(!cache.has_rrset(&name("a.cn"), RRType::A));
}

#[test]
fn lookup_makes_a_set_most_recent() {
    let mut cache = RRsetLruCache::new(2);
    cache.add_rrset_at(a("a.cn", 100, &["1.1.1.1"]), RRsetTrustLevel::Default, 0);
    cache.add_rrset_at(a("b.cn", 100, &["1.1.1.1"]), RRsetTrustLevel::Default, 0);
    assert!(cache.get_rrset_at(&name("a.cn"), RRType::A, 1).is_some());
    cache.add_rrset_at(a("c.cn", 100, &["1.1.1.1"]), RRsetTrustLevel::Default, 2);
    assert!(cache.has_rrset(&name("a.cn"), RRType::A));
    assert!(!cache.has_rrset(&name("b.cn"), RRType::A));
}

#[test]
fn ns_answer_carries_glue() {
    let mut cache = RRsetLruCache::new(10);
    cache.add_rrset_at(ns("example.com", 100, "ns1.example.com"), RRsetTrustLevel::Default, 0);
    cache.add_rrset_at(a("ns1.example.com", 100, &["3.3.3.3"]), RRsetTrustLevel::Default, 0);
    let mut msg = Message::with_query(name("example.com"), RRType::NS);
    assert!(cache.gen_response_at(&name("example.com"), RRType::NS, &mut msg, 0));
    assert!(msg.header.flags.qr && msg.header.flags.ra);
    assert_eq!(msg.answer.len(), 1);
    assert_eq!(msg.additional, vec![a("ns1.example.com", 100, &["3.3.3.3"])]);
    let mut msg = Message::with_query(name("other.com"), RRType::A);
    assert!(!cache.gen_response_at(&name("other.com"), RRType::A, &mut msg, 0));
    assert!(!msg.header.flags.qr);
}

#[test]
fn test_message_cache() {
    let mut cache = MessageLruCache::new(10);
    let mut query = Message::with_query(name("test.example.com."), RRType::A);
    assert!(!cache.gen_response(&mut query));
    cache.add_message(build_positive_response());
    assert!(cache.gen_response(&mut query));
    assert_eq!(query.header.rcode, Rcode::NoError);
    assert!(query.is_flag_set(HeaderFlag::QueryRespone));
    assert!(!query.is_flag_set(HeaderFlag::AuthenticData));
    assert_eq!(query.rr_count_of(SectionType::Answer), 2);
    let answers = query.section(SectionType::Answer);
    assert_eq!(answers.len(), 1);
    assert_eq!(answers[0].rdatas[0], RData::A(ip4("192.0.2.2")));
}

#[test]
fn message_cache_of_capacity_zero_uses_default() {
    let cache = MessageLruCache::new(0);
    assert_eq!(cache.len(), 0);
}

#[test]
fn uncacheable_response_is_not_stored() {
    let mut cache = MessageLruCache::new(10);
    let mut msg = Message::with_query(name("x.example.com."), RRType::A);
    msg.set_rcode(Rcode::NXDomain);
    cache.add_message(msg);
    assert_eq!(cache.len(), 0);
}

#[test]
fn test_positive_message() {
    let message = build_positive_response();
    let mut positive_cache = RRsetLruCache::new(100);
    let mut negative_cache = RRsetLruCache::new(100);
    let before = now_nanos();
    let entry = MessageEntry::new(message.copy(), &mut positive_cache, &mut negative_cache);
    assert_eq!(positive_cache.len(), 3);
    assert_eq!(negative_cache.len(), 0);
    assert_eq!(entry.name(), &name("test.example.com"));
    assert_eq!(entry.typ(), RRType::A);
    assert_eq!(entry.answer_count(), 1);
    assert_eq!(entry.auth_count(), 1);
    assert_eq!(entry.additional_count(), 1);
    assert_eq!(entry.rrset_refs().len(), 3);
    assert!(entry.expire_time() < now_nanos() + 10_000_000_000);
    assert!(entry.expire_time() >= before + 10_000_000_000);

    let mut query = Message::with_query(name("test.example.com."), RRType::A);
    assert!(entry.fill_message(&mut query, &mut positive_cache, &mut negative_cache));
    assert_eq!(query.question.as_ref().unwrap().name, message.question.as_ref().unwrap().name);
    assert_eq!(query.rr_count_of(SectionType::Answer), message.rr_count_of(SectionType::Answer));
    assert_eq!(query.rr_count_of(SectionType::Authority), message.rr_count_of(SectionType::Authority));
    assert_eq!(query.rr_count_of(SectionType::Additional), 1);
    for section in vec![SectionType::Answer, SectionType::Authority, SectionType::Additional] {
        let generated = query.section(section);
        for (i, rrset) in message.section(section).iter().enumerate() {
            assert_eq!(rrset.typ, generated[i].typ);
            assert_eq!(rrset.rdatas, generated[i].rdatas);
            assert_eq!(rrset.name, generated[i].name);
            assert!(rrset.ttl > generated[i].ttl);
        }
    }
}

#[test]
fn test_negative_message() {
    let message = build_negative_response();
    let mut positive_cache = RRsetLruCache::new(100);
    let mut negative_cache = RRsetLruCache::new(100);
    let entry = MessageEntry::new(message.copy(), &mut positive_cache, &mut negative_cache);
    assert_eq!(positive_cache.len(), 0);
    assert_eq!(negative_cache.len(), 1);
    assert_eq!(entry.name(), &name("test.example.com"));
    assert_eq!(entry.typ(), RRType::A);
    assert_eq!(entry.answer_count(), 0);
    assert_eq!(entry.auth_count(), 1);
    assert_eq!(entry.additional_count(), 0);
    assert_eq!(entry.rrset_refs().len(), 1);
    assert!(entry.expire_time() < now_nanos() + 30_000_000_000);
    assert!(entry.expire_time() > now_nanos() + 20_000_000_000);

    let mut query = Message::with_query(name("test.example.com."), RRType::A);
    assert!(entry.fill_message(&mut query, &mut positive_cache, &mut negative_cache));
    assert_eq!(query.rr_count_of(SectionType::Answer), message.rr_count_of(SectionType::Answer));
    assert_eq!(query.rr_count_of(SectionType::Authority), message.rr_count_of(SectionType::Authority));
    assert_eq!(query.rr_count_of(SectionType::Additional), 0);
    let generated = query.section(SectionType::Authority);
    for (i, rrset) in message.section(SectionType::Authority).iter().enumerate() {
        assert_eq!(rrset.typ, generated[i].typ);
        assert_eq!(rrset.rdatas, generated[i].rdatas);
        assert_eq!(rrset.name, generated[i].name);
        assert!(rrset.ttl > generated[i].ttl);
    }
}

#[test]
fn expired_entry_answers_nothing() {
    let mut positive_cache = RRsetLruCache::new(100);
    let mut negative_cache = RRsetLruCache::new(100);
    let entry = MessageEntry::new_at(build_positive_response(), &mut positive_cache, &mut negative_cache, 0);
    assert_eq!(entry.expire_time(), 10_000_000_000);
    let mut query = Message::with_query(name("test.example.com."), RRType::A);
    assert!(!entry.fill_message_at(&mut query, &mut positive_cache, &mut negative_cache, 10_000_000_000));
    assert!(!query.header.flags.qr);
    assert!(entry.fill_message_at(&mut query, &mut positive_cache, &mut negative_cache, 9_000_000_000));
    assert_eq!(query.answer[0].ttl, 3591);
}

#[test]
fn resolver_cache_keeps_answers_and_negative_answers_apart() {
    let mut cache = MessageCache::new(10);
    cache.add_response(ResponseCategory::Answer, build_positive_response());
    cache.add_response(ResponseCategory::NXDomain, {
        let mut m = build_negative_response();
        m.question = Some(dns_server::message::Question { name: name("gone.example.com."), typ: RRType::A });
        m
    });
    assert_eq!(cache.len(), 2);
    let mut query = Message::with_query(name("gone.example.com."), RRType::A);
    assert!(cache.gen_response(&mut query));
    assert_eq!(query.authority.len(), 1);
    assert_eq!(query.authority[0].typ, RRType::SOA);
    cache.add_response(ResponseCategory::Referral, {
        let mut m = Message::with_query(name("www.example.net."), RRType::A);
        m.add_auth(ns("example.net.", 100, "ns.example.net."));
        m
    });
    assert_eq!(cache.get_deepest_ns(&name("a.b.www.example.net")), Some(name("example.net")));
    assert_eq!(cache.get_deepest_ns(&name("example.org")), None);
    cache.add_rrset(ns("org.", 100, "a.org."), ResolverTrustLevel::PrimNonGlue);
    assert_eq!(cache.get_deepest_ns(&name("example.org")), Some(name("org")));
}

#[test]
fn stored_set_reads_back_with_time_left() {
    let stored = a("www.zdns.cn", 300, &["2.2.2.2", "3.3.3.3"]);
    let entry = RRsetEntry::new_at(stored.copy(), RRsetTrustLevel::Default, 5_000_000_000);
    let same_time = entry.get_rrset_at(5_000_000_000).unwrap();
    assert_eq!(same_time, stored);
    let later = entry.get_rrset_at(5_000_000_001).unwrap();
    assert_eq!(later.ttl, 299);
    assert_eq!(later.rdatas, stored.rdatas);
    assert_eq!(later.class, CLASS_IN);
    assert_eq!(entry.get_rrset_at(304_999_999_999).unwrap().ttl, 0);
    assert!(entry.get_rrset_at(305_000_000_000).is_none());
}
