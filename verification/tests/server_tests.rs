use dns_server::auth::auth_server::AuthServer;
use dns_server::message::Message;
use dns_server::name::Name;
use dns_server::resolver::nsas::address_entry::IpAddress;
use dns_server::rr::RRType;
use dns_server::server::handler::Query;
use dns_server::server::tcp::{read_step_exec, ReadOutcome, ReadTcpState, TcpAction, TcpStreamWrapper, WriteTcpState};

fn feed(chunks: &[&[u8]]) -> Vec<ReadOutcome> {
    let mut state = Some(ReadTcpState::new());
    let mut outs = Vec::new();
    for c in chunks {
        let (next, out) = read_step_exec(state.take().unwrap(), c);
        outs.push(out);
        state = next;
        if state.is_none() {
            break;
        }
    }
    outs
}

#[test]
fn framed_message_is_read_back_in_any_pieces() {
    let body = b"hello";
    let mut frame = vec![0u8, 5u8];
    frame.extend_from_slice(body);
    for split in 1..frame.len() {
        let mut chunks: Vec<&[u8]> = Vec::new();
        let mut rest: &[u8] = &frame;
        while !rest.is_empty() {
            let n = std::cmp::min(split, rest.len());
            let take = if rest.len() > 2 && frame.len() - rest.len() < 2 { std::cmp::min(n, 2 - (frame.len() - rest.len())) } else { n };
            chunks.push(&rest[..take]);
            rest = &rest[take..];
        }
        let outs = feed(&chunks);
        match outs.last().unwrap() {
            ReadOutcome::Message(b) => assert_eq!(b.as_slice(), body),
            _ => panic!("no message"),
        }
    }
}

#[test]
fn reading_reports_where_the_peer_closed() {
    assert!(matches!(feed(&[&[]])[0], ReadOutcome::Closed));
    assert!(matches!(feed(&[&[0u8], &[]])[1], ReadOutcome::ClosedInLength));
    assert!(matches!(feed(&[&[0u8, 3u8], &[1u8], &[]])[2], ReadOutcome::ClosedInMessage));
    assert!(matches!(feed(&[&[0u8, 0u8], &[]])[1], ReadOutcome::ClosedInMessage));
}

#[test]
fn writer_puts_out_prefix_then_body() {
    let body: Vec<u8> = (0..300u32).map(|i| (i % 256) as u8).collect();
    let mut w = WriteTcpState::new(body.clone());
    let mut out: Vec<u8> = Vec::new();
    loop {
        if let WriteTcpState::Flushing = w {
            break;
        }
        let pending = w.pending().to_vec();
        let n = std::cmp::min(7, pending.len());
        out.extend_from_slice(&pending[..n]);
        w = w.wrote(n);
    }
    assert_eq!(out[0], 1);
    assert_eq!(out[1], 44);
    assert_eq!(&out[2..], body.as_slice());
}

#[test]
fn connection_reads_waits_writes_and_reads_again() {
    let mut c = TcpStreamWrapper::from_stream();
    assert!(matches!(c.poll_action(), Some(TcpAction::Read(2))));
    assert!(matches!(c.on_read(&[0u8, 1u8]), ReadOutcome::Pending));
    assert!(matches!(c.poll_action(), Some(TcpAction::Read(1))));
    match c.on_read(&[9u8]) {
        ReadOutcome::Message(b) => assert_eq!(b, vec![9u8]),
        _ => panic!("expected a message"),
    }
    c.start_handling();
    assert!(matches!(c.poll_action(), Some(TcpAction::AwaitHandler)));
    c.on_handled(Some(vec![7u8, 8u8]));
    match c.poll_action() {
        Some(TcpAction::Write(b)) => assert_eq!(b, vec![0u8, 2u8]),
        _ => panic!("expected a write"),
    }
    c.on_written(2);
    match c.poll_action() {
        Some(TcpAction::Write(b)) => assert_eq!(b, vec![7u8, 8u8]),
        _ => panic!("expected a write"),
    }
    c.on_written(2);
    assert!(matches!(c.poll_action(), Some(TcpAction::Flush)));
    c.on_flushed();
    assert!(matches!(c.poll_action(), Some(TcpAction::Read(2))));
}

#[test]
fn failed_handling_goes_back_to_reading() {
    let mut c = TcpStreamWrapper::from_stream();
    let _ = c.on_read(&[0u8, 1u8]);
    let _ = c.on_read(&[1u8]);
    c.start_handling();
    c.on_handled(None);
    assert!(matches!(c.poll_action(), Some(TcpAction::Read(2))));
}

#[test]
fn auth_server_marks_answered_queries_done() {
    let server = AuthServer::new();
    let q = Query::new(Message::with_query(Name::new(vec![b"a".to_vec()]), RRType::A), (IpAddress::V4(1), 53));
    let r = server.handle_query(q);
    assert!(!r.done);
    assert_eq!(r.client, (IpAddress::V4(1), 53));
}
