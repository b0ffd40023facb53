use std::sync::{Arc, Mutex};
use ws_counter::counter::{ConnectionCounter, CounterError};
use ws_counter::handler::InboundMessage;
use ws_counter::lifecycle::{classify_close, CloseKind, ConnectionState, Server};

#[test]
fn counter_starts_at_zero_and_moves_by_one() {
    let mut c = ConnectionCounter::new();
    assert_eq!(c.read(), 0);
    assert_eq!(c.increment(), Ok(()));
    assert_eq!(c.increment(), Ok(()));
    assert_eq!(c.read(), 2);
    assert_eq!(c.decrement(), Ok(()));
    assert_eq!(c.read(), 1);
}

#[test]
fn counter_refuses_to_go_below_zero() {
    let mut c = ConnectionCounter::new();
    assert_eq!(c.decrement(), Err(CounterError::Underflow));
    assert_eq!(c.read(), 0);
}

#[test]
fn two_connections_scenario() {
    let mut count = ConnectionCounter::new();
    let mut a = Server::new();
    let mut b = Server::new();
    assert_eq!(a.on_open(&mut count), Ok(()));
    assert_eq!(count.read(), 1);
    assert_eq!(b.on_open(&mut count), Ok(()));
    assert_eq!(count.read(), 2);
    let reply = a.on_message(InboundMessage::Text("hello".to_string()));
    assert_eq!(reply, "{\"status\":\"ok\",\"data\":\"Some data\"}");
    assert_eq!(a.on_close(&mut count, 1000, ""), CloseKind::Normal);
    assert_eq!(count.read(), 1);
    assert_eq!(b.on_close(&mut count, 1006, ""), CloseKind::AbnormalNoStatus);
    assert_eq!(count.read(), 0);
}

#[test]
fn hundred_connections_counted() {
    let count = Arc::new(Mutex::new(ConnectionCounter::new()));
    let mut servers: Vec<Server> = (0..100).map(|_| Server::new()).collect();
    for s in servers.iter_mut() {
        let mut c = count.lock().unwrap();
        assert_eq!(s.on_open(&mut c), Ok(()));
    }
    assert_eq!(count.lock().unwrap().read(), 100);
}

#[test]
fn matched_opens_and_closes_end_at_zero() {
    let mut count = ConnectionCounter::new();
    let mut servers: Vec<Server> = (0..50).map(|_| Server::new()).collect();
    for s in servers.iter_mut() {
        s.on_open(&mut count).unwrap();
    }
    assert_eq!(count.read(), 50);
    for (i, s) in servers.iter_mut().enumerate().rev() {
        s.on_close(&mut count, 1000 + (i % 3) as u16, "bye");
        assert_eq!(count.read(), i as u32);
    }
    assert_eq!(count.read(), 0);
}

#[test]
fn error_changes_nothing_and_close_still_counts() {
    let mut count = ConnectionCounter::new();
    let mut a = Server::new();
    a.on_open(&mut count).unwrap();
    a.on_error();
    assert_eq!(count.read(), 1);
    assert_eq!(a.state(), ConnectionState::Open);
    a.on_close(&mut count, 1002, "protocol");
    assert_eq!(count.read(), 0);
    assert_eq!(a.state(), ConnectionState::Closed);
}

#[test]
fn repeated_open_counts_once() {
    let mut count = ConnectionCounter::new();
    let mut a = Server::new();
    a.on_open(&mut count).unwrap();
    assert_eq!(a.on_open(&mut count), Ok(()));
    assert_eq!(count.read(), 1);
}

#[test]
fn close_without_open_takes_nothing() {
    let mut count = ConnectionCounter::new();
    let mut a = Server::new();
    let mut b = Server::new();
    b.on_open(&mut count).unwrap();
    a.on_close(&mut count, 1000, "");
    assert_eq!(count.read(), 1);
    assert_eq!(a.state(), ConnectionState::Closed);
    b.on_close(&mut count, 1000, "");
    b.on_close(&mut count, 1000, "");
    assert_eq!(count.read(), 0);
}

#[test]
fn close_codes_classified() {
    assert_eq!(classify_close(1000, "x"), CloseKind::Normal);
    assert_eq!(classify_close(1001, "x"), CloseKind::PeerLeaving);
    assert_eq!(classify_close(1006, "x"), CloseKind::AbnormalNoStatus);
    assert_eq!(classify_close(1011, "server fault"), CloseKind::Other("server fault".to_string()));
}
