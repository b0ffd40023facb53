use vstd::prelude::*;
use crate::codec::encode_view;
use crate::counter::{counter_max, ConnectionCounter};
use crate::handler::{message_handler, stub_record, InboundMessage};

verus! {

/// Where one connection stands in its life.
#[derive(Debug, Clone, Copy, PartialEq, Eq, Structural)]
pub enum ConnectionState {
    /// Accepted by the transport; its opening has not been handled yet.
    Pending,
    /// Opened and counted as live.
    Open,
    /// Closed; it is no longer counted.
    Closed,
}

/// Why a connection was closed, as told by its close code.
#[derive(Debug, Clone, PartialEq, Eq)]
pub enum CloseKind {
    /// Code 1000: the client is done with the connection.
    Normal,
    /// Code 1001: the client is going away.
    PeerLeaving,
    /// Code 1006: the closing handshake failed and no status came.
    AbnormalNoStatus,
    /// Any other code, with the reason the client gave.
    Other(String),
}

/// Why an opening was refused.
#[derive(Debug, Clone, Copy, PartialEq, Eq, Structural)]
pub enum LifecycleError {
    /// The connection counter is full.
    CounterFull,
}

/// The state and counter after a connection's opening: a pending
/// connection becomes open and is counted, unless the counter is full; any
/// other connection is left as it is.
pub open spec fn open_step(st: ConnectionState, count: nat) -> (ConnectionState, nat) {
    if st == ConnectionState::Pending && count < counter_max() {
        (ConnectionState::Open, count + 1)
    } else {
        (st, count)
    }
}

/// The state and counter after a connection's closing: it is closed, and
/// it is no longer counted if it was counted before.
pub open spec fn close_step(st: ConnectionState, count: nat) -> (ConnectionState, nat) {
    if st == ConnectionState::Open && count > 0 {
        (ConnectionState::Closed, (count - 1) as nat)
    } else {
        (ConnectionState::Closed, count)
    }
}

/// The close kind for `code`: the reason is kept only for codes without a
/// kind of their own.
pub open spec fn close_kind_matches(kind: CloseKind, code: u16, reason: Seq<char>) -> bool {
    if code == 1000 {
        kind == CloseKind::Normal
    } else if code == 1001 {
        kind == CloseKind::PeerLeaving
    } else if code == 1006 {
        kind == CloseKind::AbnormalNoStatus
    } else {
        kind matches CloseKind::Other(s) && s@ == reason
    }
}

/// Tells a close code's kind.
pub fn classify_close(code: u16, reason: &str) -> (r: CloseKind)
    ensures
        close_kind_matches(r, code, reason@),
{
    if code == 1000 {
        CloseKind::Normal
    } else if code == 1001 {
        CloseKind::PeerLeaving
    } else if code == 1006 {
        CloseKind::AbnormalNoStatus
    } else {
        CloseKind::Other(String::from_str(reason))
    }
}

/// The lifecycle of one connection. The transport makes one per connection
/// and hands it that connection's events one at a time; the counter it is
/// given is the one shared by all connections.
#[derive(Debug)]
pub struct Server {
    state: ConnectionState,
}

impl View for Server {
    type V = ConnectionState;

    closed spec fn view(&self) -> ConnectionState {
        self.state
    }
}

impl Server {
    /// A connection that the transport has just accepted.
    pub fn new() -> (r: Server)
        ensures
            r@ == ConnectionState::Pending,
    {
        Server { state: ConnectionState::Pending }
    }

    /// Where the connection stands.
    pub fn state(&self) -> (r: ConnectionState)
        ensures
            r == self@,
    {
        self.state
    }

    /// The connection opens: it is counted once, however often it is told
    /// to open. Refused only when the counter is full, and then the
    /// connection stays pending.
    pub fn on_open(&mut self, counter: &mut ConnectionCounter) -> (r: Result<(), LifecycleError>)
        ensures
            (final(self)@, final(counter)@) == open_step(old(self)@, old(counter)@),
            r is Err <==> old(self)@ == ConnectionState::Pending && old(counter)@ >= counter_max(),
            r is Err ==> r == Err::<(), LifecycleError>(LifecycleError::CounterFull),
    {
        if self.state == ConnectionState::Pending {
            match counter.increment() {
                Ok(()) => {
                    self.state = ConnectionState::Open;
                    Ok(())
                },
                Err(_) => Err(LifecycleError::CounterFull),
            }
        } else {
            Ok(())
        }
    }

    /// A message came: the text to send back, the wire form of the
    /// handler's reply. Neither the connection nor the counter changes.
    pub fn on_message(&self, msg: InboundMessage) -> (r: String)
        ensures
            r@ == encode_view(stub_record()),
    {
        message_handler(msg)
    }

    /// The connection closes: it is no longer counted if it was counted,
    /// whatever the code. Gives the kind of close, for reporting.
    pub fn on_close(&mut self, counter: &mut ConnectionCounter, code: u16, reason: &str) -> (r:
        CloseKind)
        ensures
            (final(self)@, final(counter)@) == close_step(old(self)@, old(counter)@),
            close_kind_matches(r, code, reason@),
    {
        let kind = classify_close(code, reason);
        if self.state == ConnectionState::Open {
            // At zero the decrement is refused; the counter then stays at zero.
            let _ = counter.decrement();
        }
        self.state = ConnectionState::Closed;
        kind
    }

    /// The transport reported an error on the connection. It is only
    /// reported: the connection keeps its state, so a later close still
    /// takes it off the counter, and the counter is not touched.
    pub fn on_error(&mut self)
        ensures
            final(self)@ == old(self)@,
    {
    }
}

} // verus!
