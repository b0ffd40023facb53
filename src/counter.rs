use vstd::prelude::*;

verus! {

/// Why a change of the connection counter was refused.
#[derive(Debug, Clone, Copy, PartialEq, Eq, Structural)]
pub enum CounterError {
    /// The counter already holds the largest value it can hold.
    Overflow,
    /// The counter is zero: there is no live connection to take away.
    Underflow,
}

/// The number of live connections of the process.
///
/// It is created once, at zero, and shared by every connection. Its value
/// never goes below zero: a decrement at zero is refused and reported.
/// Callers that run connections in parallel hold it behind a lock, so each
/// change is one short critical section.
#[derive(Debug)]
pub struct ConnectionCounter {
    count: u32,
}

impl View for ConnectionCounter {
    type V = nat;

    closed spec fn view(&self) -> nat {
        self.count as nat
    }
}

/// The largest count the counter can hold.
pub open spec fn counter_max() -> nat {
    u32::MAX as nat
}

impl ConnectionCounter {
    /// A counter with no live connection.
    pub fn new() -> (r: ConnectionCounter)
        ensures
            r@ == 0,
    {
        ConnectionCounter { count: 0 }
    }

    /// The current number of live connections.
    pub fn read(&self) -> (r: u32)
        ensures
            r as nat == self@,
    {
        self.count
    }

    /// Adds one live connection; refused, with the counter unchanged, when
    /// the counter is full.
    pub fn increment(&mut self) -> (r: Result<(), CounterError>)
        ensures
            old(self)@ < counter_max() ==> r is Ok && final(self)@ == old(self)@ + 1,
            old(self)@ >= counter_max() ==> r == Err::<(), CounterError>(CounterError::Overflow)
                && final(self)@ == old(self)@,
    {
        if self.count < u32::MAX {
            self.count = self.count + 1;
            Ok(())
        } else {
            Err(CounterError::Overflow)
        }
    }

    /// Takes away one live connection; refused, with the counter unchanged,
    /// when it is zero.
    pub fn decrement(&mut self) -> (r: Result<(), CounterError>)
        ensures
            old(self)@ > 0 ==> r is Ok && final(self)@ == old(self)@ - 1,
            old(self)@ == 0 ==> r == Err::<(), CounterError>(CounterError::Underflow)
                && final(self)@ == 0,
    {
        if self.count > 0 {
            self.count = self.count - 1;
            Ok(())
        } else {
            Err(CounterError::Underflow)
        }
    }
}

} // verus!
