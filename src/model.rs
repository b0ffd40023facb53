use vstd::prelude::*;
use crate::counter::counter_max;
use crate::lifecycle::{close_step, open_step, ConnectionState};

verus! {

/// What can happen to one connection.
#[derive(Debug, Clone, Copy, PartialEq, Eq, Structural)]
pub enum Event {
    Open,
    Message,
    Close,
    Error,
}

/// The state and counter after one event, as `Server`'s methods change them:
/// a message or an error changes neither.
pub open spec fn event_step(st: ConnectionState, count: nat, ev: Event) -> (ConnectionState, nat) {
    match ev {
        Event::Open => open_step(st, count),
        Event::Close => close_step(st, count),
        Event::Message => (st, count),
        Event::Error => (st, count),
    }
}

/// The connections' states and the shared counter after `evs`, in order.
/// Each event names the connection it is for; the counter is changed under
/// a lock, so events of parallel connections come one after another in some
/// order, and every such order is a sequence here.
pub open spec fn run(states: Seq<ConnectionState>, count: nat, evs: Seq<(int, Event)>) -> (
    Seq<ConnectionState>,
    nat,
)
    decreases evs.len(),
{
    if evs.len() == 0 {
        (states, count)
    } else {
        let before = run(states, count, evs.drop_last());
        let id = evs.last().0;
        if 0 <= id < before.0.len() {
            let after = event_step(before.0[id], before.1, evs.last().1);
            (before.0.update(id, after.0), after.1)
        } else {
            before
        }
    }
}

/// Whether `evs` holds `ev` for connection `i`.
pub open spec fn has_event(evs: Seq<(int, Event)>, i: int, ev: Event) -> bool {
    exists|j: int| 0 <= j < evs.len() && evs[j] == (i, ev)
}

/// How many of the connections are open.
pub open spec fn open_count(states: Seq<ConnectionState>) -> nat
    decreases states.len(),
{
    if states.len() == 0 {
        0
    } else {
        open_count(states.drop_last()) + if states.last() == ConnectionState::Open {
            1nat
        } else {
            0nat
        }
    }
}

proof fn lemma_open_count_update(s: Seq<ConnectionState>, i: int, x: ConnectionState)
    requires
        0 <= i < s.len(),
    ensures
        open_count(s.update(i, x)) + (if s[i] == ConnectionState::Open {
            1nat
        } else {
            0nat
        }) == open_count(s) + (if x == ConnectionState::Open {
            1nat
        } else {
            0nat
        }),
        open_count(s) <= s.len(),
    decreases s.len(),
{
    let t = s.update(i, x);
    if i == s.len() - 1 {
        assert(t.drop_last() =~= s.drop_last());
        lemma_open_count_le(s.drop_last());
    } else {
        lemma_open_count_update(s.drop_last(), i, x);
        assert(t.drop_last() =~= s.drop_last().update(i, x));
    }
}

proof fn lemma_open_count_le(s: Seq<ConnectionState>)
    ensures
        open_count(s) <= s.len(),
    decreases s.len(),
{
    if s.len() > 0 {
        lemma_open_count_le(s.drop_last());
    }
}

proof fn lemma_open_count_none(s: Seq<ConnectionState>)
    requires
        forall|i: int| 0 <= i < s.len() ==> s[i] != ConnectionState::Open,
    ensures
        open_count(s) == 0,
    decreases s.len(),
{
    if s.len() > 0 {
        lemma_open_count_none(s.drop_last());
    }
}

proof fn lemma_open_count_all(s: Seq<ConnectionState>)
    requires
        forall|i: int| 0 <= i < s.len() ==> s[i] == ConnectionState::Open,
    ensures
        open_count(s) == s.len(),
    decreases s.len(),
{
    if s.len() > 0 {
        lemma_open_count_all(s.drop_last());
    }
}

/// The counter always equals the number of open connections: starting from
/// a count that does, every sequence of events ends with a count that does.
/// As this holds after every prefix of the sequence too, a close of an open
/// connection finds the count at one or more.
pub proof fn lemma_count_tracks_open(
    states: Seq<ConnectionState>,
    count: nat,
    evs: Seq<(int, Event)>,
)
    requires
        count == open_count(states),
    ensures
        run(states, count, evs).0.len() == states.len(),
        run(states, count, evs).1 == open_count(run(states, count, evs).0),
    decreases evs.len(),
{
    if evs.len() > 0 {
        lemma_count_tracks_open(states, count, evs.drop_last());
        let before = run(states, count, evs.drop_last());
        let id = evs.last().0;
        if 0 <= id < before.0.len() {
            let after = event_step(before.0[id], before.1, evs.last().1);
            lemma_open_count_update(before.0, id, after.0);
            if before.0[id] == ConnectionState::Open {
                lemma_open_count_update(before.0, id, ConnectionState::Closed);
            }
        }
    }
}

/// A connection that has been closed stays closed, whatever comes after.
proof fn lemma_closed_stays_closed(
    states: Seq<ConnectionState>,
    count: nat,
    evs: Seq<(int, Event)>,
    i: int,
    j: int,
)
    requires
        0 <= i < states.len(),
        0 <= j < evs.len(),
        evs[j] == (i, Event::Close),
    ensures
        run(states, count, evs).0.len() == states.len(),
        run(states, count, evs).0[i] == ConnectionState::Closed,
    decreases evs.len(),
{
    lemma_run_len(states, count, evs.drop_last());
    if j < evs.len() - 1 {
        lemma_closed_stays_closed(states, count, evs.drop_last(), i, j);
    }
}

proof fn lemma_run_len(states: Seq<ConnectionState>, count: nat, evs: Seq<(int, Event)>)
    ensures
        run(states, count, evs).0.len() == states.len(),
    decreases evs.len(),
{
    if evs.len() > 0 {
        lemma_run_len(states, count, evs.drop_last());
    }
}

/// Matched opens and closes bring the counter back to zero: where every one
/// of `n` new connections is closed at some point, in any order and with
/// any other events between, the counter ends at zero.
pub proof fn lemma_all_closed_back_to_zero(n: nat, evs: Seq<(int, Event)>)
    requires
        forall|i: int| 0 <= i < n ==> #[trigger] has_event(evs, i, Event::Close),
    ensures
        run(Seq::new(n, |i: int| ConnectionState::Pending), 0, evs).1 == 0,
{
    let states = Seq::new(n, |i: int| ConnectionState::Pending);
    lemma_open_count_none(states);
    lemma_count_tracks_open(states, 0, evs);
    let fin = run(states, 0, evs).0;
    assert forall|i: int| 0 <= i < fin.len() implies fin[i] != ConnectionState::Open by {
        assert(has_event(evs, i, Event::Close));
        let j = choose|j: int| 0 <= j < evs.len() && evs[j] == (i, Event::Close);
        lemma_closed_stays_closed(states, 0, evs, i, j);
    }
    lemma_open_count_none(fin);
}

/// No open is lost: where each of `n` new connections is opened, in any
/// order and as often as the transport repeats it, with no close, the
/// counter ends at exactly `n`.
pub proof fn lemma_opens_all_counted(n: nat, evs: Seq<(int, Event)>)
    requires
        n <= counter_max(),
        forall|j: int| 0 <= j < evs.len() ==> evs[j].1 == Event::Open,
        forall|i: int| 0 <= i < n ==> #[trigger] has_event(evs, i, Event::Open),
    ensures
        run(Seq::new(n, |i: int| ConnectionState::Pending), 0, evs).1 == n,
{
    let states = Seq::new(n, |i: int| ConnectionState::Pending);
    lemma_open_count_none(states);
    lemma_count_tracks_open(states, 0, evs);
    let fin = run(states, 0, evs).0;
    assert forall|i: int| 0 <= i < fin.len() implies fin[i] == ConnectionState::Open by {
        assert(has_event(evs, i, Event::Open));
        let j = choose|j: int| 0 <= j < evs.len() && evs[j] == (i, Event::Open);
        lemma_opened_stays_open(states, evs, i, j);
    }
    lemma_open_count_all(fin);
}

/// With opens only, from new connections and within the counter's range,
/// a connection once opened stays open.
proof fn lemma_opened_stays_open(
    states: Seq<ConnectionState>,
    evs: Seq<(int, Event)>,
    i: int,
    j: int,
)
    requires
        states.len() <= counter_max(),
        open_count(states) == 0,
        forall|k: int| 0 <= k < states.len() ==> states[k] == ConnectionState::Pending,
        forall|k: int| 0 <= k < evs.len() ==> evs[k].1 == Event::Open,
        0 <= i < states.len(),
        0 <= j < evs.len(),
        evs[j] == (i, Event::Open),
    ensures
        run(states, 0, evs).0[i] == ConnectionState::Open,
    decreases evs.len(),
{
    let pre = evs.drop_last();
    lemma_run_len(states, 0, pre);
    lemma_count_tracks_open(states, 0, pre);
    lemma_opens_never_close(states, 0, pre);
    let before = run(states, 0, pre);
    if j < evs.len() - 1 {
        lemma_opened_stays_open(states, pre, i, j);
    } else if before.0[i] != ConnectionState::Open {
        lemma_open_count_update(before.0, i, ConnectionState::Open);
        lemma_open_count_le(before.0.update(i, ConnectionState::Open));
    }
}

/// Opens alone close no connection.
proof fn lemma_opens_never_close(states: Seq<ConnectionState>, count: nat, evs: Seq<(int, Event)>)
    requires
        forall|k: int| 0 <= k < states.len() ==> states[k] != ConnectionState::Closed,
        forall|k: int| 0 <= k < evs.len() ==> evs[k].1 == Event::Open,
    ensures
        run(states, count, evs).0.len() == states.len(),
        forall|k: int|
            0 <= k < states.len() ==> run(states, count, evs).0[k] != ConnectionState::Closed,
    decreases evs.len(),
{
    lemma_run_len(states, count, evs);
    if evs.len() > 0 {
        lemma_opens_never_close(states, count, evs.drop_last());
    }
}

/// Errors change nothing: dropping every error event from a sequence
/// leaves the states and the counter it ends with as they are, so an error
/// neither moves the counter nor keeps a later close from taking the
/// connection off it.
pub proof fn lemma_errors_change_nothing(
    states: Seq<ConnectionState>,
    count: nat,
    evs: Seq<(int, Event)>,
)
    ensures
        run(states, count, evs.filter(|e: (int, Event)| e.1 != Event::Error)) == run(
            states,
            count,
            evs,
        ),
    decreases evs.len(),
{
    let keep = |e: (int, Event)| e.1 != Event::Error;
    reveal(Seq::filter);
    if evs.len() > 0 {
        lemma_errors_change_nothing(states, count, evs.drop_last());
        let f = evs.drop_last().filter(keep);
        if keep(evs.last()) {
            assert(f.push(evs.last()).drop_last() =~= f);
        } else {
            let before = run(states, count, evs.drop_last());
            let id = evs.last().0;
            if 0 <= id < before.0.len() {
                assert(before.0.update(id, before.0[id]) =~= before.0);
            }
        }
    }
}

} // verus!
