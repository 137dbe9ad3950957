//! The shard-tailing state machine: positioning, then polling with the
//! cursor that each poll hands back, until the cursor is absent or a call
//! fails.

use vstd::prelude::*;

use crate::decode::{decode_record, decoded};
use crate::seqs::{concat_all, lemma_concat_all_push};

verus! {

/// Milliseconds between two polls of the shard.
pub const POLL_INTERVAL_MS: u64 = 205;

/// Why a tail session ended in failure.
#[derive(Clone, Copy, Debug, PartialEq, Eq, Structural)]
pub enum TailError {
    /// A call to the service failed.
    Transport,
    /// A record's payload was not valid UTF-8.
    Decode,
}

/// Where a tail session stands.
pub enum TailState {
    /// Waiting for the initial cursor.
    Positioning,
    /// Polling with the given cursor.
    Polling(String),
    /// The shard is closed and fully read.
    Drained,
    /// The session ended with an error.
    Failed(TailError),
}

/// What the service answered to the request that the state asked for.
pub enum TailEvent {
    /// The initial cursor, if the service gave one.
    Positioned(Option<String>),
    /// The payloads of one poll, in order, and the next cursor, if any.
    Polled(Vec<Vec<u8>>, Option<String>),
    /// The call failed.
    TransportFailed,
}

/// The next call to make.
pub enum TailRequest {
    /// Ask for a cursor at the newest record of the shard.
    GetShardIterator,
    /// Wait for the next poll slot, then read records with this cursor.
    GetRecords(String),
    /// The session is over.
    Stop,
}

/// A state as seen by contracts.
pub ghost enum TailPhase {
    Positioning,
    Polling(Seq<char>),
    Drained,
    Failed(TailError),
}

/// An event as seen by contracts.
pub ghost enum TailInput {
    Positioned(Option<Seq<char>>),
    Polled(Seq<Seq<u8>>, Option<Seq<char>>),
    TransportFailed,
}

/// The view of an optional cursor.
pub open spec fn cursor_view(c: Option<String>) -> Option<Seq<char>> {
    match c {
        Some(s) => Some(s@),
        None => None,
    }
}

impl View for TailState {
    type V = TailPhase;

    open spec fn view(&self) -> TailPhase {
        match self {
            TailState::Positioning => TailPhase::Positioning,
            TailState::Polling(c) => TailPhase::Polling(c@),
            TailState::Drained => TailPhase::Drained,
            TailState::Failed(e) => TailPhase::Failed(*e),
        }
    }
}

impl View for TailEvent {
    type V = TailInput;

    open spec fn view(&self) -> TailInput {
        match self {
            TailEvent::Positioned(c) => TailInput::Positioned(cursor_view(*c)),
            TailEvent::Polled(recs, next) => TailInput::Polled(
                recs@.map_values(|r: Vec<u8>| r@),
                cursor_view(*next),
            ),
            TailEvent::TransportFailed => TailInput::TransportFailed,
        }
    }
}

/// The lines of a poll's payloads, decoded in order up to the first that
/// fails, and whether all of them decoded.
pub open spec fn decode_prefix(recs: Seq<Seq<u8>>) -> (Seq<Seq<char>>, bool)
    decreases recs.len(),
{
    if recs.len() == 0 {
        (Seq::empty(), true)
    } else {
        let (lines, ok) = decode_prefix(recs.drop_last());
        if !ok {
            (lines, false)
        } else {
            match decoded(recs.last()) {
                Some(t) => (lines.push(t), true),
                None => (lines, false),
            }
        }
    }
}

/// The state after a cursor, or its absence.
pub open spec fn phase_for_cursor(c: Option<Seq<char>>) -> TailPhase {
    match c {
        Some(s) => TailPhase::Polling(s),
        None => TailPhase::Drained,
    }
}

/// One transition: the next state and the lines to emit. Events that the
/// state does not wait for leave it unchanged and emit nothing.
pub open spec fn advance_spec(phase: TailPhase, input: TailInput) -> (TailPhase, Seq<Seq<char>>) {
    match (phase, input) {
        (TailPhase::Positioning, TailInput::Positioned(c)) => (phase_for_cursor(c), Seq::empty()),
        (TailPhase::Polling(_), TailInput::Polled(recs, next)) => {
            let (lines, ok) = decode_prefix(recs);
            if ok {
                (phase_for_cursor(next), lines)
            } else {
                (TailPhase::Failed(TailError::Decode), lines)
            }
        },
        (TailPhase::Positioning, TailInput::TransportFailed) => (
            TailPhase::Failed(TailError::Transport),
            Seq::empty(),
        ),
        (TailPhase::Polling(_), TailInput::TransportFailed) => (
            TailPhase::Failed(TailError::Transport),
            Seq::empty(),
        ),
        _ => (phase, Seq::empty()),
    }
}

/// The state reached and all lines emitted when the given events arrive in
/// order from the given state.
pub open spec fn run_tail(phase: TailPhase, inputs: Seq<TailInput>) -> (TailPhase, Seq<Seq<char>>)
    decreases inputs.len(),
{
    if inputs.len() == 0 {
        (phase, Seq::empty())
    } else {
        let (p, out) = run_tail(phase, inputs.drop_last());
        let (p2, more) = advance_spec(p, inputs.last());
        (p2, out + more)
    }
}

/// A state together with the lines emitted on the way to it.
pub struct TailStep {
    pub state: TailState,
    pub lines: Vec<String>,
}

/// The characters of each line.
pub open spec fn text_views(lines: Seq<String>) -> Seq<Seq<char>> {
    lines.map_values(|l: String| l@)
}

impl TailState {
    /// A session starts by positioning.
    pub fn new() -> (r: Self)
        ensures
            r@ == TailPhase::Positioning,
    {
        TailState::Positioning
    }

    /// Whether the session is over.
    pub fn is_terminal(&self) -> (r: bool)
        ensures
            r == (self@ is Drained || self@ is Failed),
    {
        match self {
            TailState::Drained | TailState::Failed(_) => true,
            _ => false,
        }
    }

    /// The call that the session waits on.
    pub fn next_request(&self) -> (r: TailRequest)
        ensures
            self@ is Positioning ==> r is GetShardIterator,
            self@ is Polling ==> (r matches TailRequest::GetRecords(c) && TailPhase::Polling(c@)
                == self@),
            (self@ is Drained || self@ is Failed) ==> r is Stop,
    {
        match self {
            TailState::Positioning => TailRequest::GetShardIterator,
            TailState::Polling(c) => TailRequest::GetRecords(c.clone()),
            _ => TailRequest::Stop,
        }
    }

    /// Takes the answer to the pending call: the next state, and the lines
    /// of that answer to hand to the output, in order.
    pub fn advance(self, event: TailEvent) -> (r: TailStep)
        ensures
            (r.state@, text_views(r.lines@)) == advance_spec(self@, event@),
    {
        match (self, event) {
            (TailState::Positioning, TailEvent::Positioned(c)) => {
                let state = match c {
                    Some(s) => TailState::Polling(s),
                    None => TailState::Drained,
                };
                let lines: Vec<String> = Vec::new();
                assert(text_views(lines@) =~= Seq::<Seq<char>>::empty());
                TailStep { state, lines }
            },
            (TailState::Polling(_), TailEvent::Polled(recs, next)) => {
                let (lines, ok) = decode_all(&recs);
                let state = if ok {
                    match next {
                        Some(s) => TailState::Polling(s),
                        None => TailState::Drained,
                    }
                } else {
                    TailState::Failed(TailError::Decode)
                };
                TailStep { state, lines }
            },
            (TailState::Positioning, TailEvent::TransportFailed)
            | (TailState::Polling(_), TailEvent::TransportFailed) => {
                let lines: Vec<String> = Vec::new();
                assert(text_views(lines@) =~= Seq::<Seq<char>>::empty());
                TailStep { state: TailState::Failed(TailError::Transport), lines }
            },
            (state, _) => {
                let lines: Vec<String> = Vec::new();
                assert(text_views(lines@) =~= Seq::<Seq<char>>::empty());
                TailStep { state, lines }
            },
        }
    }
}

/// Decodes a poll's payloads in order, stopping at the first that fails.
fn decode_all(recs: &Vec<Vec<u8>>) -> (r: (Vec<String>, bool))
    ensures
        (text_views(r.0@), r.1) == decode_prefix(recs@.map_values(|v: Vec<u8>| v@)),
{
    let ghost views = recs@.map_values(|v: Vec<u8>| v@);
    let mut lines: Vec<String> = Vec::new();
    let mut i: usize = 0;
    assert(text_views(lines@) =~= decode_prefix(views.take(0)).0);
    while i < recs.len()
        invariant
            i <= recs@.len(),
            views == recs@.map_values(|v: Vec<u8>| v@),
            (text_views(lines@), true) == decode_prefix(views.take(i as int)),
        decreases recs@.len() - i,
    {
        let ghost prev = lines@;
        assert(views.take(i as int + 1).drop_last() =~= views.take(i as int));
        match decode_record(recs[i].as_slice()) {
            Ok(s) => {
                lines.push(s);
                assert(text_views(lines@) =~= text_views(prev).push(s@));
            },
            Err(_) => {
                proof {
                    lemma_decode_prefix_stops(views, i as int + 1);
                }
                return (lines, false);
            },
        }
        i = i + 1;
    }
    assert(views.take(i as int) =~= views);
    (lines, true)
}

/// Once a payload fails to decode, later payloads change nothing.
proof fn lemma_decode_prefix_stops(recs: Seq<Seq<u8>>, n: int)
    requires
        0 < n <= recs.len(),
        decode_prefix(recs.take(n)).1 == false,
    ensures
        decode_prefix(recs) == decode_prefix(recs.take(n)),
    decreases recs.len() - n,
{
    if n < recs.len() {
        assert(recs.take(n + 1).drop_last() =~= recs.take(n));
        lemma_decode_prefix_stops(recs, n + 1);
    } else {
        assert(recs.take(n) =~= recs);
    }
}

/// The answers to a sequence of successful polls.
pub open spec fn poll_inputs(polls: Seq<(Seq<Seq<u8>>, Option<Seq<char>>)>) -> Seq<TailInput> {
    polls.map_values(|p: (Seq<Seq<u8>>, Option<Seq<char>>)| TailInput::Polled(p.0, p.1))
}

/// The decoded lines of each of a sequence of polls.
pub open spec fn poll_lines(polls: Seq<(Seq<Seq<u8>>, Option<Seq<char>>)>) -> Seq<Seq<Seq<char>>> {
    polls.map_values(
        |p: (Seq<Seq<u8>>, Option<Seq<char>>)|
            p.0.map_values(|r: Seq<u8>| decoded(r)->Some_0),
    )
}

/// Every payload of every poll decodes.
pub open spec fn all_decodable(polls: Seq<(Seq<Seq<u8>>, Option<Seq<char>>)>) -> bool {
    forall|i: int, j: int|
        0 <= i < polls.len() && 0 <= j < polls[i].0.len() ==> (#[trigger] decoded(polls[i].0[j])) is Some
}

proof fn lemma_decode_prefix_all(recs: Seq<Seq<u8>>)
    requires
        forall|j: int| 0 <= j < recs.len() ==> (#[trigger] decoded(recs[j])) is Some,
    ensures
        decode_prefix(recs) == (recs.map_values(|r: Seq<u8>| decoded(r)->Some_0), true),
    decreases recs.len(),
{
    if recs.len() > 0 {
        let prev = recs.drop_last();
        assert forall|j: int| 0 <= j < prev.len() implies (#[trigger] decoded(prev[j])) is Some by {
            assert(prev[j] == recs[j]);
        }
        lemma_decode_prefix_all(prev);
        assert(decoded(recs[recs.len() - 1]) is Some);
        assert(recs.map_values(|r: Seq<u8>| decoded(r)->Some_0) =~= prev.map_values(
            |r: Seq<u8>| decoded(r)->Some_0,
        ).push(decoded(recs.last())->Some_0));
    } else {
        assert(recs.map_values(|r: Seq<u8>| decoded(r)->Some_0) =~= Seq::<Seq<char>>::empty());
    }
}

/// After positioning at `start` and a run of successful polls, each but the
/// last handing back a cursor, the session has emitted the lines of those
/// polls in order and waits with the cursor of the last one.
proof fn lemma_polls(start: Seq<char>, polls: Seq<(Seq<Seq<u8>>, Option<Seq<char>>)>)
    requires
        all_decodable(polls),
        forall|i: int| 0 <= i < polls.len() - 1 ==> (#[trigger] polls[i]).1 is Some,
    ensures
        run_tail(
            TailPhase::Positioning,
            seq![TailInput::Positioned(Some(start))] + poll_inputs(polls),
        ) == (
            if polls.len() == 0 {
                TailPhase::Polling(start)
            } else {
                phase_for_cursor(polls.last().1)
            },
            concat_all(poll_lines(polls)),
        ),
    decreases polls.len(),
{
    let inputs = seq![TailInput::Positioned(Some(start))] + poll_inputs(polls);
    if polls.len() == 0 {
        assert(inputs =~= seq![TailInput::Positioned(Some(start))]);
        assert(inputs.drop_last() =~= Seq::<TailInput>::empty());
        assert(poll_lines(polls) =~= Seq::<Seq<Seq<char>>>::empty());
        assert(Seq::<Seq<char>>::empty() + Seq::<Seq<char>>::empty() =~= Seq::<Seq<char>>::empty());
    } else {
        let prev = polls.drop_last();
        assert forall|i: int, j: int|
            0 <= i < prev.len() && 0 <= j < prev[i].0.len() implies (#[trigger] decoded(
            prev[i].0[j],
        )) is Some by {
            assert(prev[i] == polls[i]);
        }
        assert forall|i: int| 0 <= i < prev.len() - 1 implies (#[trigger] prev[i]).1 is Some by {
            assert(prev[i] == polls[i]);
        }
        lemma_polls(start, prev);
        assert(inputs.drop_last() =~= seq![TailInput::Positioned(Some(start))] + poll_inputs(prev));
        let last = polls.last();
        assert(inputs.last() == TailInput::Polled(last.0, last.1));
        if prev.len() > 0 {
            assert(prev.last() == polls[polls.len() - 2]);
            assert(polls[polls.len() - 2].1 is Some);
        }
        assert(run_tail(TailPhase::Positioning, inputs.drop_last()).0 is Polling);
        assert forall|j: int| 0 <= j < last.0.len() implies (#[trigger] decoded(last.0[j])) is Some by {
            assert(decoded(polls[polls.len() - 1].0[j]) is Some);
        }
        lemma_decode_prefix_all(last.0);
        assert(poll_lines(polls) =~= poll_lines(prev).push(
            last.0.map_values(|r: Seq<u8>| decoded(r)->Some_0),
        ));
        lemma_concat_all_push(poll_lines(prev), last.0.map_values(|r: Seq<u8>| decoded(r)->Some_0));
    }
}

/// Once the session has ended, further answers change nothing.
proof fn lemma_terminal_stays(phase: TailPhase, inputs: Seq<TailInput>, rest: Seq<TailInput>)
    requires
        run_tail(phase, inputs).0 is Drained || run_tail(phase, inputs).0 is Failed,
    ensures
        run_tail(phase, inputs + rest) == run_tail(phase, inputs),
    decreases rest.len(),
{
    if rest.len() == 0 {
        assert(inputs + rest =~= inputs);
    } else {
        lemma_terminal_stays(phase, inputs, rest.drop_last());
        assert((inputs + rest).drop_last() =~= inputs + rest.drop_last());
        let out = run_tail(phase, inputs).1;
        assert(out + Seq::<Seq<char>>::empty() =~= out);
    }
}

/// A session positioned at `start` whose polls all succeed, each handing
/// back a cursor but the last, which hands back none, emits exactly the
/// decoded payloads of all polls in order and ends drained.
pub proof fn lemma_tail_drains(start: Seq<char>, polls: Seq<(Seq<Seq<u8>>, Option<Seq<char>>)>)
    requires
        polls.len() > 0,
        all_decodable(polls),
        forall|i: int| 0 <= i < polls.len() - 1 ==> (#[trigger] polls[i]).1 is Some,
        polls.last().1 is None,
    ensures
        run_tail(
            TailPhase::Positioning,
            seq![TailInput::Positioned(Some(start))] + poll_inputs(polls),
        ) == (TailPhase::Drained, concat_all(poll_lines(polls))),
{
    lemma_polls(start, polls);
}

/// A session positioned at `start` whose poll fails after a run of
/// successful polls ends failed at that point, having emitted only the
/// decoded payloads of the earlier polls, whatever answers come after.
pub proof fn lemma_tail_fails_on_transport_error(
    start: Seq<char>,
    polls: Seq<(Seq<Seq<u8>>, Option<Seq<char>>)>,
    rest: Seq<TailInput>,
)
    requires
        all_decodable(polls),
        forall|i: int| 0 <= i < polls.len() ==> (#[trigger] polls[i]).1 is Some,
    ensures
        run_tail(
            TailPhase::Positioning,
            seq![TailInput::Positioned(Some(start))] + poll_inputs(polls) + seq![
                TailInput::TransportFailed,
            ] + rest,
        ) == (TailPhase::Failed(TailError::Transport), concat_all(poll_lines(polls))),
{
    lemma_polls(start, polls);
    let before = seq![TailInput::Positioned(Some(start))] + poll_inputs(polls);
    let upto = before + seq![TailInput::TransportFailed];
    assert(upto.drop_last() =~= before);
    if polls.len() > 0 {
        assert(polls.last() == polls[polls.len() - 1]);
    }
    let out = concat_all(poll_lines(polls));
    assert(out + Seq::<Seq<char>>::empty() =~= out);
    lemma_terminal_stays(TailPhase::Positioning, upto, rest);
}

/// Runs a session from its start over answers given in advance, in order,
/// and returns the state reached with every line emitted on the way.
pub fn run_scripted(events: Vec<TailEvent>) -> (r: TailStep)
    ensures
        (r.state@, text_views(r.lines@)) == run_tail(
            TailPhase::Positioning,
            events@.map_values(|e: TailEvent| e@),
        ),
{
    let ghost inputs = events@.map_values(|e: TailEvent| e@);
    let total = events.len();
    let mut remaining = events;
    let mut state = TailState::new();
    let mut lines: Vec<String> = Vec::new();
    let mut done: usize = 0;
    assert(text_views(lines@) =~= Seq::<Seq<char>>::empty());
    while remaining.len() > 0
        invariant
            done + remaining@.len() == inputs.len(),
            inputs.len() == total,
            forall|k: int|
                0 <= k < remaining@.len() ==> #[trigger] remaining@[k]@ == inputs[done + k],
            (state@, text_views(lines@)) == run_tail(TailPhase::Positioning, inputs.take(done as int)),
        decreases remaining@.len(),
    {
        let ghost rem = remaining@;
        let event = remaining.remove(0);
        assert(rem[0]@ == inputs[done + 0]);
        assert forall|k: int| 0 <= k < remaining@.len() implies #[trigger] remaining@[k]@
            == inputs[done + 1 + k] by {
            assert(remaining@[k] == rem[k + 1]);
            assert(rem[k + 1]@ == inputs[done + (k + 1)]);
        }
        assert(inputs.take(done as int + 1).drop_last() =~= inputs.take(done as int));
        let ghost prev = lines@;
        let mut step = state.advance(event);
        let ghost more = step.lines@;
        lines.append(&mut step.lines);
        assert(text_views(lines@) =~= text_views(prev) + text_views(more));
        state = step.state;
        done = done + 1;
    }
    assert(inputs.take(done as int) =~= inputs);
    TailStep { state, lines }
}

} // verus!
