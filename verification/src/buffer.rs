//! Adaptive result delivery: accumulate entries while the walk is young so a
//! quick walk can be printed sorted, and fall back to streaming in arrival
//! order the moment the buffering deadline passes. The transition is
//! irreversible and every entry is forwarded exactly once.

use vstd::prelude::*;
use crate::strutil::{lex_le, str_lex_le, lemma_lex_le_refl, lemma_lex_le_total, lemma_lex_le_trans};
use crate::walk::WalkEntry;

verus! {

/// Entries stand in lexicographically non-decreasing path order.
pub open spec fn sorted_by_path(s: Seq<WalkEntry>) -> bool {
    forall|i: int, j: int| 0 <= i < j < s.len() ==> #[trigger] lex_le(s[i].path@, s[j].path@)
}

/// The first position whose entry does not come before `e` in path order.
fn lower_bound(out: &Vec<WalkEntry>, e: &WalkEntry) -> (j: usize)
    ensures
        j <= out@.len(),
        forall|k: int| 0 <= k < j ==> lex_le(#[trigger] out@[k].path@, e.path@),
        j < out@.len() ==> !lex_le(out@[j as int].path@, e.path@),
{
    let n = out.len();
    let mut j: usize = 0;
    while j < n
        invariant
            n == out@.len(),
            j <= n,
            forall|k: int| 0 <= k < j ==> lex_le(#[trigger] out@[k].path@, e.path@),
        decreases n - j,
    {
        if !str_lex_le(out[j].path.as_str(), e.path.as_str()) {
            return j;
        }
        j = j + 1;
    }
    j
}

/// Put one entry into a path-sorted vector, keeping it sorted.
fn insert_sorted(out: &mut Vec<WalkEntry>, e: WalkEntry)
    requires
        sorted_by_path(old(out)@),
    ensures
        sorted_by_path(final(out)@),
        final(out)@.to_multiset() == old(out)@.to_multiset().insert(e),
{
    let j = lower_bound(out, &e);
    proof {
        let s0 = out@;
        let s1 = s0.insert(j as int, e);
        s0.insert_ensures(j as int, e);
        assert(s1[j as int] == e);
        assert forall|p: int, q: int| 0 <= p < q < s1.len() implies #[trigger] lex_le(
            s1[p].path@,
            s1[q].path@,
        ) by {
            if q < j {
                assert(s1[p] == s0[p] && s1[q] == s0[q]);
            } else if q == j {
                assert(s1[p] == s0[p]);
                assert(lex_le(s0[p].path@, e.path@));
            } else {
                assert(s1[q] == s0[q - 1]);
                if p < j {
                    assert(s1[p] == s0[p]);
                    if p == q - 1 {
                        lemma_lex_le_refl(s0[p].path@);
                    }
                } else if p == j {
                    // the scan stopped at j, so e comes no later than s0[j]
                    assert(j < s0.len());
                    assert(!lex_le(s0[j as int].path@, e.path@));
                    lemma_lex_le_total(s0[j as int].path@, e.path@);
                    if j < q - 1 {
                        lemma_lex_le_trans(e.path@, s0[j as int].path@, s0[q - 1].path@);
                    }
                } else {
                    assert(s1[p] == s0[p - 1]);
                }
            }
        }
        broadcast use vstd::seq_lib::to_multiset_insert;

        assert(s1.to_multiset() == s0.to_multiset().insert(e));
    }
    out.insert(j, e);
}

/// Sort entries by path, keeping exactly the same entries.
pub fn sort_entries(entries: Vec<WalkEntry>) -> (r: Vec<WalkEntry>)
    ensures
        sorted_by_path(r@),
        r@.to_multiset() == entries@.to_multiset(),
{
    let ghost orig = entries@;
    let mut v = entries;
    let mut out: Vec<WalkEntry> = Vec::new();
    proof {
        broadcast use vstd::seq_lib::group_to_multiset_ensures;
        broadcast use vstd::multiset::group_multiset_axioms;

        assert(out@.to_multiset().add(v@.to_multiset()) =~= orig.to_multiset());
    }
    while v.len() > 0
        invariant
            sorted_by_path(out@),
            out@.to_multiset().add(v@.to_multiset()) == orig.to_multiset(),
        decreases v@.len(),
    {
        let ghost v0 = v@;
        let ghost out0 = out@;
        let e = v.remove(0);
        insert_sorted(&mut out, e);
        proof {
            broadcast use vstd::seq_lib::group_to_multiset_ensures;
            broadcast use vstd::multiset::group_multiset_axioms;

            assert(v@ == v0.remove(0));
            assert(v@.to_multiset() == v0.to_multiset().remove(e));
            assert(v0.contains(e)) by {
                assert(v0[0] == e);
            }
            assert(v0.to_multiset().count(e) > 0);
            assert(out@.to_multiset().add(v@.to_multiset()) =~= out0.to_multiset().add(
                v0.to_multiset(),
            ));
        }
    }
    proof {
        broadcast use vstd::seq_lib::group_to_multiset_ensures;
        broadcast use vstd::multiset::group_multiset_axioms;

        assert(v@.len() == 0);
        assert forall|a: WalkEntry| v@.to_multiset().count(a) == 0 by {
            assert(!v@.contains(a));
        }
        assert(out@.to_multiset() =~= out@.to_multiset().add(v@.to_multiset()));
    }
    out
}

/// The delivery stage: either still accumulating (with everything received so
/// far, in arrival order), or streaming each entry onward as it arrives.
pub enum BufferState {
    Buffering { acc: Vec<WalkEntry> },
    Streaming,
}

/// The mathematical state: the pending accumulator while buffering, nothing
/// once streaming.
pub open spec fn state_model(s: BufferState) -> Option<Seq<WalkEntry>> {
    match s {
        BufferState::Buffering { acc } => Some(acc@),
        BufferState::Streaming => None,
    }
}

/// The state after one entry arrives: a late arrival flips to streaming, an
/// early one is accumulated, and streaming stays streaming.
pub open spec fn step_state(
    st: Option<Seq<WalkEntry>>,
    entry: WalkEntry,
    deadline_passed: bool,
) -> Option<Seq<WalkEntry>> {
    match st {
        Some(acc) => if deadline_passed {
            None
        } else {
            Some(acc.push(entry))
        },
        None => None,
    }
}

/// What one arrival forwards downstream: nothing while accumulating; on the
/// arrival that overruns the deadline, the accumulator in arrival order and
/// then the new entry; while streaming, just the entry.
pub open spec fn step_out(
    st: Option<Seq<WalkEntry>>,
    entry: WalkEntry,
    deadline_passed: bool,
) -> Seq<WalkEntry> {
    match st {
        Some(acc) => if deadline_passed {
            acc.push(entry)
        } else {
            Seq::empty()
        },
        None => seq![entry],
    }
}

/// What is still pending when the channel closes: the accumulator if the run
/// never left buffering, nothing otherwise.
pub open spec fn pending(st: Option<Seq<WalkEntry>>) -> Seq<WalkEntry> {
    match st {
        Some(acc) => acc,
        None => Seq::empty(),
    }
}

impl BufferState {
    /// Begin buffering with an empty accumulator (a buffering window was
    /// configured).
    pub fn start_buffering() -> (r: BufferState)
        ensures
            state_model(r) == Some(Seq::<WalkEntry>::empty()),
    {
        let r = BufferState::Buffering { acc: Vec::new() };
        proof {
            assert(state_model(r) matches Some(acc) && acc =~= Seq::<WalkEntry>::empty());
        }
        r
    }

    /// Begin streaming immediately (no buffering window was configured).
    pub fn start_streaming() -> (r: BufferState)
        ensures
            state_model(r) is None,
    {
        BufferState::Streaming
    }

    /// Consume one entry from the channel. `deadline_passed` is whether the
    /// buffering deadline had passed when the entry arrived; it is re-read
    /// per entry, never on a timer. Returns the next state and whatever must
    /// be forwarded downstream now, in order.
    pub fn on_entry(self, entry: WalkEntry, deadline_passed: bool) -> (r: (BufferState, Vec<WalkEntry>))
        ensures
            state_model(r.0) == step_state(state_model(self), entry, deadline_passed),
            r.1@ == step_out(state_model(self), entry, deadline_passed),
    {
        match self {
            BufferState::Buffering { acc } => {
                let mut acc = acc;
                if deadline_passed {
                    acc.push(entry);
                    (BufferState::Streaming, acc)
                } else {
                    acc.push(entry);
                    let out: Vec<WalkEntry> = Vec::new();
                    proof {
                        assert(out@ =~= step_out(state_model(self), entry, deadline_passed));
                    }
                    (BufferState::Buffering { acc }, out)
                }
            },
            BufferState::Streaming => {
                let mut out: Vec<WalkEntry> = Vec::new();
                out.push(entry);
                proof {
                    assert(out@ =~= seq![entry]);
                }
                (BufferState::Streaming, out)
            },
        }
    }

    /// The channel closed. A run still buffering forwards its accumulator
    /// sorted by path in one batch; a streaming run has nothing left.
    pub fn on_close(self) -> (r: Vec<WalkEntry>)
        ensures
            state_model(self) matches Some(acc) ==> sorted_by_path(r@) && r@.to_multiset()
                == acc.to_multiset(),
            state_model(self) is None ==> r@ == Seq::<WalkEntry>::empty(),
    {
        match self {
            BufferState::Buffering { acc } => sort_entries(acc),
            BufferState::Streaming => {
                let r: Vec<WalkEntry> = Vec::new();
                proof {
                    assert(r@ =~= Seq::<WalkEntry>::empty());
                }
                r
            },
        }
    }
}

/// The entries of an event sequence, in arrival order.
pub open spec fn arrivals(events: Seq<(WalkEntry, bool)>) -> Seq<WalkEntry> {
    events.map_values(|ev: (WalkEntry, bool)| ev.0)
}

/// Everything forwarded downstream while consuming `events` from state `st`,
/// in order (what the close adds afterwards is `pending` of the final state).
pub open spec fn spec_deliveries(
    events: Seq<(WalkEntry, bool)>,
    st: Option<Seq<WalkEntry>>,
) -> Seq<WalkEntry>
    decreases events.len(),
{
    if events.len() == 0 {
        Seq::empty()
    } else {
        step_out(st, events[0].0, events[0].1) + spec_deliveries(
            events.drop_first(),
            step_state(st, events[0].0, events[0].1),
        )
    }
}

/// The state after consuming `events` from state `st`.
pub open spec fn spec_final_state(
    events: Seq<(WalkEntry, bool)>,
    st: Option<Seq<WalkEntry>>,
) -> Option<Seq<WalkEntry>>
    decreases events.len(),
{
    if events.len() == 0 {
        st
    } else {
        spec_final_state(events.drop_first(), step_state(st, events[0].0, events[0].1))
    }
}

/// Exactly-once delivery: what is forwarded while consuming, together with
/// what is still pending at close, is exactly the pending entries at the
/// start plus the arrivals — nothing duplicated, nothing dropped, in any
/// mix of buffering and streaming.
pub proof fn lemma_exactly_once(events: Seq<(WalkEntry, bool)>, st: Option<Seq<WalkEntry>>)
    ensures
        (spec_deliveries(events, st) + pending(spec_final_state(events, st))).to_multiset() == (
        pending(st) + arrivals(events)).to_multiset(),
    decreases events.len(),
{
    broadcast use vstd::seq_lib::lemma_multiset_commutative;
    broadcast use vstd::seq_lib::group_to_multiset_ensures;
    broadcast use vstd::multiset::group_multiset_axioms;

    if events.len() == 0 {
        assert(spec_deliveries(events, st) + pending(spec_final_state(events, st)) =~= pending(st));
        assert(arrivals(events) =~= Seq::<WalkEntry>::empty());
        assert(pending(st) + arrivals(events) =~= pending(st));
    } else {
        let e = events[0].0;
        let late = events[0].1;
        let rest = events.drop_first();
        let st1 = step_state(st, e, late);
        lemma_exactly_once(rest, st1);
        assert(arrivals(rest) =~= arrivals(events).drop_first());
        assert(arrivals(events)[0] == e);
        assert(arrivals(events) =~= seq![e] + arrivals(rest));
        // one step conserves the entries
        assert((step_out(st, e, late) + pending(st1)).to_multiset() == (pending(st)
            + seq![e]).to_multiset()) by {
            match st {
                Some(acc) => {
                    if late {
                        assert(step_out(st, e, late) + pending(st1) =~= acc.push(e));
                        assert(pending(st) + seq![e] =~= acc.push(e));
                    } else {
                        assert(step_out(st, e, late) + pending(st1) =~= acc.push(e));
                        assert(pending(st) + seq![e] =~= acc.push(e));
                    }
                },
                None => {
                    assert(step_out(st, e, late) + pending(st1) =~= seq![e]);
                    assert(pending(st) + seq![e] =~= seq![e]);
                },
            }
        }
        let d1 = spec_deliveries(rest, st1);
        let p1 = pending(spec_final_state(rest, st1));
        assert(spec_deliveries(events, st) == step_out(st, e, late) + d1);
        assert(spec_final_state(events, st) == spec_final_state(rest, st1));
        assert((step_out(st, e, late) + d1 + p1).to_multiset() =~= step_out(
            st,
            e,
            late,
        ).to_multiset().add(d1.to_multiset()).add(p1.to_multiset())) by {
            assert(((step_out(st, e, late) + d1) + p1).to_multiset() == (step_out(st, e, late)
                + d1).to_multiset().add(p1.to_multiset()));
        }
        assert((d1 + p1).to_multiset() == d1.to_multiset().add(p1.to_multiset()));
        assert((pending(st1) + arrivals(rest)).to_multiset() == pending(st1).to_multiset().add(
            arrivals(rest).to_multiset(),
        ));
        assert((step_out(st, e, late) + pending(st1)).to_multiset() == step_out(
            st,
            e,
            late,
        ).to_multiset().add(pending(st1).to_multiset()));
        assert((pending(st) + seq![e]).to_multiset() == pending(st).to_multiset().add(
            seq![e].to_multiset(),
        ));
        assert((pending(st) + arrivals(events)).to_multiset() == pending(st).to_multiset().add(
            arrivals(events).to_multiset(),
        ));
        assert(arrivals(events).to_multiset() == seq![e].to_multiset().add(
            arrivals(rest).to_multiset(),
        ));
        assert((spec_deliveries(events, st) + pending(spec_final_state(events, st))).to_multiset()
            =~= (pending(st) + arrivals(events)).to_multiset());
    }
}

/// A run with no buffering window forwards exactly the arrivals, in arrival
/// order, and stays streaming.
pub proof fn lemma_streaming_in_arrival_order(events: Seq<(WalkEntry, bool)>)
    ensures
        spec_deliveries(events, None) == arrivals(events),
        spec_final_state(events, None) is None,
    decreases events.len(),
{
    if events.len() == 0 {
        assert(arrivals(events) =~= Seq::<WalkEntry>::empty());
    } else {
        lemma_streaming_in_arrival_order(events.drop_first());
        assert(arrivals(events.drop_first()) =~= arrivals(events).drop_first());
        assert(arrivals(events)[0] == events[0].0);
        assert(spec_deliveries(events, None) =~= arrivals(events));
    }
}

/// A walk that finishes before the deadline forwards nothing while consuming:
/// everything is still pending at close, in arrival order after the initial
/// accumulator, and the close then hands it on sorted by path.
pub proof fn lemma_quick_walk_buffers_all(events: Seq<(WalkEntry, bool)>, acc0: Seq<WalkEntry>)
    requires
        forall|k: int| 0 <= k < events.len() ==> !events[k].1,
    ensures
        spec_deliveries(events, Some(acc0)) == Seq::<WalkEntry>::empty(),
        spec_final_state(events, Some(acc0)) == Some(acc0 + arrivals(events)),
    decreases events.len(),
{
    if events.len() == 0 {
        assert(acc0 + arrivals(events) =~= acc0);
    } else {
        let e = events[0].0;
        assert(!events[0].1);
        lemma_quick_walk_buffers_all(events.drop_first(), acc0.push(e));
        assert(arrivals(events.drop_first()) =~= arrivals(events).drop_first());
        assert(arrivals(events)[0] == e);
        assert(acc0.push(e) + arrivals(events.drop_first()) =~= acc0 + arrivals(events));
        assert(spec_deliveries(events, Some(acc0)) =~= Seq::<WalkEntry>::empty());
    }
}

/// Once some arrival finds the deadline passed, the run forwards exactly the
/// arrivals in arrival order — the earlier ones flushed from the accumulator
/// unsorted, the rest streamed — and nothing is pending at close.
pub proof fn lemma_late_walk_streams_in_arrival_order(
    events: Seq<(WalkEntry, bool)>,
    n: int,
)
    requires
        0 <= n < events.len(),
        events[n].1,
        forall|k: int| 0 <= k < n ==> !events[k].1,
    ensures
        spec_deliveries(events, Some(Seq::<WalkEntry>::empty())) == arrivals(events),
        spec_final_state(events, Some(Seq::<WalkEntry>::empty())) is None,
{
    lemma_late_walk_from(events, Seq::empty(), n);
}

/// Helper for the late-walk law, generalized over the accumulator built up
/// before the first late arrival.
proof fn lemma_late_walk_from(events: Seq<(WalkEntry, bool)>, acc0: Seq<WalkEntry>, n: int)
    requires
        0 <= n < events.len(),
        events[n].1,
        forall|k: int| 0 <= k < n ==> !events[k].1,
    ensures
        spec_deliveries(events, Some(acc0)) == acc0 + arrivals(events),
        spec_final_state(events, Some(acc0)) is None,
    decreases n,
{
    let e = events[0].0;
    let rest = events.drop_first();
    assert(arrivals(rest) =~= arrivals(events).drop_first());
    assert(arrivals(events)[0] == e);
    if n == 0 {
        lemma_streaming_in_arrival_order(rest);
        assert(spec_deliveries(events, Some(acc0)) =~= acc0.push(e) + arrivals(rest));
        assert(acc0.push(e) + arrivals(rest) =~= acc0 + arrivals(events));
    } else {
        assert(!events[0].1);
        assert(forall|k: int| 0 <= k < n - 1 ==> !rest[k].1);
        assert(rest[n - 1].1);
        lemma_late_walk_from(rest, acc0.push(e), n - 1);
        assert(spec_deliveries(events, Some(acc0)) =~= acc0.push(e) + arrivals(rest));
        assert(acc0.push(e) + arrivals(rest) =~= acc0 + arrivals(events));
    }
}

/// Drive the delivery stage over a whole recorded run: consume every event in
/// order, then close. Returns what was forwarded while consuming and what the
/// close forwarded, in order.
pub fn run_buffer(events: Vec<(WalkEntry, bool)>, buffer_first: bool) -> (r: (
    Vec<WalkEntry>,
    Vec<WalkEntry>,
))
    ensures
        r.0@ == spec_deliveries(events@, init_state(buffer_first)),
        sorted_by_path(r.1@),
        r.1@.to_multiset() == pending(
            spec_final_state(events@, init_state(buffer_first)),
        ).to_multiset(),
{
    let ghost evs = events@;
    let mut rem = events;
    let mut st = if buffer_first {
        BufferState::start_buffering()
    } else {
        BufferState::start_streaming()
    };
    let mut streamed: Vec<WalkEntry> = Vec::new();
    proof {
        assert(streamed@ + spec_deliveries(rem@, state_model(st)) =~= spec_deliveries(
            evs,
            init_state(buffer_first),
        ));
    }
    while rem.len() > 0
        invariant
            spec_deliveries(evs, init_state(buffer_first)) == streamed@ + spec_deliveries(
                rem@,
                state_model(st),
            ),
            spec_final_state(evs, init_state(buffer_first)) == spec_final_state(
                rem@,
                state_model(st),
            ),
        decreases rem@.len(),
    {
        let ghost rem0 = rem@;
        let ghost st0 = state_model(st);
        let (e, late) = rem.remove(0);
        proof {
            assert(rem0[0] == (e, late));
            assert(rem@ =~= rem0.drop_first());
        }
        let (st1, mut out) = st.on_entry(e, late);
        st = st1;
        let ghost streamed0 = streamed@;
        let ghost out0 = out@;
        streamed.append(&mut out);
        proof {
            assert(spec_deliveries(rem0, st0) == step_out(st0, e, late) + spec_deliveries(
                rem@,
                state_model(st),
            ));
            assert(streamed@ =~= streamed0 + out0);
            assert(streamed@ + spec_deliveries(rem@, state_model(st)) =~= streamed0
                + spec_deliveries(rem0, st0));
        }
    }
    proof {
        assert(rem@.len() == 0);
        assert(spec_deliveries(rem@, state_model(st)) =~= Seq::<WalkEntry>::empty());
        assert(streamed@ + spec_deliveries(rem@, state_model(st)) =~= streamed@);
    }
    let closing = st.on_close();
    (streamed, closing)
}

/// The state a run begins in: buffering with an empty accumulator when a
/// buffering window is configured, streaming otherwise.
pub open spec fn init_state(buffer_first: bool) -> Option<Seq<WalkEntry>> {
    if buffer_first {
        Some(Seq::<WalkEntry>::empty())
    } else {
        None
    }
}

} // verus!
