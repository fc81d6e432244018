//! The bounded reconciliation timeline: a history of per-tick recorded
//! object states keyed by a wrapping sequence number, together with the
//! modular comparison that decides whether a sequence is still in window.

use vstd::prelude::*;
use std::collections::HashMap;
use crate::common::Vec2;
use crate::net_manage::{spec_queue, UdpConnection};
use crate::net_message::{CUdpType, NetworkMessage};
use crate::player::Player;

verus! {

broadcast use vstd::std_specs::hash::group_hash_axioms;

/// Modulus of sequence numbers and capacity of the timeline.
pub const BUFFER_SIZE: u16 = 1024;

/// Consecutive mismatches tolerated before a correction fires.
pub const MISS_PREDICT_LIMIT: u16 = 5;

/// One object's state as recorded for one tick.
#[derive(Clone, Copy, Debug, PartialEq, Eq, Structural)]
pub struct ObjectState(pub StateType);

/// What was recorded: a full kinematic snapshot or the raw input that
/// produced the tick's motion.
#[derive(Clone, Copy, Debug, PartialEq, Eq, Structural)]
pub enum StateType {
    PlayerState { player: Player },
    InputState { encoded_input: u16, mouse_delta: Vec2 },
}

/// Bounded circular history of recorded per-tick states, the owning
/// sequence counter, and the count of consecutive miss-predictions.
pub struct ReconcileBuffer {
    pub buffer: HashMap<u16, Vec<ObjectState>>,
    pub sequence_counter: u16,
    pub miss_predict_counter: u16,
}

/// Distance from `b` forward to `a` around the sequence modulus.
pub open spec fn spec_seq_diff(a: u16, b: u16) -> int {
    if a >= b {
        a - b
    } else {
        a + BUFFER_SIZE - b
    }
}

/// `a` counts as at or ahead of `b`: the wrap-around gap from `b` up to
/// `a` is zero or under half the modulus.
pub open spec fn spec_is_newer(a: u16, b: u16) -> bool {
    spec_seq_diff(a, b) == 0 || spec_seq_diff(a, b) < BUFFER_SIZE / 2
}

impl ReconcileBuffer {
    /// Every key is a representable sequence number, the counter is one,
    /// and the miss counter never passes its limit.
    pub open spec fn wf(self) -> bool {
        &&& self.sequence_counter < BUFFER_SIZE
        &&& self.miss_predict_counter < MISS_PREDICT_LIMIT
        &&& forall|k: u16| self.buffer@.dom().contains(k) ==> k < BUFFER_SIZE
    }

    /// An empty timeline with the counter at zero.
    pub fn new() -> (r: ReconcileBuffer)
        ensures
            r.wf(),
            r.buffer@ == Map::<u16, Vec<ObjectState>>::empty(),
            r.sequence_counter == 0,
            r.miss_predict_counter == 0,
    {
        ReconcileBuffer {
            buffer: HashMap::new(),
            sequence_counter: 0,
            miss_predict_counter: 0,
        }
    }

    /// Step the owned counter by one tick, wrapping at the modulus.
    pub fn increment_sequence_num(&mut self)
        requires
            old(self).wf(),
        ensures
            final(self).wf(),
            final(self).sequence_counter == (old(self).sequence_counter + 1) % (
            BUFFER_SIZE as int),
            final(self).buffer@ == old(self).buffer@,
            final(self).miss_predict_counter == old(self).miss_predict_counter,
    {
        if self.sequence_counter >= BUFFER_SIZE - 1 {
            self.sequence_counter = 0;
        } else {
            self.sequence_counter = self.sequence_counter + 1;
        }
    }

    /// Whether the owned counter is at or ahead of `rhs` in wrap-around
    /// order: a gap of half the modulus or more means `rhs` has already
    /// cycled out of the window.
    pub fn seq_is_newer(&self, rhs: u16) -> (r: bool)
        requires
            self.wf(),
            rhs < BUFFER_SIZE,
        ensures
            r == spec_is_newer(self.sequence_counter, rhs),
    {
        let diff: u16 = if self.sequence_counter >= rhs {
            self.sequence_counter - rhs
        } else {
            self.sequence_counter + BUFFER_SIZE - rhs
        };
        diff == 0 || diff < BUFFER_SIZE / 2
    }
}

impl ReconcileBuffer {
    /// The recorded history as a mathematical map from sequence number
    /// to that tick's recorded states.
    pub open spec fn history(self) -> Map<u16, Seq<ObjectState>> {
        self.buffer@.map_values(|v: Vec<ObjectState>| v@)
    }

    /// The recorded states at a sequence number, or nothing if that
    /// slot was evicted or never recorded; never a panic.
    pub fn lookup(&self, sequence: u16) -> (r: Option<&Vec<ObjectState>>)
        ensures
            match r {
                Some(v) => self.history().contains_key(sequence) && v@
                    == self.history().index(sequence),
                None => !self.history().contains_key(sequence),
            },
    {
        proof {
            assert(self.history().dom() =~= self.buffer@.dom());
        }
        self.buffer.get(&sequence)
    }

    /// Overwrite the recorded states at a given sequence number.
    pub fn store_at(&mut self, sequence: u16, states: Vec<ObjectState>)
        requires
            old(self).wf(),
            sequence < BUFFER_SIZE,
        ensures
            final(self).wf(),
            final(self).history() == old(self).history().insert(sequence, states@),
            final(self).sequence_counter == old(self).sequence_counter,
            final(self).miss_predict_counter == old(self).miss_predict_counter,
    {
        self.buffer.insert(sequence, states);
        proof {
            assert(final(self).history() =~= old(self).history().insert(sequence, states@));
        }
    }

    /// Forget all recorded history, as on a player identity change.
    pub fn clear_history(&mut self)
        requires
            old(self).wf(),
        ensures
            final(self).wf(),
            final(self).history() == Map::<u16, Seq<ObjectState>>::empty(),
            final(self).sequence_counter == old(self).sequence_counter,
            final(self).miss_predict_counter == old(self).miss_predict_counter,
    {
        self.buffer.clear();
        proof {
            assert(self.history() =~= Map::<u16, Seq<ObjectState>>::empty());
        }
    }
}

/// Store the tick's recorded states at the current sequence, evicting
/// whatever occupied that slot a full cycle ago; no counter advances.
pub fn store_game_state(game_state: Vec<ObjectState>, reconcile_buffer: &mut ReconcileBuffer)
    requires
        old(reconcile_buffer).wf(),
    ensures
        final(reconcile_buffer).wf(),
        final(reconcile_buffer).history() == old(reconcile_buffer).history().insert(
            old(reconcile_buffer).sequence_counter,
            game_state@,
        ),
        final(reconcile_buffer).sequence_counter == old(reconcile_buffer).sequence_counter,
        final(reconcile_buffer).miss_predict_counter == old(
            reconcile_buffer,
        ).miss_predict_counter,
{
    let seq = reconcile_buffer.sequence_counter;
    reconcile_buffer.buffer.insert(seq, game_state);
    proof {
        assert(final(reconcile_buffer).history() =~= old(reconcile_buffer).history().insert(
            old(reconcile_buffer).sequence_counter,
            game_state@,
        ));
    }
}

/// Tag the outgoing batch with the current sequence number, so the
/// server can correlate its snapshot with this tick.
pub fn sequence_message(
    connection: &mut UdpConnection<CUdpType>,
    reconcile_buffer: &ReconcileBuffer,
)
    ensures
        final(connection).messages() == spec_queue(
            old(connection).messages(),
            (NetworkMessage(
                CUdpType::Sequence { sequence_number: reconcile_buffer.sequence_counter },
            )),
        ),
        final(connection).socket == old(connection).socket,
        final(connection).input_packet_buffer == old(connection).input_packet_buffer,
        final(connection).ping == old(connection).ping,
        old(connection).wf() ==> final(connection).wf(),
{
    let current_sequence = reconcile_buffer.sequence_counter;
    connection.add_message(
        NetworkMessage(CUdpType::Sequence { sequence_number: current_sequence }),
    );
}

/// Recording the same states twice at one sequence leaves the history
/// exactly as recording them once.
pub proof fn lemma_record_idempotent(h: Map<u16, Seq<ObjectState>>, s: u16, v: Seq<ObjectState>)
    ensures
        h.insert(s, v).insert(s, v) == h.insert(s, v),
{
    assert(h.insert(s, v).insert(s, v) =~= h.insert(s, v));
}

/// Comparison at a sequence number with itself always reports it as newest.
pub proof fn lemma_is_newer_reflexive(a: u16)
    requires
        a < BUFFER_SIZE,
    ensures
        spec_is_newer(a, a),
{
}

/// Away from the half-modulus boundary the comparison is antisymmetric:
/// of two distinct in-range sequence numbers exactly one is newer. At a
/// gap of exactly half the modulus neither counts as newer.
pub proof fn lemma_is_newer_antisymmetric(a: u16, b: u16)
    requires
        a < BUFFER_SIZE,
        b < BUFFER_SIZE,
        a != b,
    ensures
        spec_seq_diff(a, b) != BUFFER_SIZE / 2 ==> (spec_is_newer(a, b) <==> !spec_is_newer(
            b,
            a,
        )),
        spec_seq_diff(a, b) == BUFFER_SIZE / 2 ==> (!spec_is_newer(a, b) && !spec_is_newer(
            b,
            a,
        )),
{
    assert(spec_seq_diff(a, b) + spec_seq_diff(b, a) == BUFFER_SIZE);
}


/// The slot a record lands in, `i` ticks after sequence `s`.
pub open spec fn seq_at(s: u16, i: int) -> u16 {
    ((s + i) % (BUFFER_SIZE as int)) as u16
}

/// The history after a run of sequential records, each stored at the
/// counter and followed by one counter step.
pub open spec fn spec_record_run(
    h: Map<u16, Seq<ObjectState>>,
    s: u16,
    records: Seq<Seq<ObjectState>>,
) -> Map<u16, Seq<ObjectState>>
    decreases records.len(),
{
    if records.len() == 0 {
        h
    } else {
        spec_record_run(
            h.insert(s, records[0]),
            crate::reconcile::next_seq_num(s),
            records.drop_first(),
        )
    }
}

/// Stepping the counter then advancing `i` ticks lands where advancing
/// `i + 1` ticks from the start does.
proof fn lemma_seq_at_shift(s: u16, i: int)
    requires
        s < BUFFER_SIZE,
        0 <= i,
    ensures
        seq_at(crate::reconcile::next_seq_num(s), i) == seq_at(s, i + 1),
{
    let m = BUFFER_SIZE as int;
    let n = crate::reconcile::next_seq_num(s) as int;
    assert(n == (s + 1) % m) by {
        if s == BUFFER_SIZE - 1 {
            assert((s + 1) % m == 0) by {
                vstd::arithmetic::div_mod::lemma_mod_multiples_vanish(1, 0, m);
            }
        } else {
            vstd::arithmetic::div_mod::lemma_small_mod((s + 1) as nat, m as nat);
        }
    }
    let q = (s + 1) / m;
    vstd::arithmetic::div_mod::lemma_fundamental_div_mod(s + 1, m);
    vstd::arithmetic::div_mod::lemma_mod_multiples_vanish(q, n + i, m);
    assert(m * q + (n + i) == s + 1 + i);
}

/// Within one cycle, two different tick counts land in different
/// slots.
proof fn lemma_seq_at_window(s: u16, a: int, b: int)
    requires
        0 <= a < b,
        b - a < BUFFER_SIZE,
    ensures
        seq_at(s, a) != seq_at(s, b),
{
    let m = BUFFER_SIZE as int;
    let x = s + a;
    let d = b - a;
    let q = x / m;
    let r = x % m;
    vstd::arithmetic::div_mod::lemma_fundamental_div_mod(x, m);
    vstd::arithmetic::div_mod::lemma_mod_bound(x, m);
    if r + d < m {
        vstd::arithmetic::div_mod::lemma_mod_multiples_vanish(q, r + d, m);
        vstd::arithmetic::div_mod::lemma_small_mod((r + d) as nat, m as nat);
        assert(m * q + (r + d) == x + d);
    } else {
        vstd::arithmetic::div_mod::lemma_mod_multiples_vanish(q + 1, r + d - m, m);
        vstd::arithmetic::div_mod::lemma_small_mod((r + d - m) as nat, m as nat);
        assert(m * (q + 1) + (r + d - m) == x + d);
    }
}

/// Slots a run never writes keep whatever the starting history had.
proof fn lemma_run_untouched(
    h: Map<u16, Seq<ObjectState>>,
    s: u16,
    records: Seq<Seq<ObjectState>>,
    key: u16,
)
    requires
        s < BUFFER_SIZE,
        forall|i: int| 0 <= i < records.len() ==> seq_at(s, i) != key,
    ensures
        spec_record_run(h, s, records).contains_key(key) == h.contains_key(key),
        h.contains_key(key) ==> spec_record_run(h, s, records).index(key) == h.index(key),
    decreases records.len(),
{
    if records.len() > 0 {
        let s1 = crate::reconcile::next_seq_num(s);
        assert forall|i: int| 0 <= i < records.drop_first().len() implies seq_at(s1, i)
            != key by {
            lemma_seq_at_shift(s, i);
            assert(seq_at(s, i + 1) != key);
        }
        assert(seq_at(s, 0) == s) by {
            vstd::arithmetic::div_mod::lemma_small_mod(s as nat, BUFFER_SIZE as nat);
        }
        lemma_run_untouched(h.insert(s, records[0]), s1, records.drop_first(), key);
    }
}

/// A record within the last full cycle survives the run, at its slot.
proof fn lemma_run_last_writes(
    h: Map<u16, Seq<ObjectState>>,
    s: u16,
    records: Seq<Seq<ObjectState>>,
    i: int,
)
    requires
        s < BUFFER_SIZE,
        0 <= i < records.len(),
        i + BUFFER_SIZE >= records.len(),
    ensures
        spec_record_run(h, s, records).contains_key(seq_at(s, i)),
        spec_record_run(h, s, records).index(seq_at(s, i)) == records[i],
    decreases records.len(),
{
    let s1 = crate::reconcile::next_seq_num(s);
    let h1 = h.insert(s, records[0]);
    assert(seq_at(s, 0) == s) by {
        vstd::arithmetic::div_mod::lemma_small_mod(s as nat, BUFFER_SIZE as nat);
    }
    if i == 0 {
        assert forall|j: int| 0 <= j < records.drop_first().len() implies seq_at(s1, j)
            != s by {
            lemma_seq_at_shift(s, j);
            lemma_seq_at_window(s, 0, j + 1);
        }
        lemma_run_untouched(h1, s1, records.drop_first(), s);
    } else {
        lemma_seq_at_shift(s, i - 1);
        lemma_run_last_writes(h1, s1, records.drop_first(), i - 1);
        assert(records.drop_first()[i - 1] == records[i]);
    }
}

/// Every slot a run writes, and nothing else, joins the starting
/// history's domain.
proof fn lemma_run_dom(h: Map<u16, Seq<ObjectState>>, s: u16, records: Seq<Seq<ObjectState>>)
    requires
        s < BUFFER_SIZE,
    ensures
        forall|key: u16|
            #![trigger spec_record_run(h, s, records).contains_key(key)]
            spec_record_run(h, s, records).contains_key(key) <==> (h.contains_key(key)
                || exists|i: int| 0 <= i < records.len() && seq_at(s, i) == key),
    decreases records.len(),
{
    if records.len() == 0 {
    } else {
        let s1 = crate::reconcile::next_seq_num(s);
        let h1 = h.insert(s, records[0]);
        let rest = records.drop_first();
        lemma_run_dom(h1, s1, rest);
        assert(seq_at(s, 0) == s) by {
            vstd::arithmetic::div_mod::lemma_small_mod(s as nat, BUFFER_SIZE as nat);
        }
        assert(spec_record_run(h, s, records) == spec_record_run(h1, s1, rest));
        assert forall|key: u16| spec_record_run(h, s, records).contains_key(key) implies (
        h.contains_key(key) || exists|i: int|
            0 <= i < records.len() && seq_at(s, i) == key) by {
            if !h.contains_key(key) {
                if key == s {
                    assert(seq_at(s, 0) == key);
                } else {
                    assert(spec_record_run(h1, s1, rest).contains_key(key));
                    assert(!h1.contains_key(key));
                    assert(exists|j: int| 0 <= j < rest.len() && seq_at(s1, j) == key);
                    let j = choose|j: int| 0 <= j < rest.len() && seq_at(s1, j) == key;
                    lemma_seq_at_shift(s, j);
                    assert(seq_at(s, j + 1) == key);
                }
            }
        }
        assert forall|key: u16| (h.contains_key(key) || exists|i: int|
            0 <= i < records.len() && seq_at(s, i) == key) implies spec_record_run(
            h,
            s,
            records,
        ).contains_key(key) by {
            if h.contains_key(key) || key == s {
                assert(h1.contains_key(key));
                assert(spec_record_run(h1, s1, rest).contains_key(key));
            } else {
                let i = choose|i: int| 0 <= i < records.len() && seq_at(s, i) == key;
                assert(i != 0);
                lemma_seq_at_shift(s, i - 1);
                assert(seq_at(s1, i - 1) == key);
                assert(rest[i - 1] == records[i]);
                assert(exists|j: int| 0 <= j < rest.len() && seq_at(s1, j) == key);
                assert(spec_record_run(h1, s1, rest).contains_key(key));
            }
        }
    }
}

/// The sequence numbers below a bound.
pub open spec fn set_u16_below(n: u16) -> Set<u16> {
    Set::new(|k: u16| k < n)
}

/// That set is finite and holds exactly `n` numbers.
proof fn lemma_set_u16_below_len(n: u16)
    ensures
        set_u16_below(n).finite(),
        set_u16_below(n).len() == n,
    decreases n,
{
    if n == 0 {
        assert(set_u16_below(0) =~= Set::<u16>::empty());
    } else {
        lemma_set_u16_below_len((n - 1) as u16);
        assert(set_u16_below(n) =~= set_u16_below((n - 1) as u16).insert((n - 1) as u16));
    }
}

/// Timeline capacity: a run of at least a full cycle of sequential
/// records, from an empty timeline at sequence zero, leaves exactly
/// one entry per slot -- the newest full cycle of records, the older
/// ones evicted.
pub proof fn lemma_timeline_capacity(records: Seq<Seq<ObjectState>>)
    requires
        records.len() >= BUFFER_SIZE,
    ensures
        spec_record_run(Map::<u16, Seq<ObjectState>>::empty(), 0, records).dom()
            == set_u16_below(BUFFER_SIZE),
        spec_record_run(Map::<u16, Seq<ObjectState>>::empty(), 0, records).dom().len()
            == BUFFER_SIZE,
        forall|i: int|
            records.len() - BUFFER_SIZE <= i < records.len() ==> spec_record_run(
                Map::<u16, Seq<ObjectState>>::empty(),
                0,
                records,
            ).index(seq_at(0, i)) == records[i],
{
    let h0 = Map::<u16, Seq<ObjectState>>::empty();
    let m = spec_record_run(h0, 0, records);
    lemma_run_dom(h0, 0, records);
    assert forall|key: u16| m.contains_key(key) implies key < BUFFER_SIZE by {
        assert(!h0.contains_key(key));
        assert(exists|i: int| 0 <= i < records.len() && seq_at(0u16, i) == key);
        let i = choose|i: int| 0 <= i < records.len() && seq_at(0u16, i) == key;
        vstd::arithmetic::div_mod::lemma_mod_bound(0 + i, BUFFER_SIZE as int);
    }
    assert forall|key: u16| key < BUFFER_SIZE implies m.contains_key(key) by {
        vstd::arithmetic::div_mod::lemma_small_mod(key as nat, BUFFER_SIZE as nat);
        assert(seq_at(0u16, key as int) == key);
        assert(0 <= key as int && (key as int) < records.len());
        assert(exists|i: int| 0 <= i < records.len() && seq_at(0u16, i) == key);
        assert(m.contains_key(key));
    }
    assert(m.dom() =~= set_u16_below(BUFFER_SIZE));
    lemma_set_u16_below_len(BUFFER_SIZE);
    assert forall|i: int|
        records.len() - BUFFER_SIZE <= i < records.len() implies m.index(seq_at(0, i))
        == records[i] by {
        lemma_run_last_writes(h0, 0, records, i);
    }
}

} // verus!
