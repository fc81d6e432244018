//! The reconciliation engine: compare the timeline's recorded snapshot
//! against the authoritative one for the same sequence, count sustained
//! divergence, and on the limit correct history and replay buffered
//! inputs from the corrected base.

use vstd::prelude::*;
use crate::camera::{spec_clamp, PITCH_LIMIT, YAW_LIMIT};
use crate::common::{Id, Vec2, Vec3};
use crate::net_reconciliation::{
    spec_is_newer, ObjectState, ReconcileBuffer, StateType, BUFFER_SIZE, MISS_PREDICT_LIMIT,
};
use crate::player::{
    clamp_i64, spec_controller_anim, spec_predict_tick, AnimationState, ContactHit, Player,
    PlayerInfo, PredictedPlayerState, YawRotation, POS_BOUND, TERMINAL_VELOCITY,
};

verus! {

/// The player snapshot a recorded frame carries: the last one recorded
/// that tick.
pub open spec fn spec_recorded_player(states: Seq<ObjectState>) -> Option<Player>
    decreases states.len(),
{
    if states.len() == 0 {
        None
    } else {
        match states.last().0 {
            StateType::PlayerState { player } => Some(player),
            StateType::InputState { .. } => spec_recorded_player(states.drop_last()),
        }
    }
}

/// The input a recorded frame carries: the first one recorded that
/// tick.
pub open spec fn spec_recorded_input(states: Seq<ObjectState>) -> Option<(u16, Vec2)>
    decreases states.len(),
{
    if states.len() == 0 {
        None
    } else {
        match states[0].0 {
            StateType::InputState { encoded_input, mouse_delta } => Some(
                (encoded_input, mouse_delta),
            ),
            StateType::PlayerState { .. } => spec_recorded_input(states.drop_first()),
        }
    }
}

/// The snapshot a server map carries for an identity: the first entry
/// with that identity.
pub open spec fn spec_find_player(players: Seq<(Id, Player)>, id: Id) -> Option<Player>
    decreases players.len(),
{
    if players.len() == 0 {
        None
    } else if players[0].0 == id {
        Some(players[0].1)
    } else {
        spec_find_player(players.drop_first(), id)
    }
}

/// A frame with every player snapshot replaced by the given one; inputs
/// are untouched.
pub open spec fn spec_overwrite_player(states: Seq<ObjectState>, p: Player) -> Seq<ObjectState> {
    states.map_values(
        |o: ObjectState|
            match o.0 {
                StateType::PlayerState { player } => ObjectState(
                    StateType::PlayerState { player: p },
                ),
                StateType::InputState { .. } => o,
            },
    )
}

/// The last player snapshot a recorded frame carries.
pub fn find_recorded_player(states: &Vec<ObjectState>) -> (r: Option<Player>)
    ensures
        r == spec_recorded_player(states@),
{
    let mut found: Option<Player> = None;
    let mut i: usize = 0;
    while i < states.len()
        invariant
            i <= states@.len(),
            found == spec_recorded_player(states@.take(i as int)),
        decreases states@.len() - i,
    {
        match &states[i].0 {
            StateType::PlayerState { player } => {
                found = Some(*player);
            },
            StateType::InputState { .. } => {},
        }
        proof {
            assert(states@.take(i as int + 1).drop_last() =~= states@.take(i as int));
            assert(states@.take(i as int + 1).last() == states@[i as int]);
        }
        i = i + 1;
    }
    proof {
        assert(states@.take(states@.len() as int) =~= states@);
    }
    found
}

/// The first input a recorded frame carries.
pub fn find_recorded_input(states: &Vec<ObjectState>) -> (r: Option<(u16, Vec2)>)
    ensures
        r == spec_recorded_input(states@),
{
    let mut i: usize = 0;
    proof {
        assert(states@.skip(0) =~= states@);
    }
    while i < states.len()
        invariant
            i <= states@.len(),
            spec_recorded_input(states@) == spec_recorded_input(states@.skip(i as int)),
        decreases states@.len() - i,
    {
        match &states[i].0 {
            StateType::InputState { encoded_input, mouse_delta } => {
                proof {
                    assert(states@.skip(i as int)[0] == states@[i as int]);
                }
                return Some((*encoded_input, *mouse_delta));
            },
            StateType::PlayerState { .. } => {},
        }
        proof {
            assert(states@.skip(i as int)[0] == states@[i as int]);
            assert(states@.skip(i as int).drop_first() =~= states@.skip(i as int + 1));
        }
        i = i + 1;
    }
    proof {
        assert(states@.skip(states@.len() as int) =~= Seq::<ObjectState>::empty());
    }
    None
}

/// The snapshot a server map carries for an identity.
pub fn find_player(players: &Vec<(Id, Player)>, id: Id) -> (r: Option<Player>)
    ensures
        r == spec_find_player(players@, id),
{
    let mut i: usize = 0;
    proof {
        assert(players@.skip(0) =~= players@);
    }
    while i < players.len()
        invariant
            i <= players@.len(),
            spec_find_player(players@, id) == spec_find_player(players@.skip(i as int), id),
        decreases players@.len() - i,
    {
        proof {
            assert(players@.skip(i as int)[0] == players@[i as int]);
            assert(players@.skip(i as int).drop_first() =~= players@.skip(i as int + 1));
        }
        if players[i].0 .0 == id.0 {
            return Some(players[i].1);
        }
        i = i + 1;
    }
    proof {
        assert(players@.skip(players@.len() as int) =~= Seq::<(Id, Player)>::empty());
    }
    None
}

/// A copy of a recorded frame.
fn copy_states(states: &Vec<ObjectState>) -> (r: Vec<ObjectState>)
    ensures
        r@ == states@,
{
    let mut out: Vec<ObjectState> = Vec::new();
    let mut i: usize = 0;
    while i < states.len()
        invariant
            i <= states@.len(),
            out@ == states@.take(i as int),
        decreases states@.len() - i,
    {
        out.push(states[i]);
        proof {
            assert(out@ =~= states@.take(i as int + 1));
        }
        i = i + 1;
    }
    proof {
        assert(states@.take(states@.len() as int) =~= states@);
    }
    out
}

/// A frame with every player snapshot replaced by the given one.
fn overwrite_player(states: &Vec<ObjectState>, p: Player) -> (r: Vec<ObjectState>)
    ensures
        r@ == spec_overwrite_player(states@, p),
{
    let mut out: Vec<ObjectState> = Vec::new();
    let mut i: usize = 0;
    while i < states.len()
        invariant
            i <= states@.len(),
            out@ == spec_overwrite_player(states@.take(i as int), p),
        decreases states@.len() - i,
    {
        match &states[i].0 {
            StateType::PlayerState { .. } => {
                out.push(ObjectState(StateType::PlayerState { player: p }));
            },
            StateType::InputState { .. } => {
                out.push(states[i]);
            },
        }
        proof {
            assert(out@ =~= spec_overwrite_player(states@.take(i as int + 1), p));
        }
        i = i + 1;
    }
    proof {
        assert(states@.take(states@.len() as int) =~= states@);
    }
    out
}

/// A correction to carry out: the sequence whose slot was overwritten
/// and the corrected frame, ready to replay from.
pub struct ResimulatePlayer {
    pub received_sequence_number: u16,
    pub object_states: Vec<ObjectState>,
}

impl ResimulatePlayer {
    /// The carried sequence is representable.
    pub open spec fn wf(self) -> bool {
        self.received_sequence_number < BUFFER_SIZE
    }
}

/// What one reconciliation pass decides, given the history at the
/// tagged sequence, the server's snapshot for the local player, and the
/// current miss count: nothing to compare leaves everything unchanged;
/// equality clears the count; divergence counts up until the limit,
/// whose reach corrects the slot and clears the count.
pub open spec fn spec_reconcile_decision(
    h: Map<u16, Seq<ObjectState>>,
    miss: u16,
    seq: u16,
    server: Option<Player>,
) -> (Map<u16, Seq<ObjectState>>, u16, bool) {
    if !h.contains_key(seq) {
        (h, miss, false)
    } else {
        let recorded = spec_recorded_player(h[seq]);
        match (recorded, server) {
            (Some(cps), Some(sps)) => {
                if sps == cps {
                    (h, 0u16, false)
                } else if miss < MISS_PREDICT_LIMIT - 1 {
                    (h, (miss + 1) as u16, false)
                } else {
                    (h.insert(seq, spec_overwrite_player(h[seq], sps)), 0u16, true)
                }
            },
            _ => (h, miss, false),
        }
    }
}

/// One reconciliation pass for the locally owned player against the
/// authoritative snapshot tagged with `message_seq_num`. On the
/// miss-predict limit the historical slot is overwritten with the
/// authoritative snapshot and the correction to replay is handed back.
pub fn reconcile_player(
    message_seq_num: u16,
    server_players: &Vec<(Id, Player)>,
    player_info: &PlayerInfo,
    reconcile_buffer: &mut ReconcileBuffer,
) -> (r: Option<ResimulatePlayer>)
    requires
        old(reconcile_buffer).wf(),
        message_seq_num < BUFFER_SIZE,
    ensures
        final(reconcile_buffer).wf(),
        final(reconcile_buffer).sequence_counter == old(reconcile_buffer).sequence_counter,
        ({
            let decision = spec_reconcile_decision(
                old(reconcile_buffer).history(),
                old(reconcile_buffer).miss_predict_counter,
                message_seq_num,
                spec_find_player(server_players@, player_info.current_player_id),
            );
            &&& final(reconcile_buffer).history() == decision.0
            &&& final(reconcile_buffer).miss_predict_counter == decision.1
            &&& match r {
                Some(c) => decision.2 && c.received_sequence_number == message_seq_num
                    && c.object_states@ == decision.0.index(message_seq_num) && c.wf(),
                None => !decision.2,
            }
        }),
{
    let server_player_state = find_player(server_players, player_info.current_player_id);
    let recorded = match reconcile_buffer.lookup(message_seq_num) {
        Some(states) => Some(copy_states(states)),
        None => None,
    };
    let states = match recorded {
        Some(states) => states,
        None => {
            return None;
        },
    };
    let cps = match find_recorded_player(&states) {
        Some(p) => p,
        None => {
            return None;
        },
    };
    let sps = match server_player_state {
        Some(p) => p,
        None => {
            return None;
        },
    };
    if sps == cps {
        reconcile_buffer.miss_predict_counter = 0;
        None
    } else if reconcile_buffer.miss_predict_counter < MISS_PREDICT_LIMIT - 1 {
        reconcile_buffer.miss_predict_counter = reconcile_buffer.miss_predict_counter + 1;
        None
    } else {
        let corrected = overwrite_player(&states, sps);
        let carried = copy_states(&corrected);
        reconcile_buffer.store_at(message_seq_num, corrected);
        reconcile_buffer.miss_predict_counter = 0;
        Some(
            ResimulatePlayer {
                received_sequence_number: message_seq_num,
                object_states: carried,
            },
        )
    }
}


/// A snapshot from the wire forced into the ranges the movement rules
/// keep state in.
pub open spec fn spec_sanitize(p: Player) -> PredictedPlayerState {
    PredictedPlayerState {
        position: Vec3 {
            x: spec_clamp(p.position.x as int, POS_BOUND as int) as i64,
            y: spec_clamp(p.position.y as int, POS_BOUND as int) as i64,
            z: spec_clamp(p.position.z as int, POS_BOUND as int) as i64,
        },
        linear_velocity: Vec3 {
            x: spec_clamp(p.linear_velocity.x as int, TERMINAL_VELOCITY as int) as i64,
            y: spec_clamp(p.linear_velocity.y as int, TERMINAL_VELOCITY as int) as i64,
            z: spec_clamp(p.linear_velocity.z as int, TERMINAL_VELOCITY as int) as i64,
        },
        yaw: spec_clamp(p.yaw as int, YAW_LIMIT as int) as i64,
        pitch: spec_clamp(p.pitch as int, PITCH_LIMIT as int) as i64,
    }
}

/// Force a snapshot from the wire into the representable ranges.
fn sanitize_player(p: Player) -> (r: PredictedPlayerState)
    ensures
        r == spec_sanitize(p),
        r.wf(),
{
    PredictedPlayerState {
        position: Vec3 {
            x: clamp_i64(p.position.x, POS_BOUND),
            y: clamp_i64(p.position.y, POS_BOUND),
            z: clamp_i64(p.position.z, POS_BOUND),
        },
        linear_velocity: Vec3 {
            x: clamp_i64(p.linear_velocity.x, TERMINAL_VELOCITY),
            y: clamp_i64(p.linear_velocity.y, TERMINAL_VELOCITY),
            z: clamp_i64(p.linear_velocity.z, TERMINAL_VELOCITY),
        },
        yaw: clamp_i64(p.yaw, YAW_LIMIT),
        pitch: clamp_i64(p.pitch, PITCH_LIMIT),
    }
}

/// The sequence slot after a given one, wrapping at the modulus.
pub open spec fn next_seq_num(s: u16) -> u16 {
    if s >= BUFFER_SIZE - 1 {
        0u16
    } else {
        (s + 1) as u16
    }
}

/// One replay step at a slot: the recorded input, sanitized, drives the
/// movement rules from the running state over free space, and the
/// slot's player snapshot is rewritten to the result; a slot without a
/// recorded input leaves both untouched.
pub open spec fn spec_resim_step(
    h: Map<u16, Seq<ObjectState>>,
    s: PredictedPlayerState,
    i: u16,
    rot: YawRotation,
) -> (Map<u16, Seq<ObjectState>>, PredictedPlayerState) {
    if h.contains_key(i) {
        match spec_recorded_input(h.index(i)) {
            Some(inp) => {
                let delta = Vec2 {
                    x: spec_clamp(inp.1.x as int, 1000000000) as i64,
                    y: spec_clamp(inp.1.y as int, 1000000000) as i64,
                };
                let s2 = spec_predict_tick(s, inp.0, delta, rot, None::<ContactHit>);
                let p = Player {
                    position: s2.position,
                    linear_velocity: s2.linear_velocity,
                    yaw: s2.yaw,
                    pitch: s2.pitch,
                    animation_state: spec_controller_anim(inp.0),
                };
                (h.insert(i, spec_overwrite_player(h.index(i), p)), s2)
            },
            None => (h, s),
        }
    } else {
        (h, s)
    }
}

/// The replay from a slot onward: step each in-window slot in turn,
/// stopping at the first slot past the owned counter's window or after
/// a full cycle.
pub open spec fn spec_resimulate(
    h: Map<u16, Seq<ObjectState>>,
    s: PredictedPlayerState,
    i: u16,
    fuel: nat,
    counter: u16,
    rot: YawRotation,
) -> (Map<u16, Seq<ObjectState>>, PredictedPlayerState)
    decreases fuel,
{
    if fuel == 0 || !spec_is_newer(counter, i) {
        (h, s)
    } else {
        let step = spec_resim_step(h, s, i, rot);
        spec_resimulate(step.0, step.1, next_seq_num(i), (fuel - 1) as nat, counter, rot)
    }
}

impl ResimulatePlayer {
    /// Write the corrected frame back into its slot and hand out the
    /// corrected base state, forced into the representable ranges;
    /// a frame without a player snapshot yields no base.
    pub fn rollback_player(&self, reconcile_buffer: &mut ReconcileBuffer) -> (r: Option<
        PredictedPlayerState,
    >)
        requires
            old(reconcile_buffer).wf(),
            self.wf(),
        ensures
            final(reconcile_buffer).wf(),
            final(reconcile_buffer).history() == old(reconcile_buffer).history().insert(
                self.received_sequence_number,
                self.object_states@,
            ),
            final(reconcile_buffer).sequence_counter == old(
                reconcile_buffer,
            ).sequence_counter,
            final(reconcile_buffer).miss_predict_counter == old(
                reconcile_buffer,
            ).miss_predict_counter,
            r == match spec_recorded_player(self.object_states@) {
                Some(p) => Some(spec_sanitize(p)),
                None => None::<PredictedPlayerState>,
            },
            match r {
                Some(s) => s.wf(),
                None => true,
            },
    {
        let states = copy_states(&self.object_states);
        reconcile_buffer.store_at(self.received_sequence_number, states);
        match find_recorded_player(&self.object_states) {
            Some(p) => Some(sanitize_player(p)),
            None => None,
        }
    }

    /// Replay the recorded inputs from the slot after the corrected one
    /// while the window lasts, rewriting each slot's player snapshot and
    /// advancing the running state; the movement frame's rotation stays
    /// the caller's, taken from the corrected base.
    pub fn resimulate_player(
        &self,
        reconcile_buffer: &mut ReconcileBuffer,
        state: &mut PredictedPlayerState,
        rotation: &YawRotation,
    )
        requires
            old(reconcile_buffer).wf(),
            old(state).wf(),
            rotation.wf(),
            self.wf(),
        ensures
            final(reconcile_buffer).wf(),
            final(reconcile_buffer).sequence_counter == old(
                reconcile_buffer,
            ).sequence_counter,
            final(reconcile_buffer).miss_predict_counter == old(
                reconcile_buffer,
            ).miss_predict_counter,
            ({
                let rr = spec_resimulate(
                    old(reconcile_buffer).history(),
                    *old(state),
                    next_seq_num(self.received_sequence_number),
                    BUFFER_SIZE as nat,
                    old(reconcile_buffer).sequence_counter,
                    *rotation,
                );
                final(reconcile_buffer).history() == rr.0 && *final(state) == rr.1
            }),
            final(state).wf(),
    {
        let mut i: u16 = if self.received_sequence_number >= BUFFER_SIZE - 1 {
            0
        } else {
            self.received_sequence_number + 1
        };
        let mut d: u16 = 0;
        while d < BUFFER_SIZE && reconcile_buffer.seq_is_newer(i)
            invariant
                reconcile_buffer.wf(),
                state.wf(),
                rotation.wf(),
                i < BUFFER_SIZE,
                d <= BUFFER_SIZE,
                reconcile_buffer.sequence_counter == old(reconcile_buffer).sequence_counter,
                reconcile_buffer.miss_predict_counter == old(
                    reconcile_buffer,
                ).miss_predict_counter,
                spec_resimulate(
                    old(reconcile_buffer).history(),
                    *old(state),
                    next_seq_num(self.received_sequence_number),
                    BUFFER_SIZE as nat,
                    old(reconcile_buffer).sequence_counter,
                    *rotation,
                ) == spec_resimulate(
                    reconcile_buffer.history(),
                    *state,
                    i,
                    (BUFFER_SIZE - d) as nat,
                    old(reconcile_buffer).sequence_counter,
                    *rotation,
                ),
            decreases BUFFER_SIZE - d,
        {
            let ghost h_cur = reconcile_buffer.history();
            let ghost s_cur = *state;
            let frame = match reconcile_buffer.lookup(i) {
                Some(st) => Some(copy_states(st)),
                None => None,
            };
            match frame {
                Some(states) => {
                    match find_recorded_input(&states) {
                        Some((mask, delta)) => {
                            let dd = Vec2 {
                                x: clamp_i64(delta.x, 1000000000),
                                y: clamp_i64(delta.y, 1000000000),
                            };
                            crate::player::predict_player_tick(state, mask, dd, rotation, None);
                            let anim = if mask != 0 {
                                AnimationState::Walking
                            } else {
                                AnimationState::Idle
                            };
                            let p = Player::new(
                                state.position,
                                state.linear_velocity,
                                state.yaw,
                                state.pitch,
                                anim,
                            );
                            let corrected = overwrite_player(&states, p);
                            reconcile_buffer.store_at(i, corrected);
                        },
                        None => {},
                    }
                },
                None => {},
            }
            proof {
                assert(spec_resim_step(h_cur, s_cur, i, *rotation).0
                    == reconcile_buffer.history());
                assert(spec_resim_step(h_cur, s_cur, i, *rotation).1 == *state);
            }
            i = if i >= BUFFER_SIZE - 1 {
                0
            } else {
                i + 1
            };
            d = d + 1;
        }
    }

    /// Carry the whole correction out: roll back to the corrected base,
    /// replay the buffered inputs, and hand out the state the live
    /// prediction should adopt; without a recorded base nothing is
    /// replayed.
    pub fn apply(
        &self,
        reconcile_buffer: &mut ReconcileBuffer,
        rotation: &YawRotation,
    ) -> (r: Option<PredictedPlayerState>)
        requires
            old(reconcile_buffer).wf(),
            rotation.wf(),
            self.wf(),
        ensures
            final(reconcile_buffer).wf(),
            final(reconcile_buffer).sequence_counter == old(
                reconcile_buffer,
            ).sequence_counter,
            final(reconcile_buffer).miss_predict_counter == old(
                reconcile_buffer,
            ).miss_predict_counter,
            ({
                let h1 = old(reconcile_buffer).history().insert(
                    self.received_sequence_number,
                    self.object_states@,
                );
                match spec_recorded_player(self.object_states@) {
                    None => final(reconcile_buffer).history() == h1 && r is None,
                    Some(p) => {
                        let rr = spec_resimulate(
                            h1,
                            spec_sanitize(p),
                            next_seq_num(self.received_sequence_number),
                            BUFFER_SIZE as nat,
                            old(reconcile_buffer).sequence_counter,
                            *rotation,
                        );
                        &&& final(reconcile_buffer).history() == rr.0
                        &&& r == Some(rr.1)
                        &&& rr.1.wf()
                    },
                }
            }),
    {
        let base = self.rollback_player(reconcile_buffer);
        match base {
            None => None,
            Some(mut st) => {
                self.resimulate_player(reconcile_buffer, &mut st, rotation);
                Some(st)
            },
        }
    }
}


/// A run of consecutive reconciliation passes against one slot and one
/// authoritative snapshot, counting the corrections that fire.
pub open spec fn spec_decide_n(
    h: Map<u16, Seq<ObjectState>>,
    miss: u16,
    seq: u16,
    sps: Player,
    k: nat,
) -> (Map<u16, Seq<ObjectState>>, u16, nat)
    decreases k,
{
    if k == 0 {
        (h, miss, 0)
    } else {
        let d = spec_reconcile_decision(h, miss, seq, Some(sps));
        let rest = spec_decide_n(d.0, d.1, seq, sps, (k - 1) as nat);
        (rest.0, rest.1, (if d.2 {
            1nat
        } else {
            0nat
        }) + rest.2)
    }
}

/// Sustained divergence below the limit only counts: the history is
/// untouched and nothing fires.
proof fn lemma_reconcile_counts(
    h: Map<u16, Seq<ObjectState>>,
    miss: u16,
    seq: u16,
    sps: Player,
    k: nat,
)
    requires
        h.contains_key(seq),
        spec_recorded_player(h.index(seq)) is Some,
        spec_recorded_player(h.index(seq)) != Some(sps),
        miss + k <= MISS_PREDICT_LIMIT - 1,
    ensures
        spec_decide_n(h, miss, seq, sps, k) == (h, (miss + k) as u16, 0nat),
    decreases k,
{
    if k > 0 {
        lemma_reconcile_counts(h, (miss + 1) as u16, seq, sps, (k - 1) as nat);
    }
}

/// The correction fires exactly at the limit: divergence sustained for
/// exactly the limit's worth of passes leaves the history corrected
/// once, at that slot, with the miss count back at zero.
pub proof fn lemma_reconcile_trigger(
    h: Map<u16, Seq<ObjectState>>,
    seq: u16,
    sps: Player,
    k: nat,
)
    requires
        h.contains_key(seq),
        spec_recorded_player(h.index(seq)) is Some,
        spec_recorded_player(h.index(seq)) != Some(sps),
        k <= MISS_PREDICT_LIMIT,
    ensures
        k < MISS_PREDICT_LIMIT ==> spec_decide_n(h, 0, seq, sps, k) == (h, k as u16, 0nat),
        k == MISS_PREDICT_LIMIT ==> spec_decide_n(h, 0, seq, sps, k) == (
            h.insert(seq, spec_overwrite_player(h.index(seq), sps)),
            0u16,
            1nat,
        ),
{
    if k < MISS_PREDICT_LIMIT {
        lemma_reconcile_counts(h, 0, seq, sps, k);
    } else {
        lemma_decide_last_fires(h, 0, seq, sps, k);
    }
}

/// A run whose length just reaches the limit fires exactly once, at
/// its last pass.
proof fn lemma_decide_last_fires(
    h: Map<u16, Seq<ObjectState>>,
    miss: u16,
    seq: u16,
    sps: Player,
    k: nat,
)
    requires
        h.contains_key(seq),
        spec_recorded_player(h.index(seq)) is Some,
        spec_recorded_player(h.index(seq)) != Some(sps),
        miss + k == MISS_PREDICT_LIMIT,
        k >= 1,
    ensures
        spec_decide_n(h, miss, seq, sps, k) == (
            h.insert(seq, spec_overwrite_player(h.index(seq), sps)),
            0u16,
            1nat,
        ),
    decreases k,
{
    let d = spec_reconcile_decision(h, miss, seq, Some(sps));
    if k == 1 {
        assert(d.2);
        assert(d.0 == h.insert(seq, spec_overwrite_player(h.index(seq), sps)));
        assert(d.1 == 0u16);
        assert(spec_decide_n(d.0, d.1, seq, sps, 0nat) == (d.0, d.1, 0nat));
        assert(spec_decide_n(h, miss, seq, sps, k) == (d.0, 0u16, 1nat));
    } else {
        assert(miss < MISS_PREDICT_LIMIT - 1);
        assert(!d.2 && d.0 == h && d.1 == miss + 1);
        lemma_decide_last_fires(h, (miss + 1) as u16, seq, sps, (k - 1) as nat);
        assert(spec_decide_n(h, miss, seq, sps, k) == (
            h.insert(seq, spec_overwrite_player(h.index(seq), sps)),
            0u16,
            1nat,
        ));
    }
}

} // verus!
