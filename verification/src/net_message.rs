//! The wire protocol: one disjoint message alphabet per channel and
//! direction, each with a deterministic, self-describing binary encoding.
//!
//! A batch of queued messages is serialized as one blob: a two-byte count
//! followed by the messages. Decoding is specified exactly by the
//! specification-level decoders; a blob decodes successfully if and only
//! if its specification decoder yields a value, and decoding an encoding
//! gives the batch back (the round-trip law).

use vstd::prelude::*;
use crate::chat::ChatMessage;
use crate::codec::{
    dec_i64, dec_lp_bytes, dec_u16, dec_u32, dec_u8, enc_i64, enc_lp_bytes, enc_u16, enc_u32,
    enc_u8, lemma_i64_round_trip, lemma_lp_bytes_round_trip, lemma_seq_add_assoc,
    lemma_u16_round_trip, lemma_u32_round_trip, read_i64, read_lp_bytes,
    read_u16, read_u32, read_u8, write_i64, write_lp_bytes, write_u16, write_u32, write_u8,
    DecodeError,
};
use crate::common::{Id, Vec2, Vec3};
use crate::player::{AnimationState, Player};

verus! {

/// A message kind that one connection may carry: a mathematical view,
/// well-formedness, an exact binary encoding of views, and its inverse,
/// proved to round-trip.
pub trait NetworkMessageType: Sized {
    /// The mathematical value of a message: heap-held fields appear as
    /// sequences.
    type VT;

    /// This message's mathematical value.
    spec fn view_of(self) -> Self::VT;

    /// Every count carried inside the message fits its wire field.
    spec fn wfv(v: Self::VT) -> bool;

    /// The message's bytes on the wire.
    spec fn spec_enc(v: Self::VT) -> Seq<u8>;

    /// Consume one message from the front, yielding its value and the
    /// rest.
    spec fn spec_dec(s: Seq<u8>) -> Option<(Self::VT, Seq<u8>)>;

    /// Decoding an encoding yields the message back with the leftover
    /// bytes untouched.
    proof fn lemma_round_trip(v: Self::VT, rest: Seq<u8>)
        requires
            Self::wfv(v),
        ensures
            Self::spec_dec(Self::spec_enc(v) + rest) == Some((v, rest)),
    ;

    /// Append this message's encoding to an output buffer.
    fn encode(&self, out: &mut Vec<u8>)
        requires
            Self::wfv(self.view_of()),
        ensures
            final(out)@ == old(out)@ + Self::spec_enc(self.view_of()),
    ;

    /// Read one message at the cursor, exactly as the specification
    /// decoder does on the remaining bytes.
    fn decode(bytes: &Vec<u8>, pos: &mut usize) -> (r: Result<Self, DecodeError>)
        requires
            *old(pos) <= bytes@.len(),
        ensures
            *old(pos) <= *final(pos) <= bytes@.len(),
            match r {
                Ok(v) => Self::spec_dec(bytes@.skip(*old(pos) as int)) == Some(
                    (v.view_of(), bytes@.skip(*final(pos) as int)),
                ) && Self::wfv(v.view_of()),
                Err(_) => Self::spec_dec(bytes@.skip(*old(pos) as int)) is None,
            },
    ;
}

/// A typed message queued on a connection of the matching kind.
#[derive(Clone, Debug)]
pub struct NetworkMessage<T: NetworkMessageType>(pub T);

// ------------------------------------------------------------ fields

/// An identity: its raw number.
pub open spec fn enc_id(id: Id) -> Seq<u8> {
    enc_u32(id.0)
}

/// Read an identity.
pub open spec fn dec_id(s: Seq<u8>) -> Option<(Id, Seq<u8>)> {
    match dec_u32(s) {
        Some((v, rest)) => Some((Id(v), rest)),
        None => None,
    }
}

pub proof fn lemma_id_round_trip(id: Id, rest: Seq<u8>)
    ensures
        dec_id(enc_id(id) + rest) == Some((id, rest)),
{
    lemma_u32_round_trip(id.0, rest);
}

pub fn write_id(out: &mut Vec<u8>, id: &Id)
    ensures
        final(out)@ == old(out)@ + enc_id(*id),
{
    write_u32(out, id.0);
}

pub fn read_id(bytes: &Vec<u8>, pos: &mut usize) -> (r: Result<Id, DecodeError>)
    requires
        *old(pos) <= bytes@.len(),
    ensures
        *old(pos) <= *final(pos) <= bytes@.len(),
        match r {
            Ok(v) => dec_id(bytes@.skip(*old(pos) as int)) == Some(
                (v, bytes@.skip(*final(pos) as int)),
            ),
            Err(_) => dec_id(bytes@.skip(*old(pos) as int)) is None,
        },
{
    match read_u32(bytes, pos) {
        Ok(v) => Ok(Id(v)),
        Err(e) => Err(e),
    }
}

/// An animation, as a small tag.
pub open spec fn enc_anim(a: AnimationState) -> Seq<u8> {
    match a {
        AnimationState::Idle => seq![0u8],
        AnimationState::Walking => seq![1u8],
        AnimationState::Running => seq![2u8],
        AnimationState::Jumping => seq![3u8],
        AnimationState::Falling => seq![4u8],
    }
}

/// Read an animation tag; unknown tags are malformed.
pub open spec fn dec_anim(s: Seq<u8>) -> Option<(AnimationState, Seq<u8>)> {
    match dec_u8(s) {
        Some((tag, rest)) => {
            if tag == 0 {
                Some((AnimationState::Idle, rest))
            } else if tag == 1 {
                Some((AnimationState::Walking, rest))
            } else if tag == 2 {
                Some((AnimationState::Running, rest))
            } else if tag == 3 {
                Some((AnimationState::Jumping, rest))
            } else if tag == 4 {
                Some((AnimationState::Falling, rest))
            } else {
                None
            }
        },
        None => None,
    }
}

pub proof fn lemma_anim_round_trip(a: AnimationState, rest: Seq<u8>)
    ensures
        dec_anim(enc_anim(a) + rest) == Some((a, rest)),
{
    assert((enc_anim(a) + rest).skip(1) =~= rest);
}

pub fn write_anim(out: &mut Vec<u8>, a: &AnimationState)
    ensures
        final(out)@ == old(out)@ + enc_anim(*a),
{
    let tag: u8 = match a {
        AnimationState::Idle => 0,
        AnimationState::Walking => 1,
        AnimationState::Running => 2,
        AnimationState::Jumping => 3,
        AnimationState::Falling => 4,
    };
    write_u8(out, tag);
}

pub fn read_anim(bytes: &Vec<u8>, pos: &mut usize) -> (r: Result<AnimationState, DecodeError>)
    requires
        *old(pos) <= bytes@.len(),
    ensures
        *old(pos) <= *final(pos) <= bytes@.len(),
        match r {
            Ok(v) => dec_anim(bytes@.skip(*old(pos) as int)) == Some(
                (v, bytes@.skip(*final(pos) as int)),
            ),
            Err(_) => dec_anim(bytes@.skip(*old(pos) as int)) is None,
        },
{
    let tag = match read_u8(bytes, pos) {
        Ok(t) => t,
        Err(e) => {
            return Err(e);
        },
    };
    match tag {
        0 => Ok(AnimationState::Idle),
        1 => Ok(AnimationState::Walking),
        2 => Ok(AnimationState::Running),
        3 => Ok(AnimationState::Jumping),
        4 => Ok(AnimationState::Falling),
        _ => Err(DecodeError),
    }
}

/// A two-component vector: both coordinates.
pub open spec fn enc_vec2(v: Vec2) -> Seq<u8> {
    enc_i64(v.x) + enc_i64(v.y)
}

/// Read a two-component vector.
pub open spec fn dec_vec2(s: Seq<u8>) -> Option<(Vec2, Seq<u8>)> {
    match dec_i64(s) {
        Some((x, r1)) => match dec_i64(r1) {
            Some((y, r2)) => Some((Vec2 { x, y }, r2)),
            None => None,
        },
        None => None,
    }
}

pub proof fn lemma_vec2_round_trip(v: Vec2, rest: Seq<u8>)
    ensures
        dec_vec2(enc_vec2(v) + rest) == Some((v, rest)),
{
    assert(enc_vec2(v) + rest =~= enc_i64(v.x) + (enc_i64(v.y) + rest));
    lemma_i64_round_trip(v.x, enc_i64(v.y) + rest);
    lemma_i64_round_trip(v.y, rest);
}

pub fn write_vec2(out: &mut Vec<u8>, v: &Vec2)
    ensures
        final(out)@ == old(out)@ + enc_vec2(*v),
{
    write_i64(out, v.x);
    write_i64(out, v.y);
    proof {
        assert(final(out)@ =~= old(out)@ + enc_vec2(*v));
    }
}

pub fn read_vec2(bytes: &Vec<u8>, pos: &mut usize) -> (r: Result<Vec2, DecodeError>)
    requires
        *old(pos) <= bytes@.len(),
    ensures
        *old(pos) <= *final(pos) <= bytes@.len(),
        match r {
            Ok(v) => dec_vec2(bytes@.skip(*old(pos) as int)) == Some(
                (v, bytes@.skip(*final(pos) as int)),
            ),
            Err(_) => dec_vec2(bytes@.skip(*old(pos) as int)) is None,
        },
{
    let x = match read_i64(bytes, pos) {
        Ok(x) => x,
        Err(e) => {
            return Err(e);
        },
    };
    let y = match read_i64(bytes, pos) {
        Ok(y) => y,
        Err(e) => {
            return Err(e);
        },
    };
    Ok(Vec2 { x, y })
}

/// A three-component vector: all three coordinates.
pub open spec fn enc_vec3(v: Vec3) -> Seq<u8> {
    enc_i64(v.x) + enc_i64(v.y) + enc_i64(v.z)
}

/// Read a three-component vector.
pub open spec fn dec_vec3(s: Seq<u8>) -> Option<(Vec3, Seq<u8>)> {
    match dec_i64(s) {
        Some((x, r1)) => match dec_i64(r1) {
            Some((y, r2)) => match dec_i64(r2) {
                Some((z, r3)) => Some((Vec3 { x, y, z }, r3)),
                None => None,
            },
            None => None,
        },
        None => None,
    }
}

pub proof fn lemma_vec3_round_trip(v: Vec3, rest: Seq<u8>)
    ensures
        dec_vec3(enc_vec3(v) + rest) == Some((v, rest)),
{
    assert(enc_vec3(v) + rest =~= enc_i64(v.x) + (enc_i64(v.y) + (enc_i64(v.z) + rest)));
    lemma_i64_round_trip(v.x, enc_i64(v.y) + (enc_i64(v.z) + rest));
    lemma_i64_round_trip(v.y, enc_i64(v.z) + rest);
    lemma_i64_round_trip(v.z, rest);
}

pub fn write_vec3(out: &mut Vec<u8>, v: &Vec3)
    ensures
        final(out)@ == old(out)@ + enc_vec3(*v),
{
    write_i64(out, v.x);
    write_i64(out, v.y);
    write_i64(out, v.z);
    proof {
        assert(final(out)@ =~= old(out)@ + enc_vec3(*v));
    }
}

pub fn read_vec3(bytes: &Vec<u8>, pos: &mut usize) -> (r: Result<Vec3, DecodeError>)
    requires
        *old(pos) <= bytes@.len(),
    ensures
        *old(pos) <= *final(pos) <= bytes@.len(),
        match r {
            Ok(v) => dec_vec3(bytes@.skip(*old(pos) as int)) == Some(
                (v, bytes@.skip(*final(pos) as int)),
            ),
            Err(_) => dec_vec3(bytes@.skip(*old(pos) as int)) is None,
        },
{
    let x = match read_i64(bytes, pos) {
        Ok(x) => x,
        Err(e) => {
            return Err(e);
        },
    };
    let y = match read_i64(bytes, pos) {
        Ok(y) => y,
        Err(e) => {
            return Err(e);
        },
    };
    let z = match read_i64(bytes, pos) {
        Ok(z) => z,
        Err(e) => {
            return Err(e);
        },
    };
    Ok(Vec3 { x, y, z })
}

/// A full kinematic and animation snapshot of one player.
pub open spec fn enc_player(p: Player) -> Seq<u8> {
    enc_vec3(p.position) + enc_vec3(p.linear_velocity) + enc_i64(p.yaw) + enc_i64(p.pitch)
        + enc_anim(p.animation_state)
}

/// Read one player snapshot.
pub open spec fn dec_player(s: Seq<u8>) -> Option<(Player, Seq<u8>)> {
    match dec_vec3(s) {
        Some((position, r1)) => match dec_vec3(r1) {
            Some((linear_velocity, r2)) => match dec_i64(r2) {
                Some((yaw, r3)) => match dec_i64(r3) {
                    Some((pitch, r4)) => match dec_anim(r4) {
                        Some((animation_state, r5)) => Some(
                            (
                                Player {
                                    position,
                                    linear_velocity,
                                    yaw,
                                    pitch,
                                    animation_state,
                                },
                                r5,
                            ),
                        ),
                        None => None,
                    },
                    None => None,
                },
                None => None,
            },
            None => None,
        },
        None => None,
    }
}

pub proof fn lemma_player_round_trip(p: Player, rest: Seq<u8>)
    ensures
        dec_player(enc_player(p) + rest) == Some((p, rest)),
{
    let e1 = enc_vec3(p.position);
    let e2 = enc_vec3(p.linear_velocity);
    let e3 = enc_i64(p.yaw);
    let e4 = enc_i64(p.pitch);
    let e5 = enc_anim(p.animation_state);
    let r4 = e5 + rest;
    let r3 = e4 + r4;
    let r2 = e3 + r3;
    let r1 = e2 + r2;
    lemma_seq_add_assoc(e1 + e2 + e3 + e4, e5, rest);
    lemma_seq_add_assoc(e1 + e2 + e3, e4, r4);
    lemma_seq_add_assoc(e1 + e2, e3, r3);
    lemma_seq_add_assoc(e1, e2, r2);
    assert(enc_player(p) + rest == e1 + r1);
    lemma_vec3_round_trip(p.position, r1);
    lemma_vec3_round_trip(p.linear_velocity, r2);
    lemma_i64_round_trip(p.yaw, r3);
    lemma_i64_round_trip(p.pitch, r4);
    lemma_anim_round_trip(p.animation_state, rest);
}

pub fn write_player(out: &mut Vec<u8>, p: &Player)
    ensures
        final(out)@ == old(out)@ + enc_player(*p),
{
    write_vec3(out, &p.position);
    write_vec3(out, &p.linear_velocity);
    write_i64(out, p.yaw);
    write_i64(out, p.pitch);
    write_anim(out, &p.animation_state);
    proof {
        assert(final(out)@ =~= old(out)@ + enc_player(*p));
    }
}

pub fn read_player(bytes: &Vec<u8>, pos: &mut usize) -> (r: Result<Player, DecodeError>)
    requires
        *old(pos) <= bytes@.len(),
    ensures
        *old(pos) <= *final(pos) <= bytes@.len(),
        match r {
            Ok(v) => dec_player(bytes@.skip(*old(pos) as int)) == Some(
                (v, bytes@.skip(*final(pos) as int)),
            ),
            Err(_) => dec_player(bytes@.skip(*old(pos) as int)) is None,
        },
{
    let position = match read_vec3(bytes, pos) {
        Ok(v) => v,
        Err(e) => {
            return Err(e);
        },
    };
    let linear_velocity = match read_vec3(bytes, pos) {
        Ok(v) => v,
        Err(e) => {
            return Err(e);
        },
    };
    let yaw = match read_i64(bytes, pos) {
        Ok(v) => v,
        Err(e) => {
            return Err(e);
        },
    };
    let pitch = match read_i64(bytes, pos) {
        Ok(v) => v,
        Err(e) => {
            return Err(e);
        },
    };
    let animation_state = match read_anim(bytes, pos) {
        Ok(v) => v,
        Err(e) => {
            return Err(e);
        },
    };
    Ok(Player { position, linear_velocity, yaw, pitch, animation_state })
}

/// A chat line: its bytes, length-prefixed. Chat lines appear in views
/// as their byte sequence.
pub open spec fn enc_chat_message(b: Seq<u8>) -> Seq<u8> {
    enc_lp_bytes(b)
}

/// Read one chat line's bytes.
pub open spec fn dec_chat_message(s: Seq<u8>) -> Option<(Seq<u8>, Seq<u8>)> {
    dec_lp_bytes(s)
}

pub proof fn lemma_chat_message_round_trip(b: Seq<u8>, rest: Seq<u8>)
    requires
        b.len() < 65536,
    ensures
        dec_chat_message(enc_chat_message(b) + rest) == Some((b, rest)),
{
    lemma_lp_bytes_round_trip(b, rest);
}

pub fn write_chat_message(out: &mut Vec<u8>, c: &ChatMessage)
    requires
        c.wf(),
    ensures
        final(out)@ == old(out)@ + enc_chat_message(c.message@),
{
    write_lp_bytes(out, &c.message);
}

pub fn read_chat_message(bytes: &Vec<u8>, pos: &mut usize) -> (r: Result<
    ChatMessage,
    DecodeError,
>)
    requires
        *old(pos) <= bytes@.len(),
    ensures
        *old(pos) <= *final(pos) <= bytes@.len(),
        match r {
            Ok(c) => dec_chat_message(bytes@.skip(*old(pos) as int)) == Some(
                (c.message@, bytes@.skip(*final(pos) as int)),
            ) && c.wf(),
            Err(_) => dec_chat_message(bytes@.skip(*old(pos) as int)) is None,
        },
{
    match read_lp_bytes(bytes, pos) {
        Ok(v) => Ok(ChatMessage { message: v }),
        Err(e) => Err(e),
    }
}

/// Prepending an accumulated prefix to a cons is appending the head to
/// the prefix.
pub proof fn lemma_cons_assoc<A>(acc: Seq<A>, e: A, s: Seq<A>)
    ensures
        acc + (seq![e] + s) == acc.push(e) + s,
{
    assert(acc + (seq![e] + s) =~= acc.push(e) + s);
}

// ---------------------------------------------------- player snapshot maps

/// One map entry: an identity and that player's snapshot.
pub open spec fn enc_players_entry(e: (Id, Player)) -> Seq<u8> {
    enc_id(e.0) + enc_player(e.1)
}

/// Read one map entry.
pub open spec fn dec_players_entry(s: Seq<u8>) -> Option<((Id, Player), Seq<u8>)> {
    match dec_id(s) {
        Some((id, r1)) => match dec_player(r1) {
            Some((p, r2)) => Some(((id, p), r2)),
            None => None,
        },
        None => None,
    }
}

pub proof fn lemma_players_entry_round_trip(e: (Id, Player), rest: Seq<u8>)
    ensures
        dec_players_entry(enc_players_entry(e) + rest) == Some((e, rest)),
{
    lemma_seq_add_assoc(enc_id(e.0), enc_player(e.1), rest);
    lemma_id_round_trip(e.0, enc_player(e.1) + rest);
    lemma_player_round_trip(e.1, rest);
}

/// The entries one after another, no count.
pub open spec fn enc_players_list(s: Seq<(Id, Player)>) -> Seq<u8>
    decreases s.len(),
{
    if s.len() == 0 {
        Seq::empty()
    } else {
        enc_players_entry(s[0]) + enc_players_list(s.drop_first())
    }
}

/// Read exactly `n` entries from the front.
pub open spec fn dec_players_list(s: Seq<u8>, n: nat) -> Option<(Seq<(Id, Player)>, Seq<u8>)>
    decreases n,
{
    if n == 0 {
        Some((Seq::empty(), s))
    } else {
        match dec_players_entry(s) {
            Some((e, rest)) => match dec_players_list(rest, (n - 1) as nat) {
                Some((es, rest2)) => Some((seq![e] + es, rest2)),
                None => None,
            },
            None => None,
        }
    }
}

/// A per-player snapshot map: a two-byte count then the entries.
pub open spec fn enc_players(s: Seq<(Id, Player)>) -> Seq<u8> {
    enc_u16(s.len() as u16) + enc_players_list(s)
}

/// Read a snapshot map.
pub open spec fn dec_players(s: Seq<u8>) -> Option<(Seq<(Id, Player)>, Seq<u8>)> {
    match dec_u16(s) {
        Some((n, rest)) => dec_players_list(rest, n as nat),
        None => None,
    }
}

pub proof fn lemma_players_list_round_trip(s: Seq<(Id, Player)>, rest: Seq<u8>)
    ensures
        dec_players_list(enc_players_list(s) + rest, s.len()) == Some((s, rest)),
    decreases s.len(),
{
    if s.len() == 0 {
        assert(enc_players_list(s) + rest =~= rest);
    } else {
        let tl = s.drop_first();
        lemma_seq_add_assoc(enc_players_entry(s[0]), enc_players_list(tl), rest);
        lemma_players_entry_round_trip(s[0], enc_players_list(tl) + rest);
        lemma_players_list_round_trip(tl, rest);
        assert(seq![s[0]] + tl =~= s);
    }
}

pub proof fn lemma_players_round_trip(s: Seq<(Id, Player)>, rest: Seq<u8>)
    requires
        s.len() < 65536,
    ensures
        dec_players(enc_players(s) + rest) == Some((s, rest)),
{
    lemma_seq_add_assoc(enc_u16(s.len() as u16), enc_players_list(s), rest);
    lemma_u16_round_trip(s.len() as u16, enc_players_list(s) + rest);
    lemma_players_list_round_trip(s, rest);
}

/// Appending an entry appends its encoding.
proof fn lemma_enc_players_list_snoc(s: Seq<(Id, Player)>, e: (Id, Player))
    ensures
        enc_players_list(s.push(e)) == enc_players_list(s) + enc_players_entry(e),
    decreases s.len(),
{
    if s.len() == 0 {
        assert(s.push(e)[0] == e);
        assert(s.push(e).drop_first() =~= Seq::<(Id, Player)>::empty());
        assert(enc_players_list(s) == Seq::<u8>::empty());
        assert(enc_players_list(s.push(e).drop_first()) == Seq::<u8>::empty());
        assert(enc_players_list(s.push(e)) =~= enc_players_list(s) + enc_players_entry(e));
    } else {
        assert(s.push(e)[0] == s[0]);
        assert(s.push(e).drop_first() =~= s.drop_first().push(e));
        lemma_enc_players_list_snoc(s.drop_first(), e);
        assert(enc_players_list(s.push(e)) == enc_players_entry(s[0]) + enc_players_list(
            s.drop_first().push(e),
        ));
        assert(enc_players_list(s.push(e)) =~= enc_players_list(s) + enc_players_entry(e));
    }
}

/// One entry-decode step folded into the accumulated prefix.
#[verifier::rlimit(50)]
proof fn lemma_dec_players_step(
    acc: Seq<(Id, Player)>,
    e: (Id, Player),
    s: Seq<u8>,
    s2: Seq<u8>,
    k: nat,
)
    requires
        k >= 1,
        dec_players_entry(s) == Some((e, s2)),
    ensures
        (match dec_players_list(s, k) {
            Some(p) => Some((acc + p.0, p.1)),
            None => None::<(Seq<(Id, Player)>, Seq<u8>)>,
        }) == (match dec_players_list(s2, (k - 1) as nat) {
            Some(p) => Some((acc.push(e) + p.0, p.1)),
            None => None::<(Seq<(Id, Player)>, Seq<u8>)>,
        }),
{
    match dec_players_list(s2, (k - 1) as nat) {
        Some(p) => {
            lemma_cons_assoc(acc, e, p.0);
        },
        None => {},
    }
}

fn write_players_entry(out: &mut Vec<u8>, id: &Id, p: &Player)
    ensures
        final(out)@ == old(out)@ + enc_players_entry((*id, *p)),
{
    write_id(out, id);
    write_player(out, p);
    proof {
        assert(final(out)@ =~= old(out)@ + enc_players_entry((*id, *p)));
    }
}

fn read_players_entry(bytes: &Vec<u8>, pos: &mut usize) -> (r: Result<(Id, Player), DecodeError>)
    requires
        *old(pos) <= bytes@.len(),
    ensures
        *old(pos) <= *final(pos) <= bytes@.len(),
        match r {
            Ok(e) => dec_players_entry(bytes@.skip(*old(pos) as int)) == Some(
                (e, bytes@.skip(*final(pos) as int)),
            ),
            Err(_) => dec_players_entry(bytes@.skip(*old(pos) as int)) is None,
        },
{
    let id = match read_id(bytes, pos) {
        Ok(id) => id,
        Err(e) => {
            return Err(e);
        },
    };
    let p = match read_player(bytes, pos) {
        Ok(p) => p,
        Err(e) => {
            return Err(e);
        },
    };
    Ok((id, p))
}

pub fn write_players(out: &mut Vec<u8>, players: &Vec<(Id, Player)>)
    requires
        players@.len() < 65536,
    ensures
        final(out)@ == old(out)@ + enc_players(players@),
{
    write_u16(out, players.len() as u16);
    let mut i: usize = 0;
    while i < players.len()
        invariant
            i <= players@.len(),
            players@.len() < 65536,
            out@ == old(out)@ + enc_u16(players@.len() as u16) + enc_players_list(
                players@.take(i as int),
            ),
        decreases players@.len() - i,
    {
        proof {
            assert(players@.take(i as int).push(players@[i as int]) =~= players@.take(
                i as int + 1,
            ));
            lemma_enc_players_list_snoc(players@.take(i as int), players@[i as int]);
        }
        let (id, p) = players[i];
        write_players_entry(out, &id, &p);
        i = i + 1;
    }
    proof {
        assert(players@.take(players@.len() as int) =~= players@);
        assert(final(out)@ =~= old(out)@ + enc_players(players@));
    }
}

pub fn read_players(bytes: &Vec<u8>, pos: &mut usize) -> (r: Result<
    Vec<(Id, Player)>,
    DecodeError,
>)
    requires
        *old(pos) <= bytes@.len(),
    ensures
        *old(pos) <= *final(pos) <= bytes@.len(),
        match r {
            Ok(v) => dec_players(bytes@.skip(*old(pos) as int)) == Some(
                (v@, bytes@.skip(*final(pos) as int)),
            ) && v@.len() < 65536,
            Err(_) => dec_players(bytes@.skip(*old(pos) as int)) is None,
        },
{
    let n = match read_u16(bytes, pos) {
        Ok(n) => n,
        Err(_) => {
            return Err(DecodeError);
        },
    };
    let ghost after_count = bytes@.skip(*pos as int);
    let mut acc: Vec<(Id, Player)> = Vec::new();
    let mut i: usize = 0;
    while i < n as usize
        invariant
            i <= n,
            *old(pos) <= *pos <= bytes@.len(),
            acc@.len() == i,
            dec_u16(bytes@.skip(*old(pos) as int)) == Some((n, after_count)),
            dec_players_list(after_count, n as nat) == (match dec_players_list(
                bytes@.skip(*pos as int),
                (n - i) as nat,
            ) {
                Some(p) => Some((acc@ + p.0, p.1)),
                None => None::<(Seq<(Id, Player)>, Seq<u8>)>,
            }),
        decreases n - i,
    {
        let ghost cur = bytes@.skip(*pos as int);
        let ghost old_acc = acc@;
        let e = match read_players_entry(bytes, pos) {
            Ok(e) => e,
            Err(_) => {
                return Err(DecodeError);
            },
        };
        proof {
            lemma_dec_players_step(old_acc, e, cur, bytes@.skip(*pos as int), (n - i) as nat);
        }
        acc.push(e);
        i = i + 1;
    }
    proof {
        assert(dec_players_list(bytes@.skip(*pos as int), 0) == Some(
            (Seq::<(Id, Player)>::empty(), bytes@.skip(*pos as int)),
        ));
        assert(acc@ + Seq::<(Id, Player)>::empty() =~= acc@);
    }
    Ok(acc)
}

// --------------------------------------------------------- chat histories

/// The mathematical value of a chat history: each line as its bytes.
pub open spec fn chats_view(s: Seq<(Id, ChatMessage)>) -> Seq<(Id, Seq<u8>)> {
    s.map_values(|p: (Id, ChatMessage)| (p.0, p.1.message@))
}

/// One history entry: an identity and the line's bytes.
pub open spec fn enc_chats_entry(e: (Id, Seq<u8>)) -> Seq<u8> {
    enc_id(e.0) + enc_chat_message(e.1)
}

/// Read one history entry.
pub open spec fn dec_chats_entry(s: Seq<u8>) -> Option<((Id, Seq<u8>), Seq<u8>)> {
    match dec_id(s) {
        Some((id, r1)) => match dec_chat_message(r1) {
            Some((b, r2)) => Some(((id, b), r2)),
            None => None,
        },
        None => None,
    }
}

pub proof fn lemma_chats_entry_round_trip(e: (Id, Seq<u8>), rest: Seq<u8>)
    requires
        e.1.len() < 65536,
    ensures
        dec_chats_entry(enc_chats_entry(e) + rest) == Some((e, rest)),
{
    lemma_seq_add_assoc(enc_id(e.0), enc_chat_message(e.1), rest);
    lemma_id_round_trip(e.0, enc_chat_message(e.1) + rest);
    lemma_chat_message_round_trip(e.1, rest);
}

/// The entries one after another, no count.
pub open spec fn enc_chats_list(s: Seq<(Id, Seq<u8>)>) -> Seq<u8>
    decreases s.len(),
{
    if s.len() == 0 {
        Seq::empty()
    } else {
        enc_chats_entry(s[0]) + enc_chats_list(s.drop_first())
    }
}

/// Read exactly `n` entries from the front.
pub open spec fn dec_chats_list(s: Seq<u8>, n: nat) -> Option<(Seq<(Id, Seq<u8>)>, Seq<u8>)>
    decreases n,
{
    if n == 0 {
        Some((Seq::empty(), s))
    } else {
        match dec_chats_entry(s) {
            Some((e, rest)) => match dec_chats_list(rest, (n - 1) as nat) {
                Some((es, rest2)) => Some((seq![e] + es, rest2)),
                None => None,
            },
            None => None,
        }
    }
}

/// Every line of a history fits its wire field.
pub open spec fn chats_wf(s: Seq<(Id, Seq<u8>)>) -> bool {
    forall|i: int| 0 <= i < s.len() ==> (#[trigger] s[i]).1.len() < 65536
}

/// A chat history: a two-byte count then the entries.
pub open spec fn enc_chats(s: Seq<(Id, Seq<u8>)>) -> Seq<u8> {
    enc_u16(s.len() as u16) + enc_chats_list(s)
}

/// Read a chat history.
pub open spec fn dec_chats(s: Seq<u8>) -> Option<(Seq<(Id, Seq<u8>)>, Seq<u8>)> {
    match dec_u16(s) {
        Some((n, rest)) => dec_chats_list(rest, n as nat),
        None => None,
    }
}

pub proof fn lemma_chats_list_round_trip(s: Seq<(Id, Seq<u8>)>, rest: Seq<u8>)
    requires
        chats_wf(s),
    ensures
        dec_chats_list(enc_chats_list(s) + rest, s.len()) == Some((s, rest)),
    decreases s.len(),
{
    if s.len() == 0 {
        assert(enc_chats_list(s) + rest =~= rest);
    } else {
        let tl = s.drop_first();
        lemma_seq_add_assoc(enc_chats_entry(s[0]), enc_chats_list(tl), rest);
        lemma_chats_entry_round_trip(s[0], enc_chats_list(tl) + rest);
        lemma_chats_list_round_trip(tl, rest);
        assert(seq![s[0]] + tl =~= s);
    }
}

pub proof fn lemma_chats_round_trip(s: Seq<(Id, Seq<u8>)>, rest: Seq<u8>)
    requires
        s.len() < 65536,
        chats_wf(s),
    ensures
        dec_chats(enc_chats(s) + rest) == Some((s, rest)),
{
    lemma_seq_add_assoc(enc_u16(s.len() as u16), enc_chats_list(s), rest);
    lemma_u16_round_trip(s.len() as u16, enc_chats_list(s) + rest);
    lemma_chats_list_round_trip(s, rest);
}

/// Appending an entry appends its encoding.
proof fn lemma_enc_chats_list_snoc(s: Seq<(Id, Seq<u8>)>, e: (Id, Seq<u8>))
    ensures
        enc_chats_list(s.push(e)) == enc_chats_list(s) + enc_chats_entry(e),
    decreases s.len(),
{
    if s.len() == 0 {
        assert(s.push(e)[0] == e);
        assert(s.push(e).drop_first() =~= Seq::<(Id, Seq<u8>)>::empty());
        assert(enc_chats_list(s) == Seq::<u8>::empty());
        assert(enc_chats_list(s.push(e).drop_first()) == Seq::<u8>::empty());
        assert(enc_chats_list(s.push(e)) =~= enc_chats_list(s) + enc_chats_entry(e));
    } else {
        assert(s.push(e)[0] == s[0]);
        assert(s.push(e).drop_first() =~= s.drop_first().push(e));
        lemma_enc_chats_list_snoc(s.drop_first(), e);
        assert(enc_chats_list(s.push(e)) == enc_chats_entry(s[0]) + enc_chats_list(
            s.drop_first().push(e),
        ));
        assert(enc_chats_list(s.push(e)) =~= enc_chats_list(s) + enc_chats_entry(e));
    }
}

/// One entry-decode step folded into the accumulated prefix.
#[verifier::rlimit(50)]
proof fn lemma_dec_chats_step(
    acc: Seq<(Id, Seq<u8>)>,
    e: (Id, Seq<u8>),
    s: Seq<u8>,
    s2: Seq<u8>,
    k: nat,
)
    requires
        k >= 1,
        dec_chats_entry(s) == Some((e, s2)),
    ensures
        (match dec_chats_list(s, k) {
            Some(p) => Some((acc + p.0, p.1)),
            None => None::<(Seq<(Id, Seq<u8>)>, Seq<u8>)>,
        }) == (match dec_chats_list(s2, (k - 1) as nat) {
            Some(p) => Some((acc.push(e) + p.0, p.1)),
            None => None::<(Seq<(Id, Seq<u8>)>, Seq<u8>)>,
        }),
{
    match dec_chats_list(s2, (k - 1) as nat) {
        Some(p) => {
            lemma_cons_assoc(acc, e, p.0);
        },
        None => {},
    }
}

fn write_chats_entry(out: &mut Vec<u8>, id: &Id, c: &ChatMessage)
    requires
        c.wf(),
    ensures
        final(out)@ == old(out)@ + enc_chats_entry((*id, c.message@)),
{
    write_id(out, id);
    write_chat_message(out, c);
    proof {
        assert(final(out)@ =~= old(out)@ + enc_chats_entry((*id, c.message@)));
    }
}

fn read_chats_entry(bytes: &Vec<u8>, pos: &mut usize) -> (r: Result<(Id, ChatMessage), DecodeError>)
    requires
        *old(pos) <= bytes@.len(),
    ensures
        *old(pos) <= *final(pos) <= bytes@.len(),
        match r {
            Ok(e) => dec_chats_entry(bytes@.skip(*old(pos) as int)) == Some(
                ((e.0, e.1.message@), bytes@.skip(*final(pos) as int)),
            ) && e.1.wf(),
            Err(_) => dec_chats_entry(bytes@.skip(*old(pos) as int)) is None,
        },
{
    let id = match read_id(bytes, pos) {
        Ok(id) => id,
        Err(e) => {
            return Err(e);
        },
    };
    let c = match read_chat_message(bytes, pos) {
        Ok(c) => c,
        Err(e) => {
            return Err(e);
        },
    };
    Ok((id, c))
}

pub fn write_chats(out: &mut Vec<u8>, chats: &Vec<(Id, ChatMessage)>)
    requires
        chats@.len() < 65536,
        chats_wf(chats_view(chats@)),
    ensures
        final(out)@ == old(out)@ + enc_chats(chats_view(chats@)),
{
    let ghost views = chats_view(chats@);
    write_u16(out, chats.len() as u16);
    let mut i: usize = 0;
    while i < chats.len()
        invariant
            i <= chats@.len(),
            chats@.len() < 65536,
            chats_wf(views),
            views == chats_view(chats@),
            out@ == old(out)@ + enc_u16(chats@.len() as u16) + enc_chats_list(
                views.take(i as int),
            ),
        decreases chats@.len() - i,
    {
        proof {
            assert(views.take(i as int).push(views[i as int]) =~= views.take(i as int + 1));
            lemma_enc_chats_list_snoc(views.take(i as int), views[i as int]);
            assert(views[i as int] == (chats@[i as int].0, chats@[i as int].1.message@));
        }
        let entry = &chats[i];
        write_chats_entry(out, &entry.0, &entry.1);
        i = i + 1;
    }
    proof {
        assert(views.take(views.len() as int) =~= views);
        assert(final(out)@ =~= old(out)@ + enc_chats(views));
    }
}

pub fn read_chats(bytes: &Vec<u8>, pos: &mut usize) -> (r: Result<
    Vec<(Id, ChatMessage)>,
    DecodeError,
>)
    requires
        *old(pos) <= bytes@.len(),
    ensures
        *old(pos) <= *final(pos) <= bytes@.len(),
        match r {
            Ok(v) => dec_chats(bytes@.skip(*old(pos) as int)) == Some(
                (chats_view(v@), bytes@.skip(*final(pos) as int)),
            ) && v@.len() < 65536 && chats_wf(chats_view(v@)),
            Err(_) => dec_chats(bytes@.skip(*old(pos) as int)) is None,
        },
{
    let n = match read_u16(bytes, pos) {
        Ok(n) => n,
        Err(_) => {
            return Err(DecodeError);
        },
    };
    let ghost after_count = bytes@.skip(*pos as int);
    let mut acc: Vec<(Id, ChatMessage)> = Vec::new();
    let mut i: usize = 0;
    while i < n as usize
        invariant
            i <= n,
            *old(pos) <= *pos <= bytes@.len(),
            acc@.len() == i,
            chats_wf(chats_view(acc@)),
            dec_u16(bytes@.skip(*old(pos) as int)) == Some((n, after_count)),
            dec_chats_list(after_count, n as nat) == (match dec_chats_list(
                bytes@.skip(*pos as int),
                (n - i) as nat,
            ) {
                Some(p) => Some((chats_view(acc@) + p.0, p.1)),
                None => None::<(Seq<(Id, Seq<u8>)>, Seq<u8>)>,
            }),
        decreases n - i,
    {
        let ghost cur = bytes@.skip(*pos as int);
        let ghost old_acc = acc@;
        let e = match read_chats_entry(bytes, pos) {
            Ok(e) => e,
            Err(_) => {
                return Err(DecodeError);
            },
        };
        proof {
            lemma_dec_chats_step(
                chats_view(old_acc),
                (e.0, e.1.message@),
                cur,
                bytes@.skip(*pos as int),
                (n - i) as nat,
            );
        }
        acc.push(e);
        proof {
            assert(chats_view(acc@) =~= chats_view(old_acc).push((e.0, e.1.message@)));
        }
        i = i + 1;
    }
    proof {
        assert(dec_chats_list(bytes@.skip(*pos as int), 0) == Some(
            (Seq::<(Id, Seq<u8>)>::empty(), bytes@.skip(*pos as int)),
        ));
        assert(chats_view(acc@) + Seq::<(Id, Seq<u8>)>::empty() =~= chats_view(acc@));
    }
    Ok(acc)
}

// --------------------------------------------- client-to-server, unreliable

/// What the client sends each tick over the loss-tolerant channel.
#[derive(Clone, Copy, Debug, PartialEq, Eq, Structural)]
pub enum CUdpType {
    PlayerId { id: Id },
    Sequence { sequence_number: u16 },
    Input { keymask: u16, mouse_delta: Vec2 },
    Ping { start_time: u32, last_rtt: u32 },
}

impl NetworkMessageType for CUdpType {
    type VT = CUdpType;

    open spec fn view_of(self) -> CUdpType {
        self
    }

    open spec fn wfv(v: CUdpType) -> bool {
        true
    }

    open spec fn spec_enc(v: CUdpType) -> Seq<u8> {
        match v {
            CUdpType::PlayerId { id } => seq![0u8] + enc_id(id),
            CUdpType::Sequence { sequence_number } => seq![1u8] + enc_u16(sequence_number),
            CUdpType::Input { keymask, mouse_delta } => seq![2u8] + enc_u16(keymask)
                + enc_vec2(mouse_delta),
            CUdpType::Ping { start_time, last_rtt } => seq![3u8] + enc_u32(start_time)
                + enc_u32(last_rtt),
        }
    }

    open spec fn spec_dec(s: Seq<u8>) -> Option<(CUdpType, Seq<u8>)> {
        match dec_u8(s) {
            Some((tag, r)) => {
                if tag == 0 {
                    match dec_id(r) {
                        Some((id, r1)) => Some((CUdpType::PlayerId { id }, r1)),
                        None => None,
                    }
                } else if tag == 1 {
                    match dec_u16(r) {
                        Some((sequence_number, r1)) => Some(
                            (CUdpType::Sequence { sequence_number }, r1),
                        ),
                        None => None,
                    }
                } else if tag == 2 {
                    match dec_u16(r) {
                        Some((keymask, r1)) => match dec_vec2(r1) {
                            Some((mouse_delta, r2)) => Some(
                                (CUdpType::Input { keymask, mouse_delta }, r2),
                            ),
                            None => None,
                        },
                        None => None,
                    }
                } else if tag == 3 {
                    match dec_u32(r) {
                        Some((start_time, r1)) => match dec_u32(r1) {
                            Some((last_rtt, r2)) => Some(
                                (CUdpType::Ping { start_time, last_rtt }, r2),
                            ),
                            None => None,
                        },
                        None => None,
                    }
                } else {
                    None
                }
            },
            None => None,
        }
    }

    proof fn lemma_round_trip(v: CUdpType, rest: Seq<u8>) {
        match v {
            CUdpType::PlayerId { id } => {
                assert(Self::spec_enc(v) + rest =~= seq![0u8] + (enc_id(id) + rest));
                assert((seq![0u8] + (enc_id(id) + rest)).skip(1) =~= enc_id(id) + rest);
                lemma_id_round_trip(id, rest);
            },
            CUdpType::Sequence { sequence_number } => {
                assert(Self::spec_enc(v) + rest =~= seq![1u8] + (enc_u16(sequence_number)
                    + rest));
                assert((seq![1u8] + (enc_u16(sequence_number) + rest)).skip(1) =~= enc_u16(
                    sequence_number,
                ) + rest);
                lemma_u16_round_trip(sequence_number, rest);
            },
            CUdpType::Input { keymask, mouse_delta } => {
                let r1 = enc_vec2(mouse_delta) + rest;
                assert(Self::spec_enc(v) + rest =~= seq![2u8] + (enc_u16(keymask) + r1));
                assert((seq![2u8] + (enc_u16(keymask) + r1)).skip(1) =~= enc_u16(keymask)
                    + r1);
                lemma_u16_round_trip(keymask, r1);
                lemma_vec2_round_trip(mouse_delta, rest);
            },
            CUdpType::Ping { start_time, last_rtt } => {
                let r1 = enc_u32(last_rtt) + rest;
                assert(Self::spec_enc(v) + rest =~= seq![3u8] + (enc_u32(start_time) + r1));
                assert((seq![3u8] + (enc_u32(start_time) + r1)).skip(1) =~= enc_u32(
                    start_time,
                ) + r1);
                lemma_u32_round_trip(start_time, r1);
                lemma_u32_round_trip(last_rtt, rest);
            },
        }
    }

    fn encode(&self, out: &mut Vec<u8>) {
        match self {
            CUdpType::PlayerId { id } => {
                write_u8(out, 0);
                write_id(out, id);
            },
            CUdpType::Sequence { sequence_number } => {
                write_u8(out, 1);
                write_u16(out, *sequence_number);
            },
            CUdpType::Input { keymask, mouse_delta } => {
                write_u8(out, 2);
                write_u16(out, *keymask);
                write_vec2(out, mouse_delta);
            },
            CUdpType::Ping { start_time, last_rtt } => {
                write_u8(out, 3);
                write_u32(out, *start_time);
                write_u32(out, *last_rtt);
            },
        }
        proof {
            assert(final(out)@ =~= old(out)@ + Self::spec_enc(self.view_of()));
        }
    }

    fn decode(bytes: &Vec<u8>, pos: &mut usize) -> (r: Result<CUdpType, DecodeError>) {
        let tag = match read_u8(bytes, pos) {
            Ok(t) => t,
            Err(e) => {
                return Err(e);
            },
        };
        if tag == 0 {
            match read_id(bytes, pos) {
                Ok(id) => Ok(CUdpType::PlayerId { id }),
                Err(e) => Err(e),
            }
        } else if tag == 1 {
            match read_u16(bytes, pos) {
                Ok(sequence_number) => Ok(CUdpType::Sequence { sequence_number }),
                Err(e) => Err(e),
            }
        } else if tag == 2 {
            let keymask = match read_u16(bytes, pos) {
                Ok(k) => k,
                Err(e) => {
                    return Err(e);
                },
            };
            match read_vec2(bytes, pos) {
                Ok(mouse_delta) => Ok(CUdpType::Input { keymask, mouse_delta }),
                Err(e) => Err(e),
            }
        } else if tag == 3 {
            let start_time = match read_u32(bytes, pos) {
                Ok(t) => t,
                Err(e) => {
                    return Err(e);
                },
            };
            match read_u32(bytes, pos) {
                Ok(last_rtt) => Ok(CUdpType::Ping { start_time, last_rtt }),
                Err(e) => Err(e),
            }
        } else {
            Err(DecodeError)
        }
    }
}

// --------------------------------------------- server-to-client, unreliable

/// What the server sends each tick over the loss-tolerant channel.
#[derive(Clone, Debug, PartialEq)]
pub enum SUdpType {
    Sequence { sequence_number: u16 },
    Players { players: Vec<(Id, Player)> },
    Pong { initiation_time: u32, server_received_time: u32 },
}

/// The mathematical value of a server unreliable message.
pub enum SUdpView {
    Sequence { sequence_number: u16 },
    Players { players: Seq<(Id, Player)> },
    Pong { initiation_time: u32, server_received_time: u32 },
}

impl NetworkMessageType for SUdpType {
    type VT = SUdpView;

    open spec fn view_of(self) -> SUdpView {
        match self {
            SUdpType::Sequence { sequence_number } => SUdpView::Sequence { sequence_number },
            SUdpType::Players { players } => SUdpView::Players { players: players@ },
            SUdpType::Pong { initiation_time, server_received_time } => SUdpView::Pong {
                initiation_time,
                server_received_time,
            },
        }
    }

    open spec fn wfv(v: SUdpView) -> bool {
        match v {
            SUdpView::Players { players } => players.len() < 65536,
            _ => true,
        }
    }

    open spec fn spec_enc(v: SUdpView) -> Seq<u8> {
        match v {
            SUdpView::Sequence { sequence_number } => seq![0u8] + enc_u16(sequence_number),
            SUdpView::Players { players } => seq![1u8] + enc_players(players),
            SUdpView::Pong { initiation_time, server_received_time } => seq![2u8] + enc_u32(
                initiation_time,
            ) + enc_u32(server_received_time),
        }
    }

    open spec fn spec_dec(s: Seq<u8>) -> Option<(SUdpView, Seq<u8>)> {
        match dec_u8(s) {
            Some((tag, r)) => {
                if tag == 0 {
                    match dec_u16(r) {
                        Some((sequence_number, r1)) => Some(
                            (SUdpView::Sequence { sequence_number }, r1),
                        ),
                        None => None,
                    }
                } else if tag == 1 {
                    match dec_players(r) {
                        Some((players, r1)) => Some((SUdpView::Players { players }, r1)),
                        None => None,
                    }
                } else if tag == 2 {
                    match dec_u32(r) {
                        Some((initiation_time, r1)) => match dec_u32(r1) {
                            Some((server_received_time, r2)) => Some(
                                (
                                    SUdpView::Pong {
                                        initiation_time,
                                        server_received_time,
                                    },
                                    r2,
                                ),
                            ),
                            None => None,
                        },
                        None => None,
                    }
                } else {
                    None
                }
            },
            None => None,
        }
    }

    proof fn lemma_round_trip(v: SUdpView, rest: Seq<u8>) {
        match v {
            SUdpView::Sequence { sequence_number } => {
                assert(Self::spec_enc(v) + rest =~= seq![0u8] + (enc_u16(sequence_number)
                    + rest));
                assert((seq![0u8] + (enc_u16(sequence_number) + rest)).skip(1) =~= enc_u16(
                    sequence_number,
                ) + rest);
                lemma_u16_round_trip(sequence_number, rest);
            },
            SUdpView::Players { players } => {
                assert(Self::spec_enc(v) + rest =~= seq![1u8] + (enc_players(players)
                    + rest));
                assert((seq![1u8] + (enc_players(players) + rest)).skip(1) =~= enc_players(
                    players,
                ) + rest);
                lemma_players_round_trip(players, rest);
            },
            SUdpView::Pong { initiation_time, server_received_time } => {
                let r1 = enc_u32(server_received_time) + rest;
                assert(Self::spec_enc(v) + rest =~= seq![2u8] + (enc_u32(initiation_time)
                    + r1));
                assert((seq![2u8] + (enc_u32(initiation_time) + r1)).skip(1) =~= enc_u32(
                    initiation_time,
                ) + r1);
                lemma_u32_round_trip(initiation_time, r1);
                lemma_u32_round_trip(server_received_time, rest);
            },
        }
    }

    fn encode(&self, out: &mut Vec<u8>) {
        match self {
            SUdpType::Sequence { sequence_number } => {
                write_u8(out, 0);
                write_u16(out, *sequence_number);
            },
            SUdpType::Players { players } => {
                write_u8(out, 1);
                write_players(out, players);
            },
            SUdpType::Pong { initiation_time, server_received_time } => {
                write_u8(out, 2);
                write_u32(out, *initiation_time);
                write_u32(out, *server_received_time);
            },
        }
        proof {
            assert(final(out)@ =~= old(out)@ + Self::spec_enc(self.view_of()));
        }
    }

    fn decode(bytes: &Vec<u8>, pos: &mut usize) -> (r: Result<SUdpType, DecodeError>) {
        let tag = match read_u8(bytes, pos) {
            Ok(t) => t,
            Err(e) => {
                return Err(e);
            },
        };
        if tag == 0 {
            match read_u16(bytes, pos) {
                Ok(sequence_number) => Ok(SUdpType::Sequence { sequence_number }),
                Err(e) => Err(e),
            }
        } else if tag == 1 {
            match read_players(bytes, pos) {
                Ok(players) => Ok(SUdpType::Players { players }),
                Err(e) => Err(e),
            }
        } else if tag == 2 {
            let initiation_time = match read_u32(bytes, pos) {
                Ok(t) => t,
                Err(e) => {
                    return Err(e);
                },
            };
            match read_u32(bytes, pos) {
                Ok(server_received_time) => Ok(
                    SUdpType::Pong { initiation_time, server_received_time },
                ),
                Err(e) => Err(e),
            }
        } else {
            Err(DecodeError)
        }
    }
}

// ----------------------------------------------- client-to-server, reliable

/// What the client sends over the ordered channel: chat and joins.
#[derive(Clone, Debug, PartialEq)]
pub enum CTcpType {
    ChatMessage { player_id: Id, message: ChatMessage },
    Join { lobby_id: Id },
}

/// The mathematical value of a client reliable message.
pub enum CTcpView {
    ChatMessage { player_id: Id, message: Seq<u8> },
    Join { lobby_id: Id },
}

impl NetworkMessageType for CTcpType {
    type VT = CTcpView;

    open spec fn view_of(self) -> CTcpView {
        match self {
            CTcpType::ChatMessage { player_id, message } => CTcpView::ChatMessage {
                player_id,
                message: message.message@,
            },
            CTcpType::Join { lobby_id } => CTcpView::Join { lobby_id },
        }
    }

    open spec fn wfv(v: CTcpView) -> bool {
        match v {
            CTcpView::ChatMessage { player_id, message } => message.len() < 65536,
            CTcpView::Join { .. } => true,
        }
    }

    open spec fn spec_enc(v: CTcpView) -> Seq<u8> {
        match v {
            CTcpView::ChatMessage { player_id, message } => seq![0u8] + enc_id(player_id)
                + enc_chat_message(message),
            CTcpView::Join { lobby_id } => seq![1u8] + enc_id(lobby_id),
        }
    }

    open spec fn spec_dec(s: Seq<u8>) -> Option<(CTcpView, Seq<u8>)> {
        match dec_u8(s) {
            Some((tag, r)) => {
                if tag == 0 {
                    match dec_id(r) {
                        Some((player_id, r1)) => match dec_chat_message(r1) {
                            Some((message, r2)) => Some(
                                (CTcpView::ChatMessage { player_id, message }, r2),
                            ),
                            None => None,
                        },
                        None => None,
                    }
                } else if tag == 1 {
                    match dec_id(r) {
                        Some((lobby_id, r1)) => Some((CTcpView::Join { lobby_id }, r1)),
                        None => None,
                    }
                } else {
                    None
                }
            },
            None => None,
        }
    }

    proof fn lemma_round_trip(v: CTcpView, rest: Seq<u8>) {
        match v {
            CTcpView::ChatMessage { player_id, message } => {
                let r1 = enc_chat_message(message) + rest;
                lemma_seq_add_assoc(enc_id(player_id), enc_chat_message(message), rest);
                assert(Self::spec_enc(v) + rest =~= seq![0u8] + (enc_id(player_id) + r1));
                assert((seq![0u8] + (enc_id(player_id) + r1)).skip(1) =~= enc_id(player_id)
                    + r1);
                lemma_id_round_trip(player_id, r1);
                lemma_chat_message_round_trip(message, rest);
            },
            CTcpView::Join { lobby_id } => {
                assert(Self::spec_enc(v) + rest =~= seq![1u8] + (enc_id(lobby_id) + rest));
                assert((seq![1u8] + (enc_id(lobby_id) + rest)).skip(1) =~= enc_id(lobby_id)
                    + rest);
                lemma_id_round_trip(lobby_id, rest);
            },
        }
    }

    fn encode(&self, out: &mut Vec<u8>) {
        match self {
            CTcpType::ChatMessage { player_id, message } => {
                write_u8(out, 0);
                write_id(out, player_id);
                write_chat_message(out, message);
            },
            CTcpType::Join { lobby_id } => {
                write_u8(out, 1);
                write_id(out, lobby_id);
            },
        }
        proof {
            assert(final(out)@ =~= old(out)@ + Self::spec_enc(self.view_of()));
        }
    }

    fn decode(bytes: &Vec<u8>, pos: &mut usize) -> (r: Result<CTcpType, DecodeError>) {
        let tag = match read_u8(bytes, pos) {
            Ok(t) => t,
            Err(e) => {
                return Err(e);
            },
        };
        if tag == 0 {
            let player_id = match read_id(bytes, pos) {
                Ok(id) => id,
                Err(e) => {
                    return Err(e);
                },
            };
            match read_chat_message(bytes, pos) {
                Ok(message) => Ok(CTcpType::ChatMessage { player_id, message }),
                Err(e) => Err(e),
            }
        } else if tag == 1 {
            match read_id(bytes, pos) {
                Ok(lobby_id) => Ok(CTcpType::Join { lobby_id }),
                Err(e) => Err(e),
            }
        } else {
            Err(DecodeError)
        }
    }
}

// ----------------------------------------------- server-to-client, reliable

/// What the server sends over the ordered channel: the assigned identity
/// and the recent chat history.
#[derive(Clone, Debug, PartialEq)]
pub enum STcpType {
    PlayerId { player_uid: Id },
    Chat { messages: Vec<(Id, ChatMessage)> },
}

/// The mathematical value of a server reliable message.
pub enum STcpView {
    PlayerId { player_uid: Id },
    Chat { messages: Seq<(Id, Seq<u8>)> },
}

impl NetworkMessageType for STcpType {
    type VT = STcpView;

    open spec fn view_of(self) -> STcpView {
        match self {
            STcpType::PlayerId { player_uid } => STcpView::PlayerId { player_uid },
            STcpType::Chat { messages } => STcpView::Chat { messages: chats_view(messages@) },
        }
    }

    open spec fn wfv(v: STcpView) -> bool {
        match v {
            STcpView::PlayerId { .. } => true,
            STcpView::Chat { messages } => messages.len() < 65536 && chats_wf(messages),
        }
    }

    open spec fn spec_enc(v: STcpView) -> Seq<u8> {
        match v {
            STcpView::PlayerId { player_uid } => seq![0u8] + enc_id(player_uid),
            STcpView::Chat { messages } => seq![1u8] + enc_chats(messages),
        }
    }

    open spec fn spec_dec(s: Seq<u8>) -> Option<(STcpView, Seq<u8>)> {
        match dec_u8(s) {
            Some((tag, r)) => {
                if tag == 0 {
                    match dec_id(r) {
                        Some((player_uid, r1)) => Some((STcpView::PlayerId { player_uid }, r1)),
                        None => None,
                    }
                } else if tag == 1 {
                    match dec_chats(r) {
                        Some((messages, r1)) => Some((STcpView::Chat { messages }, r1)),
                        None => None,
                    }
                } else {
                    None
                }
            },
            None => None,
        }
    }

    proof fn lemma_round_trip(v: STcpView, rest: Seq<u8>) {
        match v {
            STcpView::PlayerId { player_uid } => {
                assert(Self::spec_enc(v) + rest =~= seq![0u8] + (enc_id(player_uid) + rest));
                assert((seq![0u8] + (enc_id(player_uid) + rest)).skip(1) =~= enc_id(
                    player_uid,
                ) + rest);
                lemma_id_round_trip(player_uid, rest);
            },
            STcpView::Chat { messages } => {
                assert(Self::spec_enc(v) + rest =~= seq![1u8] + (enc_chats(messages) + rest));
                assert((seq![1u8] + (enc_chats(messages) + rest)).skip(1) =~= enc_chats(
                    messages,
                ) + rest);
                lemma_chats_round_trip(messages, rest);
            },
        }
    }

    fn encode(&self, out: &mut Vec<u8>) {
        match self {
            STcpType::PlayerId { player_uid } => {
                write_u8(out, 0);
                write_id(out, player_uid);
            },
            STcpType::Chat { messages } => {
                write_u8(out, 1);
                write_chats(out, messages);
            },
        }
        proof {
            assert(final(out)@ =~= old(out)@ + Self::spec_enc(self.view_of()));
        }
    }

    fn decode(bytes: &Vec<u8>, pos: &mut usize) -> (r: Result<STcpType, DecodeError>) {
        let tag = match read_u8(bytes, pos) {
            Ok(t) => t,
            Err(e) => {
                return Err(e);
            },
        };
        if tag == 0 {
            match read_id(bytes, pos) {
                Ok(player_uid) => Ok(STcpType::PlayerId { player_uid }),
                Err(e) => Err(e),
            }
        } else if tag == 1 {
            match read_chats(bytes, pos) {
                Ok(messages) => Ok(STcpType::Chat { messages }),
                Err(e) => Err(e),
            }
        } else {
            Err(DecodeError)
        }
    }
}

// ------------------------------------------------------------ batches

/// The views of a queue of typed messages.
pub open spec fn batch_views<T: NetworkMessageType>(s: Seq<NetworkMessage<T>>) -> Seq<T::VT> {
    s.map_values(|m: NetworkMessage<T>| m.0.view_of())
}

/// The views of a list of plain messages.
pub open spec fn message_views<T: NetworkMessageType>(s: Seq<T>) -> Seq<T::VT> {
    s.map_values(|m: T| m.view_of())
}

/// A batch is encodable: its count fits the wire field and every message
/// is well formed.
pub open spec fn spec_batch_wf<T: NetworkMessageType>(s: Seq<T::VT>) -> bool {
    &&& s.len() < 65536
    &&& forall|i: int| 0 <= i < s.len() ==> T::wfv(#[trigger] s[i])
}

/// The messages one after another, no count.
pub open spec fn spec_enc_list<T: NetworkMessageType>(s: Seq<T::VT>) -> Seq<u8>
    decreases s.len(),
{
    if s.len() == 0 {
        Seq::empty()
    } else {
        T::spec_enc(s[0]) + spec_enc_list::<T>(s.drop_first())
    }
}

/// Read exactly `n` messages from the front.
pub open spec fn spec_dec_list<T: NetworkMessageType>(s: Seq<u8>, n: nat) -> Option<
    (Seq<T::VT>, Seq<u8>),
>
    decreases n,
{
    if n == 0 {
        Some((Seq::empty(), s))
    } else {
        match T::spec_dec(s) {
            Some((v, rest)) => match spec_dec_list::<T>(rest, (n - 1) as nat) {
                Some((vs, rest2)) => Some((seq![v] + vs, rest2)),
                None => None,
            },
            None => None,
        }
    }
}

/// One blob on the wire: a two-byte count then the messages.
pub open spec fn spec_enc_batch<T: NetworkMessageType>(s: Seq<T::VT>) -> Seq<u8> {
    enc_u16(s.len() as u16) + spec_enc_list::<T>(s)
}

/// A whole blob decodes to a batch only if every byte is consumed.
pub open spec fn spec_dec_batch<T: NetworkMessageType>(s: Seq<u8>) -> Option<Seq<T::VT>> {
    match dec_u16(s) {
        Some((n, rest)) => match spec_dec_list::<T>(rest, n as nat) {
            Some((vs, rest2)) => if rest2.len() == 0 {
                Some(vs)
            } else {
                None
            },
            None => None,
        },
        None => None,
    }
}

pub proof fn lemma_list_round_trip<T: NetworkMessageType>(s: Seq<T::VT>, rest: Seq<u8>)
    requires
        forall|i: int| 0 <= i < s.len() ==> T::wfv(#[trigger] s[i]),
    ensures
        spec_dec_list::<T>(spec_enc_list::<T>(s) + rest, s.len()) == Some((s, rest)),
    decreases s.len(),
{
    if s.len() == 0 {
        assert(spec_enc_list::<T>(s) + rest =~= rest);
    } else {
        let hd = s[0];
        let tl = s.drop_first();
        assert(spec_enc_list::<T>(s) + rest =~= T::spec_enc(hd) + (spec_enc_list::<T>(tl)
            + rest));
        T::lemma_round_trip(hd, spec_enc_list::<T>(tl) + rest);
        lemma_list_round_trip::<T>(tl, rest);
        assert(seq![hd] + tl =~= s);
    }
}

/// The round-trip law: decoding the encoding of any well-formed batch
/// yields exactly that batch.
pub proof fn lemma_batch_round_trip<T: NetworkMessageType>(s: Seq<T::VT>)
    requires
        spec_batch_wf::<T>(s),
    ensures
        spec_dec_batch::<T>(spec_enc_batch::<T>(s)) == Some(s),
{
    lemma_u16_round_trip(s.len() as u16, spec_enc_list::<T>(s));
    lemma_list_round_trip::<T>(s, Seq::empty());
    assert(spec_enc_list::<T>(s) + Seq::<u8>::empty() =~= spec_enc_list::<T>(s));
}

/// Appending a message to a batch appends its encoding.
pub proof fn lemma_enc_list_snoc<T: NetworkMessageType>(s: Seq<T::VT>, v: T::VT)
    ensures
        spec_enc_list::<T>(s.push(v)) == spec_enc_list::<T>(s) + T::spec_enc(v),
    decreases s.len(),
{
    if s.len() == 0 {
        assert(s.push(v)[0] == v);
        assert(s.push(v).drop_first() =~= Seq::<T::VT>::empty());
        assert(spec_enc_list::<T>(s) == Seq::<u8>::empty());
        assert(spec_enc_list::<T>(s.push(v).drop_first()) == Seq::<u8>::empty());
        assert(spec_enc_list::<T>(s.push(v)) == T::spec_enc(v) + spec_enc_list::<T>(
            s.push(v).drop_first(),
        ));
        assert(spec_enc_list::<T>(s.push(v)) =~= spec_enc_list::<T>(s) + T::spec_enc(v));
    } else {
        assert(s.push(v)[0] == s[0]);
        assert(s.push(v).drop_first() =~= s.drop_first().push(v));
        lemma_enc_list_snoc::<T>(s.drop_first(), v);
        assert(spec_enc_list::<T>(s.push(v)) == T::spec_enc(s[0]) + spec_enc_list::<T>(
            s.drop_first().push(v),
        ));
        assert(spec_enc_list::<T>(s.push(v)) =~= spec_enc_list::<T>(s) + T::spec_enc(v));
    }
}

/// One decode step folded into the accumulated prefix.
#[verifier::rlimit(50)]
proof fn lemma_dec_list_step<T: NetworkMessageType>(
    acc: Seq<T::VT>,
    v: T::VT,
    s: Seq<u8>,
    s2: Seq<u8>,
    k: nat,
)
    requires
        k >= 1,
        T::spec_dec(s) == Some((v, s2)),
    ensures
        (match spec_dec_list::<T>(s, k) {
            Some(p) => Some((acc + p.0, p.1)),
            None => None::<(Seq<T::VT>, Seq<u8>)>,
        }) == (match spec_dec_list::<T>(s2, (k - 1) as nat) {
            Some(p) => Some((acc.push(v) + p.0, p.1)),
            None => None::<(Seq<T::VT>, Seq<u8>)>,
        }),
{
    match spec_dec_list::<T>(s2, (k - 1) as nat) {
        Some(p) => {
            lemma_cons_assoc(acc, v, p.0);
        },
        None => {},
    }
}

/// Serialize a queue of typed messages as one blob.
pub fn encode_message_batch<T: NetworkMessageType>(batch: &Vec<NetworkMessage<T>>) -> (r: Vec<
    u8,
>)
    requires
        spec_batch_wf::<T>(batch_views(batch@)),
    ensures
        r@ == spec_enc_batch::<T>(batch_views(batch@)),
{
    let ghost views = batch_views(batch@);
    let mut out: Vec<u8> = Vec::new();
    write_u16(&mut out, batch.len() as u16);
    let mut i: usize = 0;
    while i < batch.len()
        invariant
            i <= batch@.len(),
            spec_batch_wf::<T>(batch_views(batch@)),
            views == batch_views(batch@),
            out@ == enc_u16(batch@.len() as u16) + spec_enc_list::<T>(views.take(i as int)),
        decreases batch@.len() - i,
    {
        proof {
            assert(views.take(i as int).push(views[i as int]) =~= views.take(i as int + 1));
            lemma_enc_list_snoc::<T>(views.take(i as int), views[i as int]);
            assert(views[i as int] == batch@[i as int].0.view_of());
        }
        batch[i].0.encode(&mut out);
        i = i + 1;
    }
    proof {
        assert(views.take(views.len() as int) =~= views);
    }
    out
}

/// Decode one blob into a batch; a malformed blob is reported, never a
/// panic. Succeeds exactly when the specification decoder does.
pub fn decode_message_batch<T: NetworkMessageType>(bytes: &Vec<u8>) -> (r: Result<
    Vec<T>,
    DecodeError,
>)
    ensures
        match r {
            Ok(v) => spec_dec_batch::<T>(bytes@) == Some(message_views(v@)) && spec_batch_wf::<
                T,
            >(message_views(v@)),
            Err(_) => spec_dec_batch::<T>(bytes@) is None,
        },
{
    let mut pos: usize = 0;
    proof {
        assert(bytes@.skip(0) =~= bytes@);
    }
    let n = match read_u16(bytes, &mut pos) {
        Ok(n) => n,
        Err(_) => {
            return Err(DecodeError);
        },
    };
    let ghost after_count = bytes@.skip(pos as int);
    let mut acc: Vec<T> = Vec::new();
    let mut i: usize = 0;
    while i < n as usize
        invariant
            i <= n,
            pos <= bytes@.len(),
            acc@.len() == i,
            dec_u16(bytes@) == Some((n, after_count)),
            forall|j: int| 0 <= j < acc@.len() ==> T::wfv(#[trigger] acc@[j].view_of()),
            spec_dec_list::<T>(after_count, n as nat) == (match spec_dec_list::<T>(
                bytes@.skip(pos as int),
                (n - i) as nat,
            ) {
                Some(p) => Some((message_views(acc@) + p.0, p.1)),
                None => None::<(Seq<T::VT>, Seq<u8>)>,
            }),
        decreases n - i,
    {
        let ghost cur = bytes@.skip(pos as int);
        let ghost old_acc = acc@;
        let m = match T::decode(bytes, &mut pos) {
            Ok(m) => m,
            Err(_) => {
                return Err(DecodeError);
            },
        };
        proof {
            lemma_dec_list_step::<T>(
                message_views(old_acc),
                m.view_of(),
                cur,
                bytes@.skip(pos as int),
                (n - i) as nat,
            );
        }
        acc.push(m);
        proof {
            assert(message_views(acc@) =~= message_views(old_acc).push(m.view_of()));
        }
        i = i + 1;
    }
    if pos != bytes.len() {
        return Err(DecodeError);
    }
    proof {
        assert(bytes@.skip(pos as int) =~= Seq::<u8>::empty());
        assert(spec_dec_list::<T>(bytes@.skip(pos as int), 0) == Some(
            (Seq::<T::VT>::empty(), bytes@.skip(pos as int)),
        ));
        assert(message_views(acc@) + Seq::<T::VT>::empty() =~= message_views(acc@));
    }
    Ok(acc)
}

} // verus!
