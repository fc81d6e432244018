//! Player state and the client-side movement rules: mapping an input
//! bitmask to a velocity in the player's yaw-rotated frame.

use vstd::prelude::*;
use std::collections::VecDeque;
use crate::camera::{spec_camera_after_input, spec_clamp, CameraInfo};
use crate::common::{lemma_mul_bounds, Id, Vec2, Vec3};
use crate::net_manage::{spec_queue, UdpConnection};
use crate::net_message::{CUdpType, NetworkMessage};
use crate::net_reconciliation::{ObjectState, ReconcileBuffer, StateType};

verus! {

/// Input mask bit: move forward.
pub const INPUT_FORWARD: u16 = 1;
/// Input mask bit: move backward.
pub const INPUT_BACK: u16 = 2;
/// Input mask bit: strafe right.
pub const INPUT_RIGHT: u16 = 4;
/// Input mask bit: strafe left.
pub const INPUT_LEFT: u16 = 8;
/// Input mask bit: jump.
pub const INPUT_JUMP: u16 = 16;
/// Input mask bit: run instead of walk.
pub const INPUT_RUN: u16 = 32;

/// Walking speed, thousandths of a unit per tick.
pub const WALK_SPEED: i64 = 1500;
/// Running speed, thousandths of a unit per tick.
pub const RUN_SPEED: i64 = 5000;
/// Upward velocity added by one jump input, thousandths of a unit per tick.
pub const JUMP_IMPULSE: i64 = 1000;
/// One over the square root of two, in thousandths: the length of each leg
/// of a normalized diagonal direction.
pub const DIAGONAL_COMPONENT: i64 = 707;

/// Coordinates and velocities the movement rules accept, thousandths of a
/// unit: a million units either way from the origin.
pub const POS_BOUND: i64 = 1000000000;

/// Animation the player model is playing, shared over the wire.
#[derive(Clone, Copy, Debug, PartialEq, Eq, Structural, Hash)]
pub enum AnimationState {
    Idle,
    Walking,
    Running,
    Jumping,
    Falling,
}

/// Coarse movement classification of one tick's input.
#[derive(Clone, Copy, Debug, PartialEq, Eq, Structural, Hash)]
pub enum MovementState {
    Idle,
    Walking,
    Running,
    Jumping,
    Falling,
}

/// The server's ground truth for one player at one tick.
#[derive(Clone, Copy, Debug, PartialEq, Eq, Structural)]
pub struct Player {
    pub position: Vec3,
    pub linear_velocity: Vec3,
    /// Microradians.
    pub yaw: i64,
    /// Microradians.
    pub pitch: i64,
    pub animation_state: AnimationState,
}

impl Player {
    pub fn new(
        position: Vec3,
        linear_velocity: Vec3,
        yaw: i64,
        pitch: i64,
        animation_state: AnimationState,
    ) -> (r: Player)
        ensures
            r == (Player { position, linear_velocity, yaw, pitch, animation_state }),
    {
        Player { position, linear_velocity, yaw, pitch, animation_state }
    }
}

/// The client's locally owned, not-yet-confirmed estimate of its own state.
#[derive(Clone, Copy, Debug, PartialEq, Eq, Structural)]
pub struct PredictedPlayerState {
    pub position: Vec3,
    pub linear_velocity: Vec3,
    /// Microradians.
    pub yaw: i64,
    /// Microradians.
    pub pitch: i64,
}

/// One tick's raw input as extracted from an inbound packet.
#[derive(Clone, Copy, Debug, PartialEq, Eq, Structural)]
pub struct PlayerInput {
    pub keymask: u16,
    pub mouse_delta: Vec2,
}

/// Yaw given to the movement rules as its cosine and sine in thousandths;
/// trigonometry itself is the caller's concern.
#[derive(Clone, Copy, Debug, PartialEq, Eq, Structural)]
pub struct YawRotation {
    pub cos: i64,
    pub sin: i64,
}

impl YawRotation {
    /// Both components of a unit direction fit in one thousand thousandths.
    pub open spec fn wf(self) -> bool {
        &&& -1000 <= self.cos <= 1000
        &&& -1000 <= self.sin <= 1000
    }

    /// The rotation for yaw zero.
    pub fn identity() -> (r: YawRotation)
        ensures
            r == (YawRotation { cos: 1000i64, sin: 0i64 }),
            r.wf(),
    {
        YawRotation { cos: 1000, sin: 0 }
    }
}

/// Division by one thousand that rounds toward zero, as the fixed-point
/// products here require.
pub open spec fn spec_div1000(a: int) -> int {
    if a >= 0 {
        a / 1000
    } else {
        -((-a) / 1000)
    }
}

fn div1000(a: i64) -> (r: i64)
    requires
        -0x4000000000000000 <= a <= 0x4000000000000000,
    ensures
        r == spec_div1000(a as int),
        a >= 0 ==> 0 <= r && 1000 * r <= a,
        a <= 0 ==> r <= 0 && a <= 1000 * r,
{
    if a >= 0 {
        a / 1000
    } else {
        -((-a) / 1000)
    }
}

/// Raw sideways direction commanded by the mask: right minus left.
pub open spec fn spec_raw_dir_x(mask: u16) -> int {
    (if mask & INPUT_RIGHT != 0 { 1int } else { 0int }) - (if mask & INPUT_LEFT != 0 {
        1int
    } else {
        0int
    })
}

/// Raw forward axis direction commanded by the mask: back minus forward,
/// forward being the negative z direction.
pub open spec fn spec_raw_dir_z(mask: u16) -> int {
    (if mask & INPUT_BACK != 0 { 1int } else { 0int }) - (if mask & INPUT_FORWARD != 0 {
        1int
    } else {
        0int
    })
}

/// Length in thousandths of each component after normalizing a raw
/// direction whose components lie in minus one to one.
pub open spec fn spec_norm_scale(dx: int, dz: int) -> int {
    if dx != 0 && dz != 0 {
        DIAGONAL_COMPONENT as int
    } else {
        1000
    }
}

/// Speed selected by the run bit.
pub open spec fn spec_speed(mask: u16) -> int {
    if mask & INPUT_RUN != 0 {
        RUN_SPEED as int
    } else {
        WALK_SPEED as int
    }
}

/// The horizontal velocity produced by an input mask under a yaw rotation,
/// and the vertical velocity after any jump impulse: the normalized mask
/// direction, rotated into the player's frame, scaled to walk or run speed.
pub open spec fn spec_velocity_after_input(mask: u16, v: Vec3, rot: YawRotation) -> Vec3 {
    let dx = spec_raw_dir_x(mask);
    let dz = spec_raw_dir_z(mask);
    let scale = spec_norm_scale(dx, dz);
    let nx = dx * scale;
    let nz = dz * scale;
    let rx = spec_div1000(nx * rot.cos + nz * rot.sin);
    let rz = spec_div1000(nz * rot.cos - nx * rot.sin);
    let speed = spec_speed(mask);
    let vy = if mask & INPUT_JUMP != 0 {
        v.y + JUMP_IMPULSE
    } else {
        v.y as int
    };
    Vec3 {
        x: spec_div1000(rx * speed) as i64,
        y: vy as i64,
        z: spec_div1000(rz * speed) as i64,
    }
}

/// Downward velocity added each tick, thousandths of a unit per tick.
pub const GRAVITY_PER_TICK: i64 = 3;

/// A contact normal's vertical component above this counts as ground.
pub const GROUND_NORMAL_Y: i64 = 700;

/// Margin kept from a contact when clamping travel, thousandths of a
/// unit.
pub const SKIN_MARGIN: i64 = 20;

/// Velocities the collision response accepts, thousandths of a unit per
/// tick.
pub const VEL_BOUND: i64 = 1000000;

/// A per-player FIFO of unconsumed inputs on the server, drained one
/// entry per authoritative tick.
#[derive(Debug)]
pub struct PendingInputs {
    pub buffer: VecDeque<PlayerInput>,
}

impl PendingInputs {
    /// An empty backlog.
    pub fn new() -> (r: PendingInputs)
        ensures
            r.buffer@ == Seq::<PlayerInput>::empty(),
    {
        PendingInputs { buffer: VecDeque::new() }
    }
}

/// Marks an entity as a player the synchronization tracks.
#[derive(Clone, Copy, Debug, PartialEq, Eq, Structural)]
pub struct PlayerMarker;

/// The client's own input and identity state, refreshed every tick.
pub struct PlayerInfo {
    pub current_player_id: Id,
    pub player_inputs: u16,
    pub mouse_delta: Vec2,
    pub accumulated_mouse_delta: Vec2,
    pub player_movement_state: Vec<MovementState>,
}

impl PlayerInfo {
    /// All angular quantities stay in range for the movement rules.
    pub open spec fn wf(self) -> bool {
        &&& -POS_BOUND <= self.mouse_delta.x <= POS_BOUND
        &&& -POS_BOUND <= self.mouse_delta.y <= POS_BOUND
        &&& -POS_BOUND <= self.accumulated_mouse_delta.x <= POS_BOUND
        &&& -POS_BOUND <= self.accumulated_mouse_delta.y <= POS_BOUND
    }

    /// Fresh state before any input or identity arrives.
    pub fn new() -> (r: PlayerInfo)
        ensures
            r.current_player_id == (Id(0)),
            r.player_inputs == 0,
            r.mouse_delta == (Vec2 { x: 0i64, y: 0i64 }),
            r.accumulated_mouse_delta == (Vec2 { x: 0i64, y: 0i64 }),
            r.player_movement_state@ == Seq::<MovementState>::empty(),
            r.wf(),
    {
        PlayerInfo {
            current_player_id: Id(0),
            player_inputs: 0,
            mouse_delta: Vec2 { x: 0, y: 0 },
            accumulated_mouse_delta: Vec2 { x: 0, y: 0 },
            player_movement_state: Vec::new(),
        }
    }
}

/// What a swept collision cast reported: how far the shape can travel
/// and the unit contact normal, both in thousandths.
#[derive(Clone, Copy, Debug, PartialEq, Eq, Structural)]
pub struct ContactHit {
    pub distance: i64,
    pub normal: Vec3,
}

impl ContactHit {
    /// A unit normal and a representable distance.
    pub open spec fn wf(self) -> bool {
        &&& -1000 <= self.normal.x <= 1000
        &&& -1000 <= self.normal.y <= 1000
        &&& -1000 <= self.normal.z <= 1000
        &&& 0 <= self.distance <= POS_BOUND
    }
}

/// Division that rounds toward zero, for fixed-point products.
pub open spec fn spec_tdiv(a: int, b: int) -> int {
    if a >= 0 {
        a / b
    } else {
        -((-a) / b)
    }
}

fn tdiv(a: i64, b: i64) -> (r: i64)
    requires
        b > 0,
        -0x4000000000000000 <= a <= 0x4000000000000000,
    ensures
        r == spec_tdiv(a as int, b as int),
        a >= 0 ==> 0 <= r <= a,
        a <= 0 ==> a <= r <= 0,
{
    if a >= 0 {
        proof {
            assert(0 <= a / b <= a) by (nonlinear_arith)
                requires
                    a >= 0,
                    b > 0,
            ;
        }
        a / b
    } else {
        proof {
            assert(0 <= (-(a as int)) / (b as int) <= -(a as int)) by (nonlinear_arith)
                requires
                    a < 0,
                    b > 0,
            ;
        }
        -((-a) / b)
    }
}

/// The square root of a nonnegative value, rounded down.
pub fn isqrt(x: i64) -> (r: i64)
    requires
        0 <= x <= 0x3a35294400000000,
    ensures
        0 <= r,
        r * r <= x,
        x < (r + 1) * (r + 1),
{
    let mut lo: i64 = 0;
    let mut hi: i64 = 2097152000;
    proof {
        assert(2097152000int * 2097152000int > 0x3a35294400000000int);
    }
    while hi - lo > 1
        invariant
            0 <= lo < hi <= 2097152000,
            lo * lo <= x,
            x < hi * hi,
        decreases hi - lo,
    {
        let mid: i64 = lo + (hi - lo) / 2;
        proof {
            lemma_mul_bounds(mid as int, mid as int, 2097152000, 2097152000);
        }
        if mid * mid <= x {
            lo = mid;
        } else {
            hi = mid;
        }
    }
    lo
}

/// What the collision query's answer does to a velocity: a near-vertical
/// contact normal zeroes the fall (ground snap); otherwise the component
/// penetrating the surface is removed; in either case travel is clamped
/// to the reported safe distance less the skin margin.
pub open spec fn spec_collision_response(v: Vec3, hit: Option<ContactHit>) -> Vec3 {
    match hit {
        None => v,
        Some(h) => {
            let v1 = if h.normal.y > GROUND_NORMAL_Y {
                Vec3 { x: v.x, y: 0i64, z: v.z }
            } else {
                let dot = spec_div1000(
                    v.x * h.normal.x + v.y * h.normal.y + v.z * h.normal.z,
                );
                if dot < 0 {
                    Vec3 {
                        x: (v.x - spec_div1000(dot * h.normal.x)) as i64,
                        y: (v.y - spec_div1000(dot * h.normal.y)) as i64,
                        z: (v.z - spec_div1000(dot * h.normal.z)) as i64,
                    }
                } else {
                    v
                }
            };
            spec_clamp_travel(v1, h.distance as int)
        },
    }
}

/// Clamp a velocity's magnitude to the safe travel distance less the
/// skin margin.
pub open spec fn spec_clamp_travel(v: Vec3, distance: int) -> Vec3 {
    let safe = if distance - SKIN_MARGIN >= 0 {
        distance - SKIN_MARGIN
    } else {
        0
    };
    let speed = spec_speed_of(v);
    if speed > safe {
        Vec3 {
            x: spec_tdiv(v.x * safe, speed) as i64,
            y: spec_tdiv(v.y * safe, speed) as i64,
            z: spec_tdiv(v.z * safe, speed) as i64,
        }
    } else {
        v
    }
}

/// The magnitude of a velocity, rounded down.
pub open spec fn spec_speed_of(v: Vec3) -> int {
    spec_isqrt(v.x * v.x + v.y * v.y + v.z * v.z)
}

/// The square root rounded down, named for the contracts; the body is
/// the usual characterization.
pub open spec fn spec_isqrt(x: int) -> int {
    choose|r: int| 0 <= r && #[trigger] (r * r) <= x && x < (r + 1) * (r + 1)
}

/// The characterization pins the root down: any value satisfying it is
/// the root.
pub proof fn lemma_isqrt_unique(x: int, r: int)
    requires
        0 <= r,
        r * r <= x,
        x < (r + 1) * (r + 1),
    ensures
        spec_isqrt(x) == r,
{
    let c = choose|c: int| 0 <= c && #[trigger] (c * c) <= x && x < (c + 1) * (c + 1);
    assert(0 <= c && c * c <= x && x < (c + 1) * (c + 1));
    assert(c == r) by (nonlinear_arith)
        requires
            0 <= r,
            r * r <= x,
            x < (r + 1) * (r + 1),
            0 <= c,
            c * c <= x,
            x < (c + 1) * (c + 1),
    ;
}

/// Apply the collision query's answer to a velocity.
pub fn apply_collision_response(velocity: &mut Vec3, hit: Option<ContactHit>)
    requires
        -VEL_BOUND <= old(velocity).x <= VEL_BOUND,
        -VEL_BOUND <= old(velocity).y <= VEL_BOUND,
        -VEL_BOUND <= old(velocity).z <= VEL_BOUND,
        match hit {
            Some(h) => h.wf(),
            None => true,
        },
    ensures
        *final(velocity) == spec_collision_response(*old(velocity), hit),
{
    let h = match hit {
        None => {
            return ;
        },
        Some(h) => h,
    };
    if h.normal.y > GROUND_NORMAL_Y {
        velocity.y = 0;
    } else {
        proof {
            lemma_mul_bounds(old(velocity).x as int, h.normal.x as int, VEL_BOUND as int, 1000);
            lemma_mul_bounds(old(velocity).y as int, h.normal.y as int, VEL_BOUND as int, 1000);
            lemma_mul_bounds(old(velocity).z as int, h.normal.z as int, VEL_BOUND as int, 1000);
        }
        let dot = div1000(
            velocity.x * h.normal.x + velocity.y * h.normal.y + velocity.z * h.normal.z,
        );
        if dot < 0 {
            proof {
                lemma_mul_bounds(dot as int, h.normal.x as int, 3 * VEL_BOUND as int, 1000);
                lemma_mul_bounds(dot as int, h.normal.y as int, 3 * VEL_BOUND as int, 1000);
                lemma_mul_bounds(dot as int, h.normal.z as int, 3 * VEL_BOUND as int, 1000);
            }
            velocity.x = velocity.x - div1000(dot * h.normal.x);
            velocity.y = velocity.y - div1000(dot * h.normal.y);
            velocity.z = velocity.z - div1000(dot * h.normal.z);
        }
    }
    clamp_travel(velocity, h.distance);
}

/// Clamp a velocity's magnitude to the safe travel distance less the
/// skin margin.
fn clamp_travel(velocity: &mut Vec3, distance: i64)
    requires
        -4 * VEL_BOUND <= old(velocity).x <= 4 * VEL_BOUND,
        -4 * VEL_BOUND <= old(velocity).y <= 4 * VEL_BOUND,
        -4 * VEL_BOUND <= old(velocity).z <= 4 * VEL_BOUND,
        0 <= distance <= POS_BOUND,
    ensures
        *final(velocity) == spec_clamp_travel(*old(velocity), distance as int),
{
    let safe: i64 = if distance - SKIN_MARGIN >= 0 {
        distance - SKIN_MARGIN
    } else {
        0
    };
    proof {
        lemma_mul_bounds(velocity.x as int, velocity.x as int, 4000000, 4000000);
        lemma_mul_bounds(velocity.y as int, velocity.y as int, 4000000, 4000000);
        lemma_mul_bounds(velocity.z as int, velocity.z as int, 4000000, 4000000);
        assert(velocity.x as int * velocity.x as int >= 0 && velocity.y as int * velocity.y as int
            >= 0 && velocity.z as int * velocity.z as int >= 0) by (nonlinear_arith);
    }
    let sq: i64 = velocity.x * velocity.x + velocity.y * velocity.y + velocity.z
        * velocity.z;
    let speed = isqrt(sq);
    proof {
        lemma_isqrt_unique(sq as int, speed as int);
    }
    if speed > safe {
        proof {
            assert(speed * speed <= sq);
            assert(speed <= 7000000) by (nonlinear_arith)
                requires
                    0 <= speed,
                    speed * speed <= sq,
                    sq <= 48000000000000,
            ;
            lemma_mul_bounds(old(velocity).x as int, safe as int, 4 * VEL_BOUND as int, POS_BOUND as int);
            lemma_mul_bounds(old(velocity).y as int, safe as int, 4 * VEL_BOUND as int, POS_BOUND as int);
            lemma_mul_bounds(old(velocity).z as int, safe as int, 4 * VEL_BOUND as int, POS_BOUND as int);
        }
        velocity.x = tdiv(velocity.x * safe, speed);
        velocity.y = tdiv(velocity.y * safe, speed);
        velocity.z = tdiv(velocity.z * safe, speed);
    }
}

/// Replace the horizontal velocity with the one the input mask commands in
/// the yaw-rotated frame, and add any jump impulse to the vertical velocity.
pub fn apply_player_movement_input(
    encoded_input: u16,
    linear_velocity: &mut Vec3,
    rotation: &YawRotation,
)
    requires
        rotation.wf(),
        -POS_BOUND <= old(linear_velocity).y <= POS_BOUND,
    ensures
        *final(linear_velocity) == spec_velocity_after_input(
            encoded_input,
            *old(linear_velocity),
            *rotation,
        ),
        -10000 <= final(linear_velocity).x <= 10000,
        -10000 <= final(linear_velocity).z <= 10000,
        old(linear_velocity).y <= final(linear_velocity).y <= old(linear_velocity).y
            + JUMP_IMPULSE,
{
    let dx: i64 = (if encoded_input & INPUT_RIGHT != 0 {
        1i64
    } else {
        0i64
    }) - (if encoded_input & INPUT_LEFT != 0 {
        1i64
    } else {
        0i64
    });
    let dz: i64 = (if encoded_input & INPUT_BACK != 0 {
        1i64
    } else {
        0i64
    }) - (if encoded_input & INPUT_FORWARD != 0 {
        1i64
    } else {
        0i64
    });
    let scale: i64 = if dx != 0 && dz != 0 {
        DIAGONAL_COMPONENT
    } else {
        1000
    };
    proof {
        crate::common::lemma_mul_bounds(dx as int, scale as int, 1, 1000);
        crate::common::lemma_mul_bounds(dz as int, scale as int, 1, 1000);
    }
    let nx: i64 = dx * scale;
    let nz: i64 = dz * scale;
    proof {
        crate::common::lemma_mul_bounds(nx as int, rotation.cos as int, 1000, 1000);
        crate::common::lemma_mul_bounds(nz as int, rotation.sin as int, 1000, 1000);
        crate::common::lemma_mul_bounds(nz as int, rotation.cos as int, 1000, 1000);
        crate::common::lemma_mul_bounds(nx as int, rotation.sin as int, 1000, 1000);
    }
    let rx: i64 = div1000(nx * rotation.cos + nz * rotation.sin);
    let rz: i64 = div1000(nz * rotation.cos - nx * rotation.sin);
    proof {
        crate::common::lemma_mul_bounds(rx as int, RUN_SPEED as int, 2000, 5000);
        crate::common::lemma_mul_bounds(rz as int, RUN_SPEED as int, 2000, 5000);
        crate::common::lemma_mul_bounds(rx as int, WALK_SPEED as int, 2000, 1500);
        crate::common::lemma_mul_bounds(rz as int, WALK_SPEED as int, 2000, 1500);
    }
    let speed: i64 = if encoded_input & INPUT_RUN != 0 {
        RUN_SPEED
    } else {
        WALK_SPEED
    };
    if encoded_input & INPUT_JUMP != 0 {
        linear_velocity.y = linear_velocity.y + JUMP_IMPULSE;
    }
    linear_velocity.x = div1000(rx * speed);
    linear_velocity.z = div1000(rz * speed);
}


/// Fastest speed any velocity component may reach, thousandths of a
/// unit per tick.
pub const TERMINAL_VELOCITY: i64 = 100000;

pub(crate) fn clamp_i64(x: i64, b: i64) -> (r: i64)
    requires
        b >= 0,
    ensures
        r == crate::camera::spec_clamp(x as int, b as int),
{
    if x > b {
        b
    } else if x < -b {
        -b
    } else {
        x
    }
}

impl PredictedPlayerState {
    /// Every kinematic quantity lies in the range the movement rules
    /// keep it in.
    pub open spec fn wf(self) -> bool {
        &&& -POS_BOUND <= self.position.x <= POS_BOUND
        &&& -POS_BOUND <= self.position.y <= POS_BOUND
        &&& -POS_BOUND <= self.position.z <= POS_BOUND
        &&& -TERMINAL_VELOCITY <= self.linear_velocity.x <= TERMINAL_VELOCITY
        &&& -TERMINAL_VELOCITY <= self.linear_velocity.y <= TERMINAL_VELOCITY
        &&& -TERMINAL_VELOCITY <= self.linear_velocity.z <= TERMINAL_VELOCITY
        &&& -crate::camera::YAW_LIMIT <= self.yaw <= crate::camera::YAW_LIMIT
        &&& -crate::camera::PITCH_LIMIT <= self.pitch <= crate::camera::PITCH_LIMIT
    }
}

/// One predicted simulation tick: gravity biases the fall, the input
/// mask sets the horizontal velocity in the yaw-rotated frame, the
/// collision query's answer corrects it, every component saturates at
/// terminal speed, the position advances by the velocity within the
/// world bounds, and the view angles follow the mouse.
pub open spec fn spec_predict_tick(
    s: PredictedPlayerState,
    mask: u16,
    mouse_delta: Vec2,
    rot: YawRotation,
    hit: Option<ContactHit>,
) -> PredictedPlayerState {
    let vg = Vec3 {
        x: s.linear_velocity.x,
        y: crate::camera::spec_clamp(
            s.linear_velocity.y - GRAVITY_PER_TICK,
            TERMINAL_VELOCITY as int,
        ) as i64,
        z: s.linear_velocity.z,
    };
    let vi = spec_velocity_after_input(mask, vg, rot);
    let vc = spec_collision_response(vi, hit);
    let v = Vec3 {
        x: crate::camera::spec_clamp(vc.x as int, TERMINAL_VELOCITY as int) as i64,
        y: crate::camera::spec_clamp(vc.y as int, TERMINAL_VELOCITY as int) as i64,
        z: crate::camera::spec_clamp(vc.z as int, TERMINAL_VELOCITY as int) as i64,
    };
    let p = Vec3 {
        x: crate::camera::spec_clamp(s.position.x + v.x, POS_BOUND as int) as i64,
        y: crate::camera::spec_clamp(s.position.y + v.y, POS_BOUND as int) as i64,
        z: crate::camera::spec_clamp(s.position.z + v.z, POS_BOUND as int) as i64,
    };
    let cam = crate::camera::spec_camera_after_input(
        mouse_delta,
        (crate::camera::CameraInfo { yaw: s.yaw, pitch: s.pitch }),
    );
    PredictedPlayerState { position: p, linear_velocity: v, yaw: cam.yaw, pitch: cam.pitch }
}

/// Advance the predicted state by one tick from this tick's input and
/// the collision query's answer.
pub fn predict_player_tick(
    state: &mut PredictedPlayerState,
    encoded_input: u16,
    mouse_delta: Vec2,
    rotation: &YawRotation,
    hit: Option<ContactHit>,
)
    requires
        old(state).wf(),
        rotation.wf(),
        match hit {
            Some(h) => h.wf(),
            None => true,
        },
        -1000000000 <= mouse_delta.x <= 1000000000,
        -1000000000 <= mouse_delta.y <= 1000000000,
    ensures
        *final(state) == spec_predict_tick(
            *old(state),
            encoded_input,
            mouse_delta,
            *rotation,
            hit,
        ),
        final(state).wf(),
{
    let mut v = state.linear_velocity;
    v.y = clamp_i64(v.y - GRAVITY_PER_TICK, TERMINAL_VELOCITY);
    apply_player_movement_input(encoded_input, &mut v, rotation);
    apply_collision_response(&mut v, hit);
    v.x = clamp_i64(v.x, TERMINAL_VELOCITY);
    v.y = clamp_i64(v.y, TERMINAL_VELOCITY);
    v.z = clamp_i64(v.z, TERMINAL_VELOCITY);
    state.position.x = clamp_i64(state.position.x + v.x, POS_BOUND);
    state.position.y = clamp_i64(state.position.y + v.y, POS_BOUND);
    state.position.z = clamp_i64(state.position.z + v.z, POS_BOUND);
    state.linear_velocity = v;
    let mut cam = crate::camera::CameraInfo { yaw: state.yaw, pitch: state.pitch };
    crate::camera::apply_player_camera_input(mouse_delta, &mut cam);
    state.yaw = cam.yaw;
    state.pitch = cam.pitch;
}


/// The mask built from which movement keys are held.
pub open spec fn spec_input_mask(
    forward: bool,
    back: bool,
    right: bool,
    left: bool,
    jump: bool,
    run: bool,
) -> u16 {
    (if forward { INPUT_FORWARD } else { 0u16 }) | (if back { INPUT_BACK } else { 0u16 }) | (
    if right { INPUT_RIGHT } else { 0u16 }) | (if left { INPUT_LEFT } else { 0u16 }) | (
    if jump { INPUT_JUMP } else { 0u16 }) | (if run { INPUT_RUN } else { 0u16 })
}

/// The movement classification of held keys: walking on any direction
/// key unless running, jumping and running from their own keys, idle
/// when nothing is held.
pub open spec fn spec_movement_states(
    forward: bool,
    back: bool,
    right: bool,
    left: bool,
    jump: bool,
    run: bool,
) -> Seq<MovementState> {
    let s0 = Seq::<MovementState>::empty();
    let s1 = if (forward || back || right || left) && !run {
        s0.push(MovementState::Walking)
    } else {
        s0
    };
    let s2 = if jump {
        s1.push(MovementState::Jumping)
    } else {
        s1
    };
    let s3 = if run {
        s2.push(MovementState::Running)
    } else {
        s2
    };
    if !forward && !back && !right && !left && !jump && !run {
        s3.push(MovementState::Idle)
    } else {
        s3
    }
}

/// The accumulated mouse delta after one frame: a zeroed accumulator
/// first picks the previous frame offset back up, then the new motion
/// is added, saturating at the representable range.
pub open spec fn spec_accumulated_after(
    accumulated: Vec2,
    previous: Vec2,
    motion: Vec2,
) -> Vec2 {
    let base = if accumulated == (Vec2 { x: 0i64, y: 0i64 }) {
        previous
    } else {
        accumulated
    };
    Vec2 {
        x: spec_clamp(base.x + motion.x, POS_BOUND as int) as i64,
        y: spec_clamp(base.y + motion.y, POS_BOUND as int) as i64,
    }
}

/// Refresh the input state from this frame's held keys and mouse
/// motion.
pub fn input_system(
    motion: Vec2,
    forward: bool,
    back: bool,
    right: bool,
    left: bool,
    jump: bool,
    run: bool,
    player_info: &mut PlayerInfo,
)
    requires
        old(player_info).wf(),
        -POS_BOUND <= motion.x <= POS_BOUND,
        -POS_BOUND <= motion.y <= POS_BOUND,
    ensures
        final(player_info).player_inputs == spec_input_mask(
            forward,
            back,
            right,
            left,
            jump,
            run,
        ),
        final(player_info).player_movement_state@ == spec_movement_states(
            forward,
            back,
            right,
            left,
            jump,
            run,
        ),
        final(player_info).mouse_delta == motion,
        final(player_info).accumulated_mouse_delta == spec_accumulated_after(
            old(player_info).accumulated_mouse_delta,
            old(player_info).mouse_delta,
            motion,
        ),
        final(player_info).current_player_id == old(player_info).current_player_id,
        final(player_info).wf(),
{
    player_info.player_inputs = 0;
    player_info.player_movement_state = Vec::new();
    if player_info.accumulated_mouse_delta.x == 0 && player_info.accumulated_mouse_delta.y
        == 0 {
        player_info.accumulated_mouse_delta = player_info.mouse_delta;
    }
    player_info.mouse_delta = motion;
    player_info.accumulated_mouse_delta.x = clamp_i64(
        player_info.accumulated_mouse_delta.x + motion.x,
        POS_BOUND,
    );
    player_info.accumulated_mouse_delta.y = clamp_i64(
        player_info.accumulated_mouse_delta.y + motion.y,
        POS_BOUND,
    );
    let mask: u16 = (if forward {
        INPUT_FORWARD
    } else {
        0u16
    }) | (if back {
        INPUT_BACK
    } else {
        0u16
    }) | (if right {
        INPUT_RIGHT
    } else {
        0u16
    }) | (if left {
        INPUT_LEFT
    } else {
        0u16
    }) | (if jump {
        INPUT_JUMP
    } else {
        0u16
    }) | (if run {
        INPUT_RUN
    } else {
        0u16
    });
    player_info.player_inputs = mask;
    if (forward || back || right || left) && !run {
        player_info.player_movement_state.push(MovementState::Walking);
    }
    if jump {
        player_info.player_movement_state.push(MovementState::Jumping);
    }
    if run {
        player_info.player_movement_state.push(MovementState::Running);
    }
    if !forward && !back && !right && !left && !jump && !run {
        player_info.player_movement_state.push(MovementState::Idle);
    }
}

/// Adopt the identity the server assigned and start the timeline over.
pub fn set_player_id(
    player_info: &mut PlayerInfo,
    player_id: Id,
    reconcile_buffer: &mut ReconcileBuffer,
)
    requires
        old(reconcile_buffer).wf(),
    ensures
        final(player_info).current_player_id == player_id,
        final(player_info).player_inputs == old(player_info).player_inputs,
        final(player_info).mouse_delta == old(player_info).mouse_delta,
        final(player_info).accumulated_mouse_delta == old(player_info).accumulated_mouse_delta,
        final(player_info).player_movement_state == old(player_info).player_movement_state,
        final(reconcile_buffer).wf(),
        final(reconcile_buffer).history() == Map::<u16, Seq<ObjectState>>::empty(),
        final(reconcile_buffer).sequence_counter == old(reconcile_buffer).sequence_counter,
        final(reconcile_buffer).miss_predict_counter == old(
            reconcile_buffer,
        ).miss_predict_counter,
{
    player_info.current_player_id = player_id;
    reconcile_buffer.clear_history();
}

/// The animation chosen for this tick: walking while any key is held.
pub open spec fn spec_controller_anim(mask: u16) -> AnimationState {
    if mask != 0 {
        AnimationState::Walking
    } else {
        AnimationState::Idle
    }
}

/// The mouse delta reported to the server this tick.
pub open spec fn spec_controller_delta(info: PlayerInfo) -> Vec2 {
    Vec2 {
        x: (info.accumulated_mouse_delta.x - info.mouse_delta.x) as i64,
        y: (info.accumulated_mouse_delta.y - info.mouse_delta.y) as i64,
    }
}

/// One control tick for the locally owned player: queue the identity
/// and this tick's input for the server, hand back the two object
/// states to record, and start a fresh mouse accumulation. Before an
/// endpoint is known nothing happens.
pub fn player_controller(
    player_info: &mut PlayerInfo,
    position: Vec3,
    linear_velocity: Vec3,
    camera: CameraInfo,
    connection: &mut UdpConnection<CUdpType>,
) -> (r: Vec<ObjectState>)
    requires
        old(player_info).wf(),
    ensures
        old(connection).socket is None ==> {
            &&& r@ == Seq::<ObjectState>::empty()
            &&& *final(connection) == *old(connection)
            &&& *final(player_info) == *old(player_info)
        },
        old(connection).socket is Some ==> {
            &&& r@ == seq![
                (ObjectState(
                    StateType::PlayerState {
                        player: Player {
                            position,
                            linear_velocity,
                            yaw: camera.yaw,
                            pitch: camera.pitch,
                            animation_state: spec_controller_anim(
                                old(player_info).player_inputs,
                            ),
                        },
                    },
                )),
                (ObjectState(
                    StateType::InputState {
                        encoded_input: old(player_info).player_inputs,
                        mouse_delta: spec_controller_delta(*old(player_info)),
                    },
                )),
            ]
            &&& final(connection).messages() == spec_queue(
                spec_queue(
                    old(connection).messages(),
                    (NetworkMessage(
                        CUdpType::PlayerId { id: old(player_info).current_player_id },
                    )),
                ),
                (NetworkMessage(
                    CUdpType::Input {
                        keymask: old(player_info).player_inputs,
                        mouse_delta: spec_controller_delta(*old(player_info)),
                    },
                )),
            )
            &&& final(connection).socket == old(connection).socket
            &&& final(connection).input_packet_buffer == old(connection).input_packet_buffer
            &&& final(connection).ping == old(connection).ping
            &&& final(player_info).accumulated_mouse_delta == (Vec2 { x: 0i64, y: 0i64 })
            &&& final(player_info).current_player_id == old(player_info).current_player_id
            &&& final(player_info).player_inputs == old(player_info).player_inputs
            &&& final(player_info).mouse_delta == old(player_info).mouse_delta
            &&& final(player_info).player_movement_state == old(
                player_info,
            ).player_movement_state
        },
        old(player_info).wf() ==> final(player_info).wf(),
        old(connection).wf() ==> final(connection).wf(),
{
    let mut recorded: Vec<ObjectState> = Vec::new();
    if connection.socket.is_none() {
        return recorded;
    }
    let anim = if player_info.player_inputs != 0 {
        AnimationState::Walking
    } else {
        AnimationState::Idle
    };
    let delta = Vec2 {
        x: player_info.accumulated_mouse_delta.x - player_info.mouse_delta.x,
        y: player_info.accumulated_mouse_delta.y - player_info.mouse_delta.y,
    };
    recorded.push(
        ObjectState(
            StateType::PlayerState {
                player: Player::new(position, linear_velocity, camera.yaw, camera.pitch, anim),
            },
        ),
    );
    recorded.push(
        ObjectState(
            StateType::InputState {
                encoded_input: player_info.player_inputs,
                mouse_delta: delta,
            },
        ),
    );
    connection.add_message(
        NetworkMessage(CUdpType::PlayerId { id: player_info.current_player_id }),
    );
    connection.add_message(
        NetworkMessage(
            CUdpType::Input { keymask: player_info.player_inputs, mouse_delta: delta },
        ),
    );
    player_info.accumulated_mouse_delta = Vec2 { x: 0, y: 0 };
    proof {
        assert(recorded@ =~= seq![
            (ObjectState(
                StateType::PlayerState {
                    player: Player {
                        position,
                        linear_velocity,
                        yaw: camera.yaw,
                        pitch: camera.pitch,
                        animation_state: spec_controller_anim(old(player_info).player_inputs),
                    },
                },
            )),
            (ObjectState(
                StateType::InputState {
                    encoded_input: old(player_info).player_inputs,
                    mouse_delta: spec_controller_delta(*old(player_info)),
                },
            )),
        ]);
    }
    recorded
}

} // verus!
