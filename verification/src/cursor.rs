//! The cursor's bookkeeping: the smoothed rotation that mouse moves
//! and the feedback controller kick around, and the drifting offset
//! that wanders between random waypoints. Continuous quantities are
//! held in fixed point: microradians for angles, microseconds for
//! time, micropixels for offsets.
use vstd::prelude::*;

use rand::Rng;

verus! {

/// One full progress unit, in microseconds.
pub const UNIT_MICROS: u64 = 1_000_000;

/// The side of the square the drift waypoints are drawn from, in
/// micropixels.
pub const DRIFT_SPAN_MICROPX: u64 = 10_000_000;

/// Half that side: waypoint coordinates lie in
/// `[-DRIFT_HALF_MICROPX, DRIFT_HALF_MICROPX)`.
pub const DRIFT_HALF_MICROPX: i64 = 5_000_000;

/// How many microradians one pixel of move delta turns the cursor.
pub const ROTATION_GAIN_MICRORAD: i64 = 4_000;

/// The clamp band for one move's rotation kick, in microradians.
pub const MAX_MOVE_ROTATION_MICRORAD: i64 = 70_000;

#[verifier::external_type_specification]
#[verifier::external_body]
pub struct ExThreadRng(rand::rngs::ThreadRng);

/// Relies on `rand::thread_rng`: a handle to the thread-local
/// generator. Nothing is promised of what it will produce.
#[verifier::external_body]
fn rng_new() -> rand::rngs::ThreadRng {
    rand::thread_rng()
}

/// Relies on `rand::Rng::gen_range`: a value drawn from
/// `[0, bound)`; nothing is promised of which one beyond its bounds.
/// It panics on an empty range, which the precondition rules out.
#[verifier::external_body]
fn rand_below(rng: &mut rand::rngs::ThreadRng, bound: u64) -> (r: u64)
    requires
        bound > 0,
    ensures
        r < bound,
{
    rng.gen_range(0..bound)
}

/// A fresh random waypoint, each coordinate somewhere in the fixed
/// square centered on the origin.
fn gen_rand_pos(rng: &mut rand::rngs::ThreadRng) -> (p: (i64, i64))
    ensures
        -DRIFT_HALF_MICROPX <= p.0 < DRIFT_HALF_MICROPX,
        -DRIFT_HALF_MICROPX <= p.1 < DRIFT_HALF_MICROPX,
{
    let x = rand_below(rng, DRIFT_SPAN_MICROPX);
    let y = rand_below(rng, DRIFT_SPAN_MICROPX);
    (x as i64 - DRIFT_HALF_MICROPX, y as i64 - DRIFT_HALF_MICROPX)
}

/// Linear interpolation between fixed-point coordinates, truncating
/// toward the start.
pub open spec fn lerp_spec(a: int, b: int, t: int) -> int {
    if b >= a {
        a + (b - a) * t / (UNIT_MICROS as int)
    } else {
        a - (a - b) * t / (UNIT_MICROS as int)
    }
}

fn lerp_fixed(a: i64, b: i64, t: u64) -> (r: i64)
    requires
        -DRIFT_HALF_MICROPX <= a <= DRIFT_HALF_MICROPX,
        -DRIFT_HALF_MICROPX <= b <= DRIFT_HALF_MICROPX,
        t <= UNIT_MICROS,
    ensures
        r as int == lerp_spec(a as int, b as int, t as int),
        -DRIFT_HALF_MICROPX <= r <= DRIFT_HALF_MICROPX,
{
    if b >= a {
        let diff: u64 = (b - a) as u64;
        proof {
            assert((diff as int) * (t as int) <= (diff as int) * (UNIT_MICROS as int) && (diff
                as int) * (UNIT_MICROS as int) <= 10_000_000 * 1_000_000 && 0 <= (diff as int) * (t
                as int)) by (nonlinear_arith)
                requires
                    0 <= diff as int <= 10_000_000,
                    0 <= t as int <= 1_000_000,
                    UNIT_MICROS == 1_000_000,
            ;
        }
        let num: u64 = diff * t;
        let step: u64 = num / UNIT_MICROS;
        proof {
            assert(0 <= (diff as int) * (t as int) / 1_000_000 <= diff as int) by (nonlinear_arith)
                requires
                    0 <= (diff as int) * (t as int) <= (diff as int) * 1_000_000,
                    0 <= diff as int,
            ;
        }
        a + step as i64
    } else {
        let diff: u64 = (a - b) as u64;
        proof {
            assert((diff as int) * (t as int) <= (diff as int) * (UNIT_MICROS as int) && (diff
                as int) * (UNIT_MICROS as int) <= 10_000_000 * 1_000_000 && 0 <= (diff as int) * (t
                as int)) by (nonlinear_arith)
                requires
                    0 <= diff as int <= 10_000_000,
                    0 <= t as int <= 1_000_000,
                    UNIT_MICROS == 1_000_000,
            ;
        }
        let num: u64 = diff * t;
        let step: u64 = num / UNIT_MICROS;
        proof {
            assert(0 <= (diff as int) * (t as int) / 1_000_000 <= diff as int) by (nonlinear_arith)
                requires
                    0 <= (diff as int) * (t as int) <= (diff as int) * 1_000_000,
                    0 <= diff as int,
            ;
        }
        a - step as i64
    }
}

/// The saturating sum, pinned at the i64 bounds.
pub open spec fn sat_add_spec(a: int, b: int) -> int {
    if a + b > i64::MAX as int {
        i64::MAX as int
    } else if a + b < i64::MIN as int {
        i64::MIN as int
    } else {
        a + b
    }
}

fn sat_add64(a: i64, b: i64) -> (r: i64)
    ensures
        r as int == sat_add_spec(a as int, b as int),
{
    if b >= 0 {
        if a > i64::MAX - b {
            i64::MAX
        } else {
            a + b
        }
    } else {
        if a < i64::MIN - b {
            i64::MIN
        } else {
            a + b
        }
    }
}

/// The rotation kick of one mouse move: the pixel deltas' difference,
/// scaled, then clamped to the fixed band.
pub open spec fn move_rotation_spec(dx: int, dy: int) -> int {
    let raw = (dx - dy) * (ROTATION_GAIN_MICRORAD as int);
    if raw < -(MAX_MOVE_ROTATION_MICRORAD as int) {
        -(MAX_MOVE_ROTATION_MICRORAD as int)
    } else if raw > MAX_MOVE_ROTATION_MICRORAD as int {
        MAX_MOVE_ROTATION_MICRORAD as int
    } else {
        raw
    }
}

/// Law: however large one move's deltas, its rotation kick never
/// leaves the clamp band.
pub proof fn lemma_move_rotation_clamped(dx: int, dy: int)
    ensures
        -(MAX_MOVE_ROTATION_MICRORAD as int) <= move_rotation_spec(dx, dy)
            <= MAX_MOVE_ROTATION_MICRORAD as int,
{
}

/// The rotation kick of one mouse move, computed from the raw deltas.
pub fn move_rotation(dx: i64, dy: i64) -> (r: i64)
    requires
        -(u32::MAX as i64) <= dx <= u32::MAX as i64,
        -(u32::MAX as i64) <= dy <= u32::MAX as i64,
    ensures
        r as int == move_rotation_spec(dx as int, dy as int),
        -MAX_MOVE_ROTATION_MICRORAD <= r <= MAX_MOVE_ROTATION_MICRORAD,
{
    let diff: i128 = dx as i128 - dy as i128;
    proof {
        assert(-40_000_000_000_000 <= (diff as int) * (ROTATION_GAIN_MICRORAD as int)
            <= 40_000_000_000_000) by (nonlinear_arith)
            requires
                -10_000_000_000 <= diff as int <= 10_000_000_000,
                ROTATION_GAIN_MICRORAD == 4_000,
        ;
    }
    let raw: i128 = diff * ROTATION_GAIN_MICRORAD as i128;
    if raw < -(MAX_MOVE_ROTATION_MICRORAD as i128) {
        -MAX_MOVE_ROTATION_MICRORAD
    } else if raw > MAX_MOVE_ROTATION_MICRORAD as i128 {
        MAX_MOVE_ROTATION_MICRORAD
    } else {
        raw as i64
    }
}

/// The progress value after one tick: advanced by the elapsed time,
/// and rolled back to zero once it passes one full unit.
pub open spec fn tick_progress_spec(progress: int, dt: int) -> int {
    if progress + dt > UNIT_MICROS as int {
        0
    } else {
        progress + dt
    }
}

/// Law: after any tick the progress stays in the unit range, and it
/// sits at the very top only when the elapsed time lands exactly
/// there.
pub proof fn lemma_progress_in_range(progress: int, dt: int)
    requires
        0 <= progress <= UNIT_MICROS as int,
        0 <= dt,
    ensures
        0 <= tick_progress_spec(progress, dt) <= UNIT_MICROS as int,
        progress + dt != UNIT_MICROS as int ==> tick_progress_spec(progress, dt) < UNIT_MICROS
            as int,
{
}

/// The cursor's continuous state: the smoothed rotation, the drift
/// waypoints with the progress between them, the current drift offset,
/// and the generator that draws fresh waypoints.
pub struct CursorState {
    rng: rand::rngs::ThreadRng,
    rotation_micro: i64,
    start_x: i64,
    start_y: i64,
    target_x: i64,
    target_y: i64,
    progress_micros: u64,
    drift_x: i64,
    drift_y: i64,
}

impl CursorState {
    pub closed spec fn spec_rotation(&self) -> int {
        self.rotation_micro as int
    }

    pub closed spec fn spec_start(&self) -> (int, int) {
        (self.start_x as int, self.start_y as int)
    }

    pub closed spec fn spec_target(&self) -> (int, int) {
        (self.target_x as int, self.target_y as int)
    }

    pub closed spec fn spec_progress(&self) -> int {
        self.progress_micros as int
    }

    pub closed spec fn spec_drift(&self) -> (int, int) {
        (self.drift_x as int, self.drift_y as int)
    }

    /// The state is well formed: waypoints lie in the fixed square,
    /// progress lies in the unit range, and the drift offset is
    /// exactly the interpolation of the current pair at the current
    /// progress.
    pub open spec fn wf(&self) -> bool {
        &&& -DRIFT_HALF_MICROPX <= self.spec_start().0 <= DRIFT_HALF_MICROPX
        &&& -DRIFT_HALF_MICROPX <= self.spec_start().1 <= DRIFT_HALF_MICROPX
        &&& -DRIFT_HALF_MICROPX <= self.spec_target().0 <= DRIFT_HALF_MICROPX
        &&& -DRIFT_HALF_MICROPX <= self.spec_target().1 <= DRIFT_HALF_MICROPX
        &&& 0 <= self.spec_progress() <= UNIT_MICROS as int
        &&& self.spec_drift().0 == lerp_spec(
            self.spec_start().0,
            self.spec_target().0,
            self.spec_progress(),
        )
        &&& self.spec_drift().1 == lerp_spec(
            self.spec_start().1,
            self.spec_target().1,
            self.spec_progress(),
        )
    }

    /// A fresh cursor: no rotation, zero progress, and two freshly
    /// drawn waypoints with the drift sitting on the start.
    pub fn new() -> (s: CursorState)
        ensures
            s.wf(),
            s.spec_rotation() == 0,
            s.spec_progress() == 0,
            s.spec_drift() == s.spec_start(),
    {
        let mut rng = rng_new();
        let (tx, ty) = gen_rand_pos(&mut rng);
        let (sx, sy) = gen_rand_pos(&mut rng);
        proof {
            assert(lerp_spec(sx as int, tx as int, 0) == sx as int);
            assert(lerp_spec(sy as int, ty as int, 0) == sy as int);
        }
        CursorState {
            rng,
            rotation_micro: 0,
            start_x: sx,
            start_y: sy,
            target_x: tx,
            target_y: ty,
            progress_micros: 0,
            drift_x: sx,
            drift_y: sy,
        }
    }

    pub fn rotation_micros(&self) -> (r: i64)
        ensures
            r as int == self.spec_rotation(),
    {
        self.rotation_micro
    }

    pub fn progress_micros(&self) -> (t: u64)
        ensures
            t as int == self.spec_progress(),
    {
        self.progress_micros
    }

    pub fn start(&self) -> (p: (i64, i64))
        ensures
            (p.0 as int, p.1 as int) == self.spec_start(),
    {
        (self.start_x, self.start_y)
    }

    pub fn target(&self) -> (p: (i64, i64))
        ensures
            (p.0 as int, p.1 as int) == self.spec_target(),
    {
        (self.target_x, self.target_y)
    }

    pub fn drift(&self) -> (p: (i64, i64))
        ensures
            (p.0 as int, p.1 as int) == self.spec_drift(),
    {
        (self.drift_x, self.drift_y)
    }

    /// Applies one rotation kick — the controller's integrated output
    /// or a mouse move's clamped delta — to the smoothed rotation,
    /// pinning at the fixed-point bounds.
    pub fn add_rotation(&mut self, delta_micro: i64)
        requires
            old(self).wf(),
        ensures
            final(self).wf(),
            final(self).spec_rotation() == sat_add_spec(
                old(self).spec_rotation(),
                delta_micro as int,
            ),
            final(self).spec_start() == old(self).spec_start(),
            final(self).spec_target() == old(self).spec_target(),
            final(self).spec_progress() == old(self).spec_progress(),
            final(self).spec_drift() == old(self).spec_drift(),
    {
        self.rotation_micro = sat_add64(self.rotation_micro, delta_micro);
    }

    /// Advances the drift by `dt_micros` of elapsed time: progress
    /// grows; once it passes one full unit it rolls to zero, the old
    /// target becomes the new start and a fresh random target is
    /// drawn. The drift offset is recomputed as the interpolation of
    /// the current pair at the new progress.
    pub fn on_update(&mut self, dt_micros: u64)
        requires
            old(self).wf(),
        ensures
            final(self).wf(),
            final(self).spec_rotation() == old(self).spec_rotation(),
            final(self).spec_progress() == tick_progress_spec(
                old(self).spec_progress(),
                dt_micros as int,
            ),
            old(self).spec_progress() + dt_micros > UNIT_MICROS as int ==> final(self).spec_start()
                == old(self).spec_target(),
            old(self).spec_progress() + dt_micros <= UNIT_MICROS as int ==> final(self).spec_start()
                == old(self).spec_start() && final(self).spec_target() == old(self).spec_target(),
            final(self).spec_drift().0 == lerp_spec(
                final(self).spec_start().0,
                final(self).spec_target().0,
                final(self).spec_progress(),
            ),
            final(self).spec_drift().1 == lerp_spec(
                final(self).spec_start().1,
                final(self).spec_target().1,
                final(self).spec_progress(),
            ),
    {
        let room = UNIT_MICROS - self.progress_micros;
        if dt_micros > room {
            self.progress_micros = 0;
            self.start_x = self.target_x;
            self.start_y = self.target_y;
            let (tx, ty) = gen_rand_pos(&mut self.rng);
            self.target_x = tx;
            self.target_y = ty;
        } else {
            self.progress_micros = self.progress_micros + dt_micros;
        }
        self.drift_x = lerp_fixed(self.start_x, self.target_x, self.progress_micros);
        self.drift_y = lerp_fixed(self.start_y, self.target_y, self.progress_micros);
    }
}

} // verus!
