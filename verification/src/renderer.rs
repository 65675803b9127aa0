//! The page's hold on the session: it installs an image, asks the loop to
//! stop, and turns the positions of the two sliders into the delay between
//! ticks and the step of a tick.

use vstd::prelude::*;
use vstd::arithmetic::power::pow;
use crate::bignat::BigNat;
use crate::gilbert::Cell;
use crate::rotation::magnitude;
use crate::paths::PathFn;
use crate::utils::{lemma_lerp_bounds, lerp, lerp_spec};
use crate::worker::{GlobalState, LoadError, LoadPathMessage, RunState, WorkerMessage};

verus! {

/// The width and height of the loaded image, in pixels.
#[derive(Clone, Copy, Debug, Default)]
pub struct ImageDimensions {
    pub width: u32,
    pub height: u32,
}

/// A grid coordinate `(x, y)`, which a path function may place outside the
/// image.
#[derive(Clone, Copy, Debug, PartialEq, Eq, Structural)]
pub struct Point(pub i32, pub i32);

impl View for Point {
    type V = Cell;

    open spec fn view(&self) -> Cell {
        Cell { x: self.0 as int, y: self.1 as int }
    }
}

/// Whether an image of `width` by `height` pixels in a buffer of `len` bytes is
/// accepted.
pub open spec fn load_image_outcome(global_state: GlobalState, len: int, width: int, height: int)
    -> Result<(), LoadError> {
    if global_state@.run_state != RunState::Idle {
        Err(LoadError::Running)
    } else if width == 0 || height == 0 {
        Err(LoadError::EmptyImage)
    } else if width > i32::MAX || height > i32::MAX || width * height >= u32::MAX {
        Err(LoadError::TooLarge)
    } else if len != width * height * 4 {
        Err(LoadError::SizeMismatch)
    } else {
        Ok(())
    }
}

/// Installs a new image in an idle session: its pixels and its size. The old
/// path goes with the old image, so the session has no path until the worker
/// has built one: the result is the message that asks for it. An image that is
/// refused leaves the session as it is.
pub fn load_image(
    global_state: &mut GlobalState,
    pixel_data: Vec<u8>,
    width: u32,
    height: u32,
) -> (result: Result<WorkerMessage, LoadError>)
    requires
        old(global_state).wf(),
    ensures
        final(global_state).wf(),
        result is Ok <==> load_image_outcome(
            *old(global_state),
            pixel_data.len() as int,
            width as int,
            height as int,
        ) is Ok,
        result matches Err(e) ==> {
            &&& load_image_outcome(
                *old(global_state),
                pixel_data.len() as int,
                width as int,
                height as int,
            ) == Err::<(), LoadError>(e)
            &&& *final(global_state) == *old(global_state)
        },
        result matches Ok(message) ==> {
            &&& message == WorkerMessage::LoadPath(
                LoadPathMessage { width, height, path_fn: PathFn::Gilbert },
            )
            &&& final(global_state)@.pixel_data == pixel_data@
            &&& final(global_state)@.image_dimensions.width == width
            &&& final(global_state)@.image_dimensions.height == height
            &&& final(global_state)@.path == Seq::<usize>::empty()
            &&& final(global_state)@.steps == old(global_state)@.steps
            &&& final(global_state)@.sleep == old(global_state)@.sleep
            &&& final(global_state)@.run_state == old(global_state)@.run_state
        },
{
    if global_state.run_state() != RunState::Idle {
        return Err(LoadError::Running);
    }
    if width == 0 || height == 0 {
        return Err(LoadError::EmptyImage);
    }
    assert(width * height <= u32::MAX * u32::MAX) by (nonlinear_arith)
        requires
            width <= u32::MAX,
            height <= u32::MAX,
    ;
    let cells: u64 = width as u64 * height as u64;
    if width > i32::MAX as u32 || height > i32::MAX as u32 || cells >= u32::MAX as u64 {
        return Err(LoadError::TooLarge);
    }
    if pixel_data.len() as u64 != cells * 4 {
        return Err(LoadError::SizeMismatch);
    }
    global_state.install_image(pixel_data, width, height);
    Ok(WorkerMessage::LoadPath(LoadPathMessage::new(width, height, PathFn::Gilbert)))
}

/// Asks the running loop to stop. The loop ends after the tick at hand.
pub fn stop(global_state: &mut GlobalState)
    requires
        old(global_state).wf(),
        old(global_state)@.run_state != RunState::Idle,
    ensures
        final(global_state).wf(),
        final(global_state)@.run_state == RunState::StopRequested,
        final(global_state)@.path == old(global_state)@.path,
        final(global_state)@.pixel_data == old(global_state)@.pixel_data,
        final(global_state)@.image_dimensions == old(global_state)@.image_dimensions,
        final(global_state)@.steps == old(global_state)@.steps,
        final(global_state)@.sleep == old(global_state)@.sleep,
{
    global_state.set_run_state(RunState::StopRequested);
}

/// The delays between two ticks, in microseconds, from the slowest speed to the
/// fastest: coarse where the animation is slow, fine where it is fast.
pub const ALL_SLEEPS_PER_LOOP: [u32; 10] =
    [200_000, 175_000, 50_000, 10_000, 2500, 500, 40, 20, 10, 0];

/// The delay between two ticks, in microseconds, at a speed given in percent.
pub fn change_speed(new_speed_percentage: u32) -> (sleep: u64)
    requires
        new_speed_percentage <= 100,
    ensures
        sleep == lerp_spec(ALL_SLEEPS_PER_LOOP@, new_speed_percentage as int),
        sleep <= 200_000,
{
    proof {
        lemma_lerp_bounds(ALL_SLEEPS_PER_LOOP@, new_speed_percentage as int, 0, 200_000);
    }
    lerp(ALL_SLEEPS_PER_LOOP, new_speed_percentage)
}

/// The step scale reaches `m` at `k` fiftieths of the way from its centre to
/// an end: the `k/50`-th power of half the length of the path is `m` less a
/// half, or more. Every scale reaches zero.
pub open spec fn reaches(m: int, path_len: int, k: nat) -> bool {
    m <= 0 || pow(2 * m - 1, 50) * pow(2, k) <= pow(2, 50) * pow(path_len, k)
}

/// `m` is the `k/50`-th power of half the length of the path, rounded to the
/// nearest integer, a half upward.
pub open spec fn is_step_magnitude(m: int, path_len: int, k: nat) -> bool {
    &&& m >= 0
    &&& reaches(m, path_len, k)
    &&& !reaches(m + 1, path_len, k)
}

/// `steps` is the step at a place on the step scale, given in percent, for a
/// path of `path_len` positions: nothing at the centre, backward below it and
/// forward above it, by the magnitude that the scale reaches at that distance
/// from the centre. A path of one position has no step but zero.
pub open spec fn is_step_for(steps: int, percentage: int, path_len: int) -> bool {
    if percentage == 50 || path_len <= 1 {
        steps == 0
    } else if percentage > 50 {
        steps >= 0 && is_step_magnitude(steps, path_len, (percentage - 50) as nat)
    } else {
        steps <= 0 && is_step_magnitude(-steps, path_len, (50 - percentage) as nat)
    }
}

/// A power grows with its base.
pub proof fn lemma_pow_base_increases(a: int, b: int, e: nat)
    requires
        0 <= a <= b,
    ensures
        0 <= pow(a, e) <= pow(b, e),
        a < b && e > 0 ==> pow(a, e) < pow(b, e),
    decreases e,
{
    reveal(pow);
    if e > 0 {
        lemma_pow_base_increases(a, b, (e - 1) as nat);
        let pa = pow(a, (e - 1) as nat);
        let pb = pow(b, (e - 1) as nat);
        assert(0 <= a * pa <= b * pb) by (nonlinear_arith)
            requires
                0 <= a <= b,
                0 <= pa <= pb,
        ;
        if a < b {
            if e == 1 {
                assert(pa == 1 && pb == 1);
            }
            assert(a * pa < b * pb) by (nonlinear_arith)
                requires
                    0 <= a < b,
                    0 <= pa <= pb,
                    pb > 0,
                    e == 1 || pa < pb,
            ;
        }
    }
}

/// What the scale reaches, it reaches for every smaller magnitude.
pub proof fn lemma_reaches_below(m1: int, m2: int, path_len: int, k: nat)
    requires
        m1 <= m2,
        reaches(m2, path_len, k),
    ensures
        reaches(m1, path_len, k),
{
    if m1 >= 1 {
        lemma_pow_base_increases(2 * m1 - 1, 2 * m2 - 1, 50);
        vstd::arithmetic::power::lemma_pow_positive(2, k);
        let t = pow(2, k);
        assert(pow(2 * m1 - 1, 50) * t <= pow(2 * m2 - 1, 50) * t) by (nonlinear_arith)
            requires
                pow(2 * m1 - 1, 50) <= pow(2 * m2 - 1, 50),
                t > 0,
        ;
    }
}

/// The magnitude of a step is determined by the length of the path and the
/// place on the scale.
pub proof fn lemma_step_magnitude_unique(m1: int, m2: int, path_len: int, k: nat)
    requires
        is_step_magnitude(m1, path_len, k),
        is_step_magnitude(m2, path_len, k),
    ensures
        m1 == m2,
{
    if m1 < m2 {
        lemma_reaches_below(m1 + 1, m2, path_len, k);
    } else if m2 < m1 {
        lemma_reaches_below(m2 + 1, m1, path_len, k);
    }
}

/// The step is determined by the place on the scale and the length of the
/// path.
pub proof fn lemma_step_unique(s1: int, s2: int, percentage: int, path_len: int)
    requires
        is_step_for(s1, percentage, path_len),
        is_step_for(s2, percentage, path_len),
    ensures
        s1 == s2,
{
    if percentage == 50 || path_len <= 1 {
    } else if percentage > 50 {
        lemma_step_magnitude_unique(s1, s2, path_len, (percentage - 50) as nat);
    } else {
        lemma_step_magnitude_unique(-s1, -s2, path_len, (50 - percentage) as nat);
    }
}

/// The scale never reaches a magnitude that lies more than a half beyond half
/// the length of the path, and before its end not one that lies a half beyond
/// it.
pub proof fn lemma_beyond_half(m: int, path_len: int, k: nat)
    requires
        1 <= k <= 50,
        m >= 2,
        0 <= path_len <= 2 * m - 1,
        path_len < 2 * m - 1 || k < 50,
    ensures
        !reaches(m, path_len, k),
{
    let a = 2 * m - 1;
    let rest = (50 - k) as nat;
    lemma_pow_base_increases(path_len, a, k);
    lemma_pow_base_increases(2, a, rest);
    vstd::arithmetic::power::lemma_pow_adds(a, k, rest);
    vstd::arithmetic::power::lemma_pow_adds(2, k, rest);
    vstd::arithmetic::power::lemma_pow_positive(2, k);
    vstd::arithmetic::power::lemma_pow_positive(2, rest);
    vstd::arithmetic::power::lemma_pow_positive(a, k);
    if rest == 0 {
        vstd::arithmetic::power::lemma_pow0(a);
        vstd::arithmetic::power::lemma_pow0(2);
    }
    let ak = pow(a, k);
    let ar = pow(a, rest);
    let lk = pow(path_len, k);
    let tk = pow(2, k);
    let tr = pow(2, rest);
    assert((ak * ar) * tk > (tk * tr) * lk) by (nonlinear_arith)
        requires
            ak > 0,
            0 <= lk <= ak,
            0 < tr <= ar,
            tk > 0,
            lk < ak || tr < ar,
    ;
}

/// Every scale of a path that is not empty reaches one: away from the centre
/// no step of a path of two positions or more is zero.
pub proof fn lemma_reaches_one(path_len: int, k: nat)
    requires
        path_len >= 1,
        k <= 50,
    ensures
        reaches(1, path_len, k),
{
    vstd::arithmetic::power::lemma1_pow(50);
    vstd::arithmetic::power::lemma1_pow(k);
    lemma_pow_base_increases(1, path_len, k);
    lemma_pow_base_increases(1, 2, (50 - k) as nat);
    vstd::arithmetic::power::lemma1_pow((50 - k) as nat);
    vstd::arithmetic::power::lemma_pow_adds(2, k, (50 - k) as nat);
    vstd::arithmetic::power::lemma_pow_positive(2, k);
    let tk = pow(2, k);
    let tr = pow(2, (50 - k) as nat);
    let lk = pow(path_len, k);
    assert(1 * tk <= (tk * tr) * lk) by (nonlinear_arith)
        requires
            tk > 0,
            tr >= 1,
            lk >= 1,
    ;
}

/// The greatest magnitude that the scale reaches at `k` fiftieths.
fn step_magnitude(path_len: u32, k: u32) -> (m: u32)
    requires
        1 <= k <= 50,
        path_len >= 2,
    ensures
        is_step_magnitude(m as int, path_len as int, k as nat),
        m >= 1,
        2 * m <= path_len + 1,
        k < 50 ==> 2 * m <= path_len,
{
    let target = BigNat::one().times_power(path_len, k).times_power(2, 50);
    let mut low: u32 = 0;
    let mut high: u32 = path_len / 2 + path_len % 2;
    proof {
        assert(1 * pow(path_len as int, k as nat) * pow(2, 50) == pow(2, 50) * pow(
            path_len as int,
            k as nat,
        )) by (nonlinear_arith);
        lemma_beyond_half(high + 1, path_len as int, k as nat);
    }
    while low < high
        invariant
            1 <= k <= 50,
            low <= high,
            2 * high <= path_len + 1,
            target@ == pow(2, 50) * pow(path_len as int, k as nat),
            reaches(low as int, path_len as int, k as nat),
            !reaches(high + 1, path_len as int, k as nat),
        decreases high - low,
    {
        let middle: u32 = low + (high - low + 1) / 2;
        let odd: u32 = (2 * (middle as u64) - 1) as u32;
        let reached = BigNat::one().times_power(odd, 50).times_power(2, k);
        proof {
            assert(1 * pow(odd as int, 50) * pow(2, k as nat) == pow(2 * middle - 1, 50) * pow(
                2,
                k as nat,
            )) by (nonlinear_arith)
                requires
                    odd == 2 * middle - 1,
            ;
        }
        if reached.le(&target) {
            low = middle;
        } else {
            high = middle - 1;
        }
    }
    proof {
        if k < 50 && 2 * low > path_len {
            lemma_beyond_half(low as int, path_len as int, k as nat);
        }
        lemma_reaches_one(path_len as int, k as nat);
    }
    low
}

/// The signed step of a tick at a place on the step scale, given in percent.
/// The centre of the scale is no step at all. From there the magnitude grows
/// toward either end like a power of half the length of the path, rounded to
/// the nearest integer, up to that half at the end itself; the lower half of
/// the scale steps backward. On a path of one position every place of the
/// scale is no step. The longest path that a `u32` counts has no forward step
/// at the end of the scale: that step is one more than an `i32` holds.
pub fn change_step(new_step_percentage: u32, path_len: u32) -> (steps: i32)
    requires
        new_step_percentage <= 100,
        path_len < u32::MAX || new_step_percentage < 100,
    ensures
        is_step_for(steps as int, new_step_percentage as int, path_len as int),
        2 * magnitude(steps as int) <= path_len + 1,
        path_len >= 1 ==> magnitude(steps as int) < path_len,
        path_len >= 2 ==> (steps > 0 <==> new_step_percentage > 50),
        path_len >= 2 ==> (steps < 0 <==> new_step_percentage < 50),
        path_len >= 2 ==> (steps == 0 <==> new_step_percentage == 50),
{
    if new_step_percentage == 50 || path_len <= 1 {
        return 0;
    }
    if new_step_percentage > 50 {
        step_magnitude(path_len, new_step_percentage - 50) as i32
    } else {
        let length: i64 = step_magnitude(path_len, 50 - new_step_percentage) as i64;
        (-length) as i32
    }
}

} // verus!
