//! The worker's side of the animation: it builds the path through the image
//! and, tick by tick, rotates the colors of the pixels along it.

use vstd::prelude::*;
use vstd::arithmetic::div_mod::{lemma_fundamental_div_mod, lemma_fundamental_div_mod_converse};
use crate::gilbert::Cell;
use crate::handlers::MainMessage;
use crate::paths::{
    collapse, gilbert_d2xy, lemma_collapse_ends, lemma_pixel_offset_in_grid,
    lemma_pixel_offset_valid, lemma_raw_path, lemma_row_in_grid, pixel_offset, raw_path, shift,
    PathFn,
};
use crate::renderer::{ImageDimensions, Point};
use crate::rotation::{
    colors, lemma_rotated_full, lemma_rotated_unique, lemma_rotation_around, lemma_same_elsewhere_chain,
    lemma_swap_colors, lemma_three_reversals, magnitude, offsets_distinct, offsets_valid,
    part_reversed, reversed, rotated, rotation, same_elsewhere, swap_at, swapped_pixel,
};

verus! {

/// The request to build the path through an image of the given size.
#[derive(Clone, Copy, Debug, PartialEq, Eq, Structural)]
pub struct LoadPathMessage {
    pub width: u32,
    pub height: u32,
    pub path_fn: PathFn,
}

impl LoadPathMessage {
    pub fn new(width: u32, height: u32, path_fn: PathFn) -> (message: Self)
        ensures
            message.width == width,
            message.height == height,
            message.path_fn == path_fn,
    {
        Self { width, height, path_fn }
    }

    /// The image is not empty, its coordinates fit the path functions, and its
    /// buffer of four bytes per pixel can be addressed.
    pub open spec fn fits(self) -> bool {
        &&& 1 <= self.width <= i32::MAX
        &&& 1 <= self.height <= i32::MAX
        &&& self.path_fn == PathFn::Shift ==> self.width + self.height - 2 <= i32::MAX
        &&& self.width * self.height <= u32::MAX
        &&& self.width * self.height * 4 <= usize::MAX
    }
}

/// The remainder of `v` by `m` that is not negative.
fn rem_euclid(v: i32, m: u32) -> (r: u32)
    requires
        1 <= m <= i32::MAX,
    ensures
        r == (v as int) % (m as int),
        r < m,
{
    if v >= 0 {
        (v as u32) % m
    } else {
        let k: u32 = (-(v + 1)) as u32;
        let r: u32 = m - 1 - k % m;
        proof {
            lemma_fundamental_div_mod(k as int, m as int);
            let q = (k as int) / (m as int);
            assert(v == (-q - 1) * m + r) by (nonlinear_arith)
                requires
                    k == m * q + (k % m),
                    r == m - 1 - k % m,
                    v == -(k + 1),
            ;
            lemma_fundamental_div_mod_converse(v as int, m as int, -q - 1, r as int);
        }
        r
    }
}

/// The byte offset of the pixel at `point`, wrapped into the image.
fn pixel_offset_of(point: Point, width: u32, height: u32) -> (offset: usize)
    requires
        1 <= width <= i32::MAX,
        1 <= height <= i32::MAX,
        width * height * 4 <= usize::MAX,
    ensures
        offset == pixel_offset(point@, width as int, height as int),
        offset % 4 == 0,
        offset + 4 <= width * height * 4,
{
    proof {
        lemma_pixel_offset_valid(point@, width as int, height as int);
    }
    let x: u32 = rem_euclid(point.0, width);
    let y: u32 = rem_euclid(point.1, height);
    proof {
        lemma_pixel_offset_in_grid(Cell { x: x as int, y: y as int }, width as int, height as int);
        assert(y * width >= 0 && y * width + x < width * height) by (nonlinear_arith)
            requires
                0 <= x < width,
                0 <= y < height,
        ;
    }
    (y as usize * width as usize + x as usize) * 4
}

/// Builds the path through an image: the offset of the pixel that the
/// traversal visits at each position, without an offset that repeats its
/// predecessor.
pub fn build_path(load_path_message: &LoadPathMessage) -> (path: Vec<usize>)
    requires
        load_path_message.fits(),
    ensures
        path@ == collapse(
            raw_path(
                load_path_message.path_fn,
                load_path_message.width as int,
                load_path_message.height as int,
            ),
        ),
        path@ == raw_path(
            load_path_message.path_fn,
            load_path_message.width as int,
            load_path_message.height as int,
        ),
        path.len() == load_path_message.width * load_path_message.height,
        offsets_valid(path@, load_path_message.width * load_path_message.height * 4),
        offsets_distinct(path@),
{
    let width = load_path_message.width;
    let height = load_path_message.height;
    let ghost raw = raw_path(load_path_message.path_fn, width as int, height as int);
    proof {
        lemma_raw_path(load_path_message.path_fn, width as int, height as int);
    }
    let cells: u32 = width * height;
    let mut path: Vec<usize> = Vec::new();
    let mut idx: u32 = 0;
    while idx < cells
        invariant
            load_path_message.fits(),
            width == load_path_message.width,
            height == load_path_message.height,
            cells == width * height,
            raw == raw_path(load_path_message.path_fn, width as int, height as int),
            raw.len() == cells,
            idx <= cells,
            path@ == collapse(raw.take(idx as int)),
        decreases cells - idx,
    {
        let point = match load_path_message.path_fn {
            PathFn::Gilbert => gilbert_d2xy(idx, width, height),
            PathFn::Shift => {
                proof {
                    lemma_row_in_grid(idx as int, width as int, height as int);
                }
                shift(idx, width, height)
            },
        };
        let offset = pixel_offset_of(point, width, height);
        proof {
            let before = raw.take(idx as int);
            let after = raw.take(idx + 1);
            assert(after.drop_last() =~= before);
            assert(after.last() == offset);
            if idx > 0 {
                lemma_collapse_ends(before);
                assert(after[after.len() - 2] == before.last());
            }
        }
        if path.len() == 0 || path[path.len() - 1] != offset {
            path.push(offset);
        }
        idx += 1;
    }
    proof {
        assert(raw.take(cells as int) =~= raw);
    }
    path
}

/// Why a tick was refused.
#[derive(Clone, Copy, Debug, PartialEq, Eq, Structural)]
pub enum StepError {
    /// The animation is running: its loop does the ticks.
    Running,
    /// The path is empty: no image was loaded.
    NoPath,
    /// The step is as long as the path, or longer.
    StepTooLarge,
}

/// Exchanges the three color channels of the pixels at two offsets. The alpha
/// channels stay.
pub fn swap_pixel(first_pixel: usize, second_pixel: usize, pixel_data: &mut Vec<u8>)
    requires
        first_pixel + 3 <= old(pixel_data).len(),
        second_pixel + 3 <= old(pixel_data).len(),
    ensures
        final(pixel_data)@ == swapped_pixel(
            old(pixel_data)@,
            first_pixel as int,
            second_pixel as int,
        ),
        final(pixel_data).len() == old(pixel_data).len(),
{
    let mut channel: usize = 0;
    while channel < 3
        invariant
            channel <= 3,
            first_pixel + 3 <= pixel_data.len(),
            second_pixel + 3 <= pixel_data.len(),
            pixel_data.len() == old(pixel_data).len(),
            channel == 0 ==> pixel_data@ == old(pixel_data)@,
            channel == 1 ==> pixel_data@ == swap_at(
                old(pixel_data)@,
                first_pixel as int,
                second_pixel as int,
            ),
            channel == 2 ==> pixel_data@ == swap_at(
                swap_at(old(pixel_data)@, first_pixel as int, second_pixel as int),
                first_pixel + 1,
                second_pixel + 1,
            ),
            channel == 3 ==> pixel_data@ == swapped_pixel(
                old(pixel_data)@,
                first_pixel as int,
                second_pixel as int,
            ),
        decreases 3 - channel,
    {
        let first = pixel_data[first_pixel + channel];
        let second = pixel_data[second_pixel + channel];
        pixel_data[first_pixel + channel] = second;
        pixel_data[second_pixel + channel] = first;
        channel += 1;
    }
}

/// Whether a tick by `steps` along a path of `path_len` positions is accepted.
pub open spec fn tick_outcome(path_len: int, steps: int) -> Result<(), StepError> {
    if path_len == 0 {
        Err(StepError::NoPath)
    } else if magnitude(steps) >= path_len {
        Err(StepError::StepTooLarge)
    } else {
        Ok(())
    }
}

/// Turns the colors of the pixels at the positions `from .. to` of the path
/// into the opposite order.
fn reverse_colors(path: &Vec<usize>, pixel_data: &mut Vec<u8>, from: usize, to: usize)
    requires
        offsets_valid(path@, old(pixel_data).len() as int),
        offsets_distinct(path@),
        from <= to <= path.len(),
    ensures
        final(pixel_data).len() == old(pixel_data).len(),
        colors(path@, final(pixel_data)@) == reversed(
            colors(path@, old(pixel_data)@),
            from as int,
            to as int,
        ),
        same_elsewhere(path@, old(pixel_data)@, final(pixel_data)@),
{
    let ghost before = colors(path@, pixel_data@);
    let mut low: usize = from;
    let mut high: usize = to;
    proof {
        assert(before =~= part_reversed(before, from as int, to as int, 0));
    }
    while high - low > 1
        invariant
            from <= low <= high <= to <= path.len(),
            low - from == to - high,
            pixel_data.len() == old(pixel_data).len(),
            offsets_valid(path@, pixel_data.len() as int),
            offsets_distinct(path@),
            before == colors(path@, old(pixel_data)@),
            colors(path@, pixel_data@) == part_reversed(
                before,
                from as int,
                to as int,
                low - from,
            ),
            same_elsewhere(path@, old(pixel_data)@, pixel_data@),
        decreases high - low,
    {
        high -= 1;
        let ghost earlier = pixel_data@;
        proof {
            lemma_swap_colors(path@, pixel_data@, low as int, high as int);
        }
        swap_pixel(path[low], path[high], pixel_data);
        low += 1;
        proof {
            lemma_same_elsewhere_chain(path@, old(pixel_data)@, earlier, pixel_data@);
            assert(colors(path@, pixel_data@) =~= part_reversed(
                before,
                from as int,
                to as int,
                low - from,
            ));
        }
    }
    proof {
        assert(part_reversed(before, from as int, to as int, low - from) =~= reversed(
            before,
            from as int,
            to as int,
        ));
    }
}

/// One tick: rotates the colors of the pixels along `path` by `steps`
/// positions. After a tick by a positive step the pixel at each position has
/// the color that stood `steps` positions behind it, counted around the end
/// of the path; a negative step takes the colors from ahead. The alpha
/// channels, and the pixels that the path leaves out, stay as they are. A
/// step that is not shorter than the path is refused, and the buffer stays as
/// it is.
pub fn rotate_tick(path: &Vec<usize>, pixel_data: &mut Vec<u8>, steps: i32) -> (result: Result<
    (),
    StepError,
>)
    requires
        offsets_valid(path@, old(pixel_data).len() as int),
        offsets_distinct(path@),
    ensures
        final(pixel_data).len() == old(pixel_data).len(),
        result == tick_outcome(path.len() as int, steps as int),
        result is Ok ==> colors(path@, final(pixel_data)@) == rotation(
            colors(path@, old(pixel_data)@),
            -(steps as int),
        ),
        result is Ok ==> same_elsewhere(path@, old(pixel_data)@, final(pixel_data)@),
        result is Ok ==> final(pixel_data)@ == rotated(path@, old(pixel_data)@, steps as int),
        result is Err ==> *final(pixel_data) == *old(pixel_data),
        steps == 0 ==> final(pixel_data)@ == old(pixel_data)@,
{
    proof {
        lemma_rotated_full(path@, pixel_data@, 0);
    }
    let path_len = path.len();
    if path_len == 0 {
        return Err(StepError::NoPath);
    }
    let wide: i64 = steps as i64;
    let length: u64 = if wide >= 0 {
        wide as u64
    } else {
        (-wide) as u64
    };
    if length >= path_len as u64 {
        return Err(StepError::StepTooLarge);
    }
    // the colors move on by `shift` places, around the end of the path
    let shift: usize = if steps >= 0 {
        length as usize
    } else {
        path_len - length as usize
    };
    let ghost before = colors(path@, pixel_data@);
    reverse_colors(path, pixel_data, 0, path_len);
    let ghost first = pixel_data@;
    reverse_colors(path, pixel_data, 0, shift);
    let ghost second = pixel_data@;
    reverse_colors(path, pixel_data, shift, path_len);
    proof {
        lemma_same_elsewhere_chain(path@, old(pixel_data)@, first, second);
        lemma_same_elsewhere_chain(path@, old(pixel_data)@, second, pixel_data@);
        lemma_three_reversals(before, shift as int);
        if steps < 0 {
            lemma_rotation_around(before, -(steps as int), -1);
            assert(-(steps as int) + (-1) * path_len == -(shift as int));
        }
        lemma_rotated_unique(path@, old(pixel_data)@, pixel_data@, steps as int);
    }
    Ok(())
}

/// Whether the animation runs.
#[derive(Clone, Copy, Debug, PartialEq, Eq, Structural)]
pub enum RunState {
    /// No loop runs: single ticks and a new image are accepted.
    Idle,
    /// The loop runs.
    Running,
    /// The loop runs and was asked to stop: it ends after the tick at hand.
    StopRequested,
}

/// Why an image or its path was refused.
#[derive(Clone, Copy, Debug, PartialEq, Eq, Structural)]
pub enum LoadError {
    /// The animation is running.
    Running,
    /// The image has no pixels.
    EmptyImage,
    /// The image has longer sides than a coordinate holds, or so many pixels
    /// that the longest step along its path is more than a step holds.
    TooLarge,
    /// The buffer does not hold four bytes for each pixel, or the path is asked
    /// for another size than the image has.
    SizeMismatch,
}

/// One animation session: the image, the path through it, the parameters of
/// the animation, and whether it runs. The session keeps itself consistent:
/// its parts are read through its methods and change only as the functions of
/// this library change them.
pub struct GlobalState {
    path: Vec<usize>,
    pixel_data: Vec<u8>,
    image_dimensions: ImageDimensions,
    steps: i32,
    sleep: u64,
    run_state: RunState,
}

/// What a session holds.
pub struct GlobalStateView {
    /// The offsets of the pixels along the path; empty until a path is loaded.
    pub path: Seq<usize>,
    /// The pixels, four bytes each: red, green, blue, alpha.
    pub pixel_data: Seq<u8>,
    pub image_dimensions: ImageDimensions,
    /// The step of a tick: how many positions along the path a tick moves the
    /// colors on. A negative step moves them back.
    pub steps: i32,
    /// The delay between two ticks of the loop, in microseconds.
    pub sleep: u64,
    pub run_state: RunState,
}

impl View for GlobalState {
    type V = GlobalStateView;

    closed spec fn view(&self) -> GlobalStateView {
        GlobalStateView {
            path: self.path@,
            pixel_data: self.pixel_data@,
            image_dimensions: self.image_dimensions,
            steps: self.steps,
            sleep: self.sleep,
            run_state: self.run_state,
        }
    }
}

impl GlobalState {
    /// The buffer holds the image, the image is one that a path can be built
    /// for, the path leads through the buffer's pixels, each at most once, and
    /// nothing runs without a path.
    pub open spec fn wf(&self) -> bool {
        &&& self@.pixel_data.len() == self@.image_dimensions.width
            * self@.image_dimensions.height * 4
        &&& self@.image_dimensions.width <= i32::MAX
        &&& self@.image_dimensions.height <= i32::MAX
        &&& self@.image_dimensions.width * self@.image_dimensions.height < u32::MAX
        &&& self@.path.len() <= self@.image_dimensions.width * self@.image_dimensions.height
        &&& offsets_valid(self@.path, self@.pixel_data.len() as int)
        &&& offsets_distinct(self@.path)
        &&& self@.path.len() == 0 ==> self@.run_state == RunState::Idle
    }

    /// A session without an image: a step of one position, no delay, idle.
    pub fn new() -> (global_state: Self)
        ensures
            global_state.wf(),
            global_state@.path == Seq::<usize>::empty(),
            global_state@.pixel_data == Seq::<u8>::empty(),
            global_state@.image_dimensions.width == 0,
            global_state@.image_dimensions.height == 0,
            global_state@.steps == 1,
            global_state@.sleep == 0,
            global_state@.run_state == RunState::Idle,
    {
        assert(0 * 0 * 4 == 0);
        GlobalState {
            path: Vec::new(),
            pixel_data: Vec::new(),
            image_dimensions: ImageDimensions { width: 0, height: 0 },
            steps: 1,
            sleep: 0,
            run_state: RunState::Idle,
        }
    }

    /// The offsets of the pixels along the path.
    pub fn path(&self) -> (path: &Vec<usize>)
        ensures
            path@ == self@.path,
    {
        &self.path
    }

    /// The pixels of the image.
    pub fn pixel_data(&self) -> (pixel_data: &Vec<u8>)
        ensures
            pixel_data@ == self@.pixel_data,
    {
        &self.pixel_data
    }

    /// The width and height of the image.
    pub fn image_dimensions(&self) -> (image_dimensions: ImageDimensions)
        ensures
            image_dimensions == self@.image_dimensions,
    {
        self.image_dimensions
    }

    /// The step of a tick.
    pub fn steps(&self) -> (steps: i32)
        ensures
            steps == self@.steps,
    {
        self.steps
    }

    /// The delay between two ticks of the loop, in microseconds.
    pub fn sleep(&self) -> (sleep: u64)
        ensures
            sleep == self@.sleep,
    {
        self.sleep
    }

    /// Whether the animation runs.
    pub fn run_state(&self) -> (run_state: RunState)
        ensures
            run_state == self@.run_state,
    {
        self.run_state
    }

    /// The length of the loaded path, if there is one.
    pub fn path_len(&self) -> (path_len: Option<u32>)
        requires
            self.wf(),
        ensures
            self@.path.len() == 0 <==> path_len is None,
            path_len is Some ==> path_len->0 == self@.path.len(),
    {
        if self.path.len() == 0 {
            None
        } else {
            Some(self.path.len() as u32)
        }
    }

    /// Sets the step of the ticks to come. Any step may be set: a tick refuses
    /// the one that is not shorter than the path.
    pub fn set_steps(&mut self, steps: i32)
        requires
            old(self).wf(),
        ensures
            final(self).wf(),
            final(self)@ == (GlobalStateView { steps, ..old(self)@ }),
    {
        self.steps = steps;
    }

    /// Sets the delay between the ticks to come.
    pub fn set_sleep(&mut self, sleep: u64)
        requires
            old(self).wf(),
        ensures
            final(self).wf(),
            final(self)@ == (GlobalStateView { sleep, ..old(self)@ }),
    {
        self.sleep = sleep;
    }

    /// Moves the session to another state. Without a path it stays idle.
    pub(crate) fn set_run_state(&mut self, run_state: RunState)
        requires
            old(self).wf(),
            old(self)@.path.len() > 0 || run_state == RunState::Idle,
        ensures
            final(self).wf(),
            final(self)@ == (GlobalStateView { run_state, ..old(self)@ }),
    {
        self.run_state = run_state;
    }

    /// Installs the pixels and the size of a new image in an idle session, and
    /// drops the path of the old one.
    pub(crate) fn install_image(&mut self, pixel_data: Vec<u8>, width: u32, height: u32)
        requires
            old(self).wf(),
            old(self)@.run_state == RunState::Idle,
            width <= i32::MAX,
            height <= i32::MAX,
            width * height < u32::MAX,
            pixel_data.len() == width * height * 4,
        ensures
            final(self).wf(),
            final(self)@ == (GlobalStateView {
                path: Seq::<usize>::empty(),
                pixel_data: pixel_data@,
                image_dimensions: ImageDimensions { width, height },
                ..old(self)@
            }),
    {
        self.pixel_data = pixel_data;
        self.image_dimensions = ImageDimensions { width, height };
        self.path = Vec::new();
    }
}

/// Builds the path that the message asks for and installs it in the session:
/// the offset of every pixel of the image, each exactly once, in the order of
/// the traversal. The result is the length of the path.
/// The path is refused, and the session stays as it is, while the animation
/// runs, and where the message gives another size than the loaded image has.
pub fn load_path(load_path_message: LoadPathMessage, global_state: &mut GlobalState) -> (result:
    Result<u32, LoadError>)
    requires
        old(global_state).wf(),
    ensures
        final(global_state).wf(),
        result == load_path_outcome(load_path_message, *old(global_state)),
        result is Err ==> *final(global_state) == *old(global_state),
        result is Ok ==> {
            &&& final(global_state)@.path == raw_path(
                load_path_message.path_fn,
                load_path_message.width as int,
                load_path_message.height as int,
            )
            &&& final(global_state)@.path.len() == load_path_message.width
                * load_path_message.height
            &&& result == Ok::<u32, LoadError>(final(global_state)@.path.len() as u32)
            &&& offsets_valid(
                final(global_state)@.path,
                load_path_message.width * load_path_message.height * 4,
            )
            &&& offsets_distinct(final(global_state)@.path)
            &&& final(global_state)@.pixel_data == old(global_state)@.pixel_data
            &&& final(global_state)@.image_dimensions == old(global_state)@.image_dimensions
            &&& final(global_state)@.steps == old(global_state)@.steps
            &&& final(global_state)@.sleep == old(global_state)@.sleep
            &&& final(global_state)@.run_state == old(global_state)@.run_state
        },
{
    if global_state.run_state != RunState::Idle {
        return Err(LoadError::Running);
    }
    if load_path_message.width == 0 || load_path_message.height == 0 {
        return Err(LoadError::EmptyImage);
    }
    if load_path_message.width != global_state.image_dimensions.width || load_path_message.height
        != global_state.image_dimensions.height {
        return Err(LoadError::SizeMismatch);
    }
    if load_path_message.path_fn == PathFn::Shift && load_path_message.width as u64
        + load_path_message.height as u64 - 2 > i32::MAX as u64 {
        return Err(LoadError::TooLarge);
    }
    assert(global_state@.pixel_data.len() == global_state.pixel_data.len());
    let path = build_path(&load_path_message);
    let path_len = path.len() as u32;
    global_state.path = path;
    Ok(path_len)
}

/// Whether a path is accepted, and its length.
pub open spec fn load_path_outcome(message: LoadPathMessage, global_state: GlobalState) -> Result<
    u32,
    LoadError,
> {
    if global_state@.run_state != RunState::Idle {
        Err(LoadError::Running)
    } else if message.width == 0 || message.height == 0 {
        Err(LoadError::EmptyImage)
    } else if message.width != global_state@.image_dimensions.width || message.height
        != global_state@.image_dimensions.height {
        Err(LoadError::SizeMismatch)
    } else if message.path_fn == PathFn::Shift && message.width + message.height - 2
        > i32::MAX {
        Err(LoadError::TooLarge)
    } else {
        Ok((message.width * message.height) as u32)
    }
}

/// Whether a single tick is accepted.
pub open spec fn step_outcome(global_state: GlobalState) -> Result<(), StepError> {
    if global_state@.run_state != RunState::Idle {
        Err(StepError::Running)
    } else {
        tick_outcome(global_state@.path.len() as int, global_state@.steps as int)
    }
}

/// A single tick of an idle session, by the session's step. It is refused, and
/// the session stays as it is, while the animation runs, without a path, and
/// for a step that is not shorter than the path.
pub fn step(global_state: &mut GlobalState) -> (result: Result<(), StepError>)
    requires
        old(global_state).wf(),
    ensures
        final(global_state).wf(),
        result == step_outcome(*old(global_state)),
        result is Err ==> *final(global_state) == *old(global_state),
        result is Ok ==> final(global_state)@.pixel_data == rotated(
            old(global_state)@.path,
            old(global_state)@.pixel_data,
            old(global_state)@.steps as int,
        ),
        final(global_state)@.path == old(global_state)@.path,
        final(global_state)@.image_dimensions == old(global_state)@.image_dimensions,
        final(global_state)@.steps == old(global_state)@.steps,
        final(global_state)@.sleep == old(global_state)@.sleep,
        final(global_state)@.run_state == old(global_state)@.run_state,
{
    if global_state.run_state != RunState::Idle {
        return Err(StepError::Running);
    }
    rotate_tick(&global_state.path, &mut global_state.pixel_data, global_state.steps)
}

/// One turn of the running loop: a tick by the session's step, and the delay
/// to wait before [`loop_stopped`] is asked. Without a loop to run there is no
/// tick and no delay. A step that is not shorter than the path leaves the
/// buffer as it is.
pub fn run_tick(global_state: &mut GlobalState) -> (sleep: Option<u64>)
    requires
        old(global_state).wf(),
    ensures
        final(global_state).wf(),
        old(global_state)@.run_state == RunState::Idle <==> sleep is None,
        sleep is Some ==> sleep->0 == old(global_state)@.sleep,
        final(global_state)@.pixel_data == if old(global_state)@.run_state != RunState::Idle
            && magnitude(old(global_state)@.steps as int) < old(global_state)@.path.len() {
            rotated(
                old(global_state)@.path,
                old(global_state)@.pixel_data,
                old(global_state)@.steps as int,
            )
        } else {
            old(global_state)@.pixel_data
        },
        final(global_state)@.path == old(global_state)@.path,
        final(global_state)@.image_dimensions == old(global_state)@.image_dimensions,
        final(global_state)@.steps == old(global_state)@.steps,
        final(global_state)@.sleep == old(global_state)@.sleep,
        final(global_state)@.run_state == old(global_state)@.run_state,
{
    if global_state.run_state == RunState::Idle {
        return None;
    }
    let _ = rotate_tick(&global_state.path, &mut global_state.pixel_data, global_state.steps);
    Some(global_state.sleep)
}

/// The loop's question after each turn: whether it has to end. A loop that was
/// asked to stop ends here, and the session is idle again.
pub fn loop_stopped(global_state: &mut GlobalState) -> (stopped: bool)
    requires
        old(global_state).wf(),
    ensures
        final(global_state).wf(),
        stopped == (old(global_state)@.run_state != RunState::Running),
        final(global_state)@.run_state == if stopped {
            RunState::Idle
        } else {
            RunState::Running
        },
        final(global_state)@.path == old(global_state)@.path,
        final(global_state)@.pixel_data == old(global_state)@.pixel_data,
        final(global_state)@.image_dimensions == old(global_state)@.image_dimensions,
        final(global_state)@.steps == old(global_state)@.steps,
        final(global_state)@.sleep == old(global_state)@.sleep,
{
    if global_state.run_state == RunState::Running {
        false
    } else {
        global_state.run_state = RunState::Idle;
        true
    }
}

/// What the page asks of the worker.
#[derive(Clone, Copy, Debug, PartialEq, Eq, Structural)]
pub enum WorkerMessage {
    Start,
    Step,
    LoadPath(LoadPathMessage),
}

/// What the worker does after a message.
#[derive(Clone, Copy, Debug, PartialEq, Eq, Structural)]
pub enum WorkerAction {
    /// Run the loop: [`run_tick`], the delay, [`loop_stopped`], until that
    /// says yes; then report [`MainMessage::Stopped`].
    RunLoop,
    /// Report to the page.
    Reply(MainMessage),
    /// The message was refused, and the session is as it was.
    Nothing,
}

impl WorkerMessage {
    /// Handles a message of the page: a started session gets its loop, an idle
    /// one its single tick or its path.
    pub fn process(self, global_state: &mut GlobalState) -> (action: WorkerAction)
        requires
            old(global_state).wf(),
        ensures
            final(global_state).wf(),
            action == process_outcome(self, *old(global_state)),
            self is Start ==> *final(global_state) == *old(global_state),
            action == WorkerAction::Nothing ==> *final(global_state) == *old(global_state),
            self is Step && action != WorkerAction::Nothing ==> {
                &&& final(global_state)@.pixel_data == rotated(
                    old(global_state)@.path,
                    old(global_state)@.pixel_data,
                    old(global_state)@.steps as int,
                )
                &&& final(global_state)@.path == old(global_state)@.path
            },
            self is LoadPath && action != WorkerAction::Nothing ==> {
                &&& final(global_state)@.path == raw_path(
                    self->LoadPath_0.path_fn,
                    self->LoadPath_0.width as int,
                    self->LoadPath_0.height as int,
                )
                &&& final(global_state)@.pixel_data == old(global_state)@.pixel_data
            },
            final(global_state)@.image_dimensions == old(global_state)@.image_dimensions,
            final(global_state)@.steps == old(global_state)@.steps,
            final(global_state)@.sleep == old(global_state)@.sleep,
            final(global_state)@.run_state == old(global_state)@.run_state,
    {
        match self {
            WorkerMessage::Start => {
                if global_state.run_state == RunState::Idle {
                    WorkerAction::Nothing
                } else {
                    WorkerAction::RunLoop
                }
            },
            WorkerMessage::Step => {
                match step(global_state) {
                    Ok(()) => WorkerAction::Reply(MainMessage::Stepped),
                    Err(_) => WorkerAction::Nothing,
                }
            },
            WorkerMessage::LoadPath(load_path_message) => {
                match load_path(load_path_message, global_state) {
                    Ok(path_len) => WorkerAction::Reply(MainMessage::LoadedPath { path_len }),
                    Err(_) => WorkerAction::Nothing,
                }
            },
        }
    }
}

/// What the worker does after a message, by the session that the message
/// meets.
pub open spec fn process_outcome(message: WorkerMessage, global_state: GlobalState) -> WorkerAction {
    match message {
        WorkerMessage::Start => if global_state@.run_state == RunState::Idle {
            WorkerAction::Nothing
        } else {
            WorkerAction::RunLoop
        },
        WorkerMessage::Step => if step_outcome(global_state) is Ok {
            WorkerAction::Reply(MainMessage::Stepped)
        } else {
            WorkerAction::Nothing
        },
        WorkerMessage::LoadPath(load_path_message) => match load_path_outcome(
            load_path_message,
            global_state,
        ) {
            Ok(path_len) => WorkerAction::Reply(MainMessage::LoadedPath { path_len }),
            Err(_) => WorkerAction::Nothing,
        },
    }
}

} // verus!
