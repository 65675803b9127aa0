//! What one tick of the animation does to the pixel buffer: it rotates the
//! colors of the pixels along the path, and leaves every other byte alone.
//!
//! [`rotated`] is the buffer after a tick. The lemmas say what it holds, that
//! nothing else can come of a tick, and what ticks do one after another.

use vstd::prelude::*;

verus! {

/// The length of a step, whatever its direction.
pub open spec fn magnitude(steps: int) -> int {
    if steps < 0 {
        -steps
    } else {
        steps
    }
}

/// A sequence with the elements at `i` and `j` exchanged.
pub open spec fn swap_at<T>(s: Seq<T>, i: int, j: int) -> Seq<T> {
    s.update(i, s[j]).update(j, s[i])
}

/// A buffer with the three color channels of the pixels at the offsets `first`
/// and `second` exchanged, channel by channel.
pub open spec fn swapped_pixel(buf: Seq<u8>, first: int, second: int) -> Seq<u8> {
    swap_at(swap_at(swap_at(buf, first, second), first + 1, second + 1), first + 2, second + 2)
}

/// Every offset is the start of a pixel of a buffer of `len` bytes.
pub open spec fn offsets_valid(path: Seq<usize>, len: int) -> bool {
    forall|i: int| 0 <= i < path.len() ==> #[trigger] path[i] % 4 == 0 && path[i] + 4 <= len
}

/// No offset occurs twice.
pub open spec fn offsets_distinct(path: Seq<usize>) -> bool {
    forall|i: int, j: int| 0 <= i < j < path.len() ==> path[i] != path[j]
}

/// The color of the pixel at an offset: its red, green and blue channels.
pub open spec fn color_at(buf: Seq<u8>, offset: int) -> (u8, u8, u8) {
    (buf[offset], buf[offset + 1], buf[offset + 2])
}

/// The colors of the pixels along a path, in the order of the path.
pub open spec fn colors(path: Seq<usize>, buf: Seq<u8>) -> Seq<(u8, u8, u8)> {
    Seq::new(path.len(), |i: int| color_at(buf, path[i] as int))
}

/// The byte at `k` is a color channel of a pixel of the path.
pub open spec fn covered(path: Seq<usize>, k: int) -> bool {
    exists|i: int| 0 <= i < path.len() && #[trigger] path[i] <= k < path[i] + 3
}

/// Two buffers agree in every byte that is not a color channel of a pixel of
/// the path: in the alpha channels, and in the pixels that the path leaves out.
pub open spec fn same_elsewhere(path: Seq<usize>, b1: Seq<u8>, b2: Seq<u8>) -> bool {
    &&& b1.len() == b2.len()
    &&& forall|k: int| 0 <= k < b1.len() && !covered(path, k) ==> b1[k] == b2[k]
}

/// A sequence rotated by `r`: the element at `k` is the one that stood `r`
/// places after it, counted around the end.
pub open spec fn rotation<T>(c: Seq<T>, r: int) -> Seq<T> {
    Seq::new(c.len(), |k: int| c[(k + r) % (c.len() as int)])
}

/// Two buffers with the same colors along the path, which agree elsewhere, are
/// one buffer.
pub proof fn lemma_same_buffer(path: Seq<usize>, b1: Seq<u8>, b2: Seq<u8>)
    requires
        same_elsewhere(path, b1, b2),
        colors(path, b1) == colors(path, b2),
    ensures
        b1 == b2,
{
    assert forall|k: int| 0 <= k < b1.len() implies b1[k] == b2[k] by {
        if covered(path, k) {
            let i = choose|i: int| 0 <= i < path.len() && #[trigger] path[i] <= k < path[i] + 3;
            assert(colors(path, b1)[i] == colors(path, b2)[i]);
        }
    }
    assert(b1 =~= b2);
}

/// Exchanging the pixels of two positions exchanges their colors in the
/// sequence of colors along the path, and changes nothing else.
pub proof fn lemma_swap_colors(path: Seq<usize>, buf: Seq<u8>, i: int, j: int)
    requires
        offsets_valid(path, buf.len() as int),
        offsets_distinct(path),
        0 <= i < path.len(),
        0 <= j < path.len(),
    ensures
        swapped_pixel(buf, path[i] as int, path[j] as int).len() == buf.len(),
        colors(path, swapped_pixel(buf, path[i] as int, path[j] as int)) == swap_at(
            colors(path, buf),
            i,
            j,
        ),
        same_elsewhere(path, buf, swapped_pixel(buf, path[i] as int, path[j] as int)),
{
    let a = path[i] as int;
    let b = path[j] as int;
    let after = swapped_pixel(buf, a, b);
    let c = colors(path, buf);
    if i == j {
        assert(after =~= buf);
        assert(swap_at(c, i, j) =~= c);
    } else {
        assert(a != b);
        assert(a + 4 <= b || b + 4 <= a);
        assert forall|m: int| 0 <= m < path.len() implies colors(path, after)[m] == swap_at(
            c,
            i,
            j,
        )[m] by {
            let o = path[m] as int;
            if m != i && m != j {
                assert(o != a && o != b);
                assert(o + 4 <= a || a + 4 <= o);
                assert(o + 4 <= b || b + 4 <= o);
            }
        }
        assert(colors(path, after) =~= swap_at(c, i, j));
    }
}

/// A sequence with the elements from `from` up to `to` in the opposite order.
pub open spec fn reversed<T>(c: Seq<T>, from: int, to: int) -> Seq<T> {
    Seq::new(
        c.len(),
        |k: int|
            if from <= k < to {
                c[from + to - 1 - k]
            } else {
                c[k]
            },
    )
}

/// A sequence in the middle of a reversal of the elements from `from` up to
/// `to`: the first `done` of them and the last `done` stand in each other's
/// places.
pub open spec fn part_reversed<T>(c: Seq<T>, from: int, to: int, done: int) -> Seq<T> {
    Seq::new(
        c.len(),
        |k: int|
            if from <= k < from + done || to - done <= k < to {
                c[from + to - 1 - k]
            } else {
                c[k]
            },
    )
}

/// The position of the path whose pixel holds the byte at `k`, where `k` is a
/// color channel of a pixel of the path.
pub open spec fn position_of(path: Seq<usize>, k: int) -> int {
    choose|i: int| 0 <= i < path.len() && #[trigger] path[i] <= k < path[i] + 3
}

/// The buffer after one tick by `steps`: the pixel at each position of the
/// path has the color of the pixel that stood `steps` positions behind it,
/// counted around the end of the path, and every other byte is as it was. A
/// negative step takes the colors from ahead.
pub open spec fn rotated(path: Seq<usize>, buf: Seq<u8>, steps: int) -> Seq<u8> {
    Seq::new(
        buf.len(),
        |k: int|
            if covered(path, k) {
                let i = position_of(path, k);
                let from = path[(i - steps) % (path.len() as int)];
                buf[from + (k - path[i])]
            } else {
                buf[k]
            },
    )
}

/// The buffer after `n` ticks by `steps`.
pub open spec fn ticks(path: Seq<usize>, buf: Seq<u8>, steps: int, n: nat) -> Seq<u8>
    decreases n,
{
    if n == 0 {
        buf
    } else {
        rotated(path, ticks(path, buf, steps, (n - 1) as nat), steps)
    }
}

/// The greatest common divisor.
pub open spec fn gcd(a: nat, b: nat) -> nat
    decreases b,
{
    if b == 0 {
        a
    } else {
        gcd(b, a % b)
    }
}

/// Buffers that agree elsewhere with one buffer agree elsewhere with each
/// other.
pub proof fn lemma_same_elsewhere_chain(path: Seq<usize>, b1: Seq<u8>, b2: Seq<u8>, b3: Seq<u8>)
    requires
        same_elsewhere(path, b1, b2),
        same_elsewhere(path, b2, b3),
    ensures
        same_elsewhere(path, b1, b3),
        same_elsewhere(path, b2, b1),
{
}

/// A color channel of the pixel at a position of the path, after a tick.
proof fn lemma_rotated_channel(path: Seq<usize>, buf: Seq<u8>, steps: int, m: int, channel: int)
    requires
        offsets_valid(path, buf.len() as int),
        offsets_distinct(path),
        0 <= m < path.len(),
        0 <= channel < 3,
    ensures
        0 <= (m - steps) % (path.len() as int) < path.len(),
        rotated(path, buf, steps)[path[m] + channel] == buf[path[(m - steps) % (path.len() as int)]
            + channel],
{
    let len = path.len() as int;
    vstd::arithmetic::div_mod::lemma_mod_bound(m - steps, len);
    let k = path[m] + channel;
    assert(covered(path, k));
    let i = position_of(path, k);
    assert(path[i] % 4 == 0 && path[m] % 4 == 0);
    assert(path[i] == path[m]);
    assert(i == m);
}

/// What a tick gives: the colors along the path rotated by the step, every
/// other byte as it was, and a buffer of the same length.
pub proof fn lemma_rotated(path: Seq<usize>, buf: Seq<u8>, steps: int)
    requires
        offsets_valid(path, buf.len() as int),
        offsets_distinct(path),
    ensures
        rotated(path, buf, steps).len() == buf.len(),
        colors(path, rotated(path, buf, steps)) == rotation(colors(path, buf), -steps),
        same_elsewhere(path, buf, rotated(path, buf, steps)),
{
    let len = path.len() as int;
    let after = rotated(path, buf, steps);
    let c = colors(path, buf);
    assert forall|m: int| 0 <= m < len implies colors(path, after)[m] == rotation(c, -steps)[m] by {
        vstd::arithmetic::div_mod::lemma_mod_bound(m - steps, len);
        let source = (m - steps) % len;
        assert((m + (-steps)) % len == source);
        lemma_rotated_channel(path, buf, steps, m, 0);
        lemma_rotated_channel(path, buf, steps, m, 1);
        lemma_rotated_channel(path, buf, steps, m, 2);
    }
    assert(colors(path, after) =~= rotation(c, -steps));
}

/// Nothing but [`rotated`] comes of a tick: a buffer with the colors along the
/// path rotated by the step, and every other byte as it was, is that buffer.
pub proof fn lemma_rotated_unique(path: Seq<usize>, buf: Seq<u8>, after: Seq<u8>, steps: int)
    requires
        offsets_valid(path, buf.len() as int),
        offsets_distinct(path),
        colors(path, after) == rotation(colors(path, buf), -steps),
        same_elsewhere(path, buf, after),
    ensures
        after == rotated(path, buf, steps),
{
    lemma_rotated(path, buf, steps);
    lemma_same_elsewhere_chain(path, rotated(path, buf, steps), buf, after);
    lemma_same_buffer(path, after, rotated(path, buf, steps));
}

/// Two rotations by steps that differ by a multiple of the length are one
/// rotation.
pub proof fn lemma_rotation_around<T>(c: Seq<T>, r: int, m: int)
    requires
        c.len() > 0,
    ensures
        rotation(c, r + m * c.len()) == rotation(c, r),
{
    lemma_rotation_twice(c, m * c.len(), r);
    lemma_rotation_full(c, m);
    assert(m * c.len() + r == r + m * c.len());
}

/// Reversing a sequence, then its first `r` elements, then the others rotates
/// it: every element moves `r` places on, around the end.
pub proof fn lemma_three_reversals<T>(c: Seq<T>, r: int)
    requires
        0 <= r <= c.len(),
    ensures
        reversed(reversed(reversed(c, 0, c.len() as int), 0, r), r, c.len() as int) == rotation(
            c,
            -r,
        ),
{
    let len = c.len() as int;
    let turned = reversed(reversed(reversed(c, 0, len), 0, r), r, len);
    assert forall|k: int| 0 <= k < len implies turned[k] == rotation(c, -r)[k] by {
        if k >= r {
            vstd::arithmetic::div_mod::lemma_small_mod((k - r) as nat, len as nat);
        } else {
            assert(k - r == (-1) * len + (k - r + len));
            vstd::arithmetic::div_mod::lemma_fundamental_div_mod_converse(
                k - r,
                len,
                -1,
                k - r + len,
            );
        }
    }
    assert(turned =~= rotation(c, -r));
}

/// Rotating twice is rotating by the sum.
pub proof fn lemma_rotation_twice<T>(c: Seq<T>, r1: int, r2: int)
    requires
        c.len() > 0,
    ensures
        rotation(rotation(c, r1), r2) == rotation(c, r1 + r2),
{
    let len = c.len() as int;
    assert forall|k: int| 0 <= k < len implies rotation(rotation(c, r1), r2)[k] == rotation(
        c,
        r1 + r2,
    )[k] by {
        vstd::arithmetic::div_mod::lemma_mod_bound(k + r2, len);
        vstd::arithmetic::div_mod::lemma_add_mod_noop_right(r1, k + r2, len);
        assert(((k + r2) % len + r1) % len == (k + r2 + r1) % len);
    }
    assert(rotation(rotation(c, r1), r2) =~= rotation(c, r1 + r2));
}

/// Rotating by a multiple of the length changes nothing.
pub proof fn lemma_rotation_full<T>(c: Seq<T>, m: int)
    requires
        c.len() > 0,
    ensures
        rotation(c, m * c.len()) == c,
{
    let len = c.len() as int;
    assert forall|k: int| 0 <= k < len implies rotation(c, m * len)[k] == c[k] by {
        vstd::arithmetic::div_mod::lemma_mod_multiples_vanish(m, k, len);
        vstd::arithmetic::div_mod::lemma_small_mod(k as nat, len as nat);
        assert(len * m + k == k + m * len) by (nonlinear_arith);
    }
    assert(rotation(c, m * len) =~= c);
}

/// A tick never touches an alpha channel.
pub proof fn lemma_alpha_untouched(path: Seq<usize>, buf: Seq<u8>, steps: int, k: int)
    requires
        offsets_valid(path, buf.len() as int),
        offsets_distinct(path),
        0 <= k < buf.len(),
        k % 4 == 3,
    ensures
        rotated(path, buf, steps)[k] == buf[k],
{
    assert(!covered(path, k));
}

/// Two ticks one after the other are one tick by the sum of the steps.
pub proof fn lemma_rotated_twice(path: Seq<usize>, buf: Seq<u8>, s1: int, s2: int)
    requires
        offsets_valid(path, buf.len() as int),
        offsets_distinct(path),
    ensures
        rotated(path, rotated(path, buf, s1), s2) == rotated(path, buf, s1 + s2),
{
    let first = rotated(path, buf, s1);
    let second = rotated(path, first, s2);
    lemma_rotated(path, buf, s1);
    lemma_rotated(path, first, s2);
    lemma_same_elsewhere_chain(path, buf, first, second);
    if path.len() > 0 {
        lemma_rotation_twice(colors(path, buf), -s1, -s2);
    } else {
        assert(colors(path, second) =~= rotation(colors(path, buf), -(s1 + s2)));
    }
    lemma_rotated_unique(path, buf, second, s1 + s2);
}

/// A tick by a multiple of the length of the path changes nothing. A tick by
/// zero is one.
pub proof fn lemma_rotated_full(path: Seq<usize>, buf: Seq<u8>, m: int)
    requires
        offsets_valid(path, buf.len() as int),
        offsets_distinct(path),
    ensures
        rotated(path, buf, m * path.len()) == buf,
        rotated(path, buf, 0) == buf,
{
    let steps = m * path.len();
    lemma_rotated(path, buf, steps);
    lemma_rotated(path, buf, 0);
    if path.len() > 0 {
        lemma_rotation_full(colors(path, buf), -m);
        lemma_rotation_full(colors(path, buf), 0);
        assert((-m) * path.len() == -(m * path.len())) by (nonlinear_arith);
    } else {
        assert(colors(path, rotated(path, buf, steps)) =~= colors(path, buf));
        assert(colors(path, rotated(path, buf, 0)) =~= colors(path, buf));
    }
    lemma_same_elsewhere_chain(path, buf, rotated(path, buf, steps), buf);
    lemma_same_elsewhere_chain(path, buf, rotated(path, buf, 0), buf);
    lemma_same_buffer(path, rotated(path, buf, steps), buf);
    lemma_same_buffer(path, rotated(path, buf, 0), buf);
}

/// A tick followed by the tick in the other direction restores the buffer,
/// whatever the step.
pub proof fn lemma_tick_round_trip(path: Seq<usize>, buf: Seq<u8>, steps: int)
    requires
        offsets_valid(path, buf.len() as int),
        offsets_distinct(path),
    ensures
        rotated(path, rotated(path, buf, steps), -steps) == buf,
{
    lemma_rotated_twice(path, buf, steps, -steps);
    lemma_rotated_full(path, buf, 0);
}

/// The longest step is one less than the length of the path, and a single
/// step in the same direction after it restores the buffer.
pub proof fn lemma_longest_step(path: Seq<usize>, buf: Seq<u8>)
    requires
        offsets_valid(path, buf.len() as int),
        offsets_distinct(path),
        path.len() >= 1,
    ensures
        rotated(path, rotated(path, buf, path.len() - 1), 1) == buf,
        rotated(path, rotated(path, buf, -(path.len() - 1)), -1) == buf,
{
    let len = path.len() as int;
    let forward = (1 as int) * path.len();
    let backward = ((-1) as int) * path.len();
    assert(forward == (len - 1) + 1 && backward == -(len - 1) + (-1)) by (nonlinear_arith)
        requires
            forward == 1 * len,
            backward == (-1) * len,
    ;
    assert(rotated(path, rotated(path, buf, len - 1), 1) == rotated(path, buf, forward)) by {
        lemma_rotated_twice(path, buf, len - 1, 1);
    }
    assert(rotated(path, rotated(path, buf, -(len - 1)), -1) == rotated(path, buf, backward)) by {
        lemma_rotated_twice(path, buf, -(len - 1), -1);
    }
    assert(rotated(path, buf, forward) == buf) by {
        lemma_rotated_full(path, buf, 1);
    }
    assert(rotated(path, buf, backward) == buf) by {
        lemma_rotated_full(path, buf, -1);
    }
}

/// `n` ticks by a step are one tick by `n` times the step.
pub proof fn lemma_ticks(path: Seq<usize>, buf: Seq<u8>, steps: int, n: nat)
    requires
        offsets_valid(path, buf.len() as int),
        offsets_distinct(path),
    ensures
        ticks(path, buf, steps, n) == rotated(path, buf, n * steps),
    decreases n,
{
    if n == 0 {
        lemma_rotated_full(path, buf, 0);
        assert(0 * steps == 0);
    } else {
        lemma_ticks(path, buf, steps, (n - 1) as nat);
        lemma_rotated_twice(path, buf, (n - 1) * steps, steps);
        assert((n - 1) * steps + steps == n * steps) by (nonlinear_arith);
    }
}

/// The greatest common divisor of two numbers divides both: the results are
/// the quotients.
pub proof fn lemma_gcd_divides(a: nat, b: nat) -> (q: (nat, nat))
    ensures
        a == gcd(a, b) * q.0,
        b == gcd(a, b) * q.1,
    decreases b,
{
    if b == 0 {
        assert(a == a * 1 && 0 == a * 0) by (nonlinear_arith);
        (1, 0)
    } else {
        let rest = lemma_gcd_divides(b, a % b);
        let g = gcd(a, b);
        vstd::arithmetic::div_mod::lemma_fundamental_div_mod(a as int, b as int);
        let times = a / b;
        assert(a == g * (rest.0 * times + rest.1)) by (nonlinear_arith)
            requires
                a == b * times + a % b,
                b == g * rest.0,
                a % b == g * rest.1,
        ;
        (rest.0 * times + rest.1, rest.0)
    }
}

/// Ticks come back to the buffer they started from as soon as the steps taken
/// add up to a multiple of the length of the path.
pub proof fn lemma_ticks_cycle(path: Seq<usize>, buf: Seq<u8>, steps: int, n: nat, m: int)
    requires
        offsets_valid(path, buf.len() as int),
        offsets_distinct(path),
        n * steps == m * path.len(),
    ensures
        ticks(path, buf, steps, n) == buf,
{
    lemma_ticks(path, buf, steps, n);
    lemma_rotated_full(path, buf, m);
}

/// Ticks by any step come back to the buffer they started from after as many
/// ticks as the greatest common divisor of the length of the path and the
/// step goes into the length.
pub proof fn lemma_ticks_cycle_gcd(path: Seq<usize>, buf: Seq<u8>, steps: int)
    requires
        offsets_valid(path, buf.len() as int),
        offsets_distinct(path),
        path.len() >= 1,
    ensures
        gcd(path.len(), magnitude(steps) as nat) >= 1,
        ticks(path, buf, steps, path.len() / gcd(path.len(), magnitude(steps) as nat)) == buf,
{
    let len = path.len();
    let s = magnitude(steps) as nat;
    let g = gcd(len, s);
    let q = lemma_gcd_divides(len, s);
    assert(g >= 1 && q.0 >= 1) by (nonlinear_arith)
        requires
            len == g * q.0,
            len >= 1,
    ;
    vstd::arithmetic::div_mod::lemma_fundamental_div_mod_converse(
        len as int,
        g as int,
        q.0 as int,
        0,
    );
    let n = len / g;
    assert(n == q.0);
    let m = if steps >= 0 {
        q.1 as int
    } else {
        -(q.1 as int)
    };
    assert(n * steps == m * len) by (nonlinear_arith)
        requires
            len == g * q.0,
            s == g * q.1,
            n == q.0,
            (steps == s && m == q.1) || (steps == -s && m == -q.1),
    ;
    lemma_ticks_cycle(path, buf, steps, n, m);
}

/// As many ticks by one as the path is long restore the buffer.
pub proof fn lemma_single_steps_cycle(path: Seq<usize>, buf: Seq<u8>)
    requires
        offsets_valid(path, buf.len() as int),
        offsets_distinct(path),
    ensures
        ticks(path, buf, 1, path.len()) == buf,
{
    assert(path.len() * 1 == 1 * path.len());
    lemma_ticks_cycle(path, buf, 1, path.len(), 1);
}

/// Fewer ticks by one than the path is long do not restore a buffer whose
/// colors along the path are all different: after `k` of them the position
/// `k` of the path holds the color that stood at its first position.
pub proof fn lemma_single_steps_between(path: Seq<usize>, buf: Seq<u8>, k: nat)
    requires
        offsets_valid(path, buf.len() as int),
        offsets_distinct(path),
        0 < k < path.len(),
    ensures
        colors(path, ticks(path, buf, 1, k))[k as int] == colors(path, buf)[0],
        (forall|i: int, j: int|
            0 <= i < j < path.len() ==> colors(path, buf)[i] != colors(path, buf)[j]) ==> ticks(
            path,
            buf,
            1,
            k,
        ) != buf,
{
    let len = path.len() as int;
    lemma_ticks(path, buf, 1, k);
    assert(k * 1 == k) by (nonlinear_arith);
    lemma_rotated(path, buf, k as int);
    vstd::arithmetic::div_mod::lemma_mod_self_0(len);
    assert(((k as int) + (-(k as int))) % len == 0) by {
        vstd::arithmetic::div_mod::lemma_small_mod(0, len as nat);
    }
    assert(rotation(colors(path, buf), -(k as int))[k as int] == colors(path, buf)[((k as int)
        + (-(k as int))) % len]);
}

} // verus!
