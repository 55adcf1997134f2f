//! When the order of the fingers does not matter, and when centroids are exact.
//!
//! The slots that a tracker averages come out of a hash map, so the order in which their positions
//! are added up is arbitrary, and sums of doubles depend on it in general. Touchscreens report
//! positions on a grid, and on a grid the sums are exact. Where the grid holds the means too, so
//! are the centroids and their movements.

use vstd::arithmetic::power2::{lemma_pow2_pos, lemma_pow2_unfold, pow2};
use vstd::prelude::*;

use crate::binary64::Binary64;
use crate::geometry::{centroid, total, Axis, Point};
use crate::rounding::{
    lemma_magnitude_of_parts, lemma_magnitude_strictly_increases, lemma_nearest_exists,
    lemma_nearest_monotone, magnitude, nearest, BINADE, INFINITY,
};
use crate::touch_swipe_tracker::positions;

verus! {

/// The sum of a quantity over the given slots.
pub open spec fn sum_over(keys: Seq<u64>, quantity: spec_fn(u64) -> int) -> int
    decreases keys.len(),
{
    if keys.len() == 0 {
        0
    } else {
        sum_over(keys.drop_last(), quantity) + quantity(keys.last())
    }
}

/// A number is a finite multiple of `2^grid` units.
pub open spec fn on_grid(number: Binary64, grid: nat) -> bool {
    number.finite() && number.value() % (pow2(grid) as int) == 0
}

/// The exact sum of the coordinates of the given slots along an axis.
pub open spec fn coordinate_sum(keys: Seq<u64>, at: Map<u64, Point>, axis: Axis) -> int {
    sum_over(keys, |key: u64| at[key].along(axis).value())
}

/// The sum of the sizes of the coordinates of the given slots along an axis.
pub open spec fn size_sum(keys: Seq<u64>, at: Map<u64, Point>, axis: Axis) -> int {
    sum_over(keys, |key: u64| vstd::math::abs(at[key].along(axis).value()) as int)
}

/// The coordinates of the given slots along an axis lie on a grid that is fine enough to hold
/// their sum, whatever their signs, exactly.
pub open spec fn adds_up_exactly(
    keys: Seq<u64>,
    at: Map<u64, Point>,
    axis: Axis,
    grid: nat,
) -> bool {
    &&& grid <= 2045
    &&& forall|i: int| 0 <= i < keys.len() ==> on_grid(#[trigger] at[keys[i]].along(axis), grid)
    &&& size_sum(keys, at, axis) < (2 * BINADE as int) * pow2(grid)
}

/// Multiples of a power of two that have at most 53 binary digits are doubles.
pub proof fn lemma_representable(multiple: nat, grid: nat) -> (pattern: nat)
    requires
        multiple < 2 * BINADE,
        grid <= 2045,
    ensures
        pattern < INFINITY,
        magnitude(pattern) == multiple * pow2(grid),
    decreases grid,
{
    if grid == 0 || multiple >= BINADE {
        lemma_magnitude_of_parts(grid, multiple);
        grid * BINADE as nat + multiple
    } else {
        lemma_pow2_unfold(grid);
        assert((2 * multiple) * pow2((grid - 1) as nat) == multiple * pow2(grid))
            by (nonlinear_arith)
            requires
                pow2(grid) == 2 * pow2((grid - 1) as nat),
        ;
        lemma_representable(2 * multiple, (grid - 1) as nat)
    }
}

/// A double rounds to itself.
proof fn lemma_rounds_to_itself(pattern: nat)
    requires
        pattern <= INFINITY,
    ensures
        nearest(magnitude(pattern), 1) == pattern,
{
    lemma_nearest_exists(magnitude(pattern), 1);
    lemma_nearest_monotone(magnitude(pattern), 1, pattern);
}

/// A sum that stays on the grid and in range is exact, and zero comes out positive.
proof fn lemma_exact_plus(a: Binary64, b: Binary64, grid: nat)
    requires
        grid <= 2045,
        on_grid(a, grid),
        on_grid(b, grid),
        a.value() == 0 ==> a.bits == 0,
        vstd::math::abs(a.value() + b.value()) < (2 * BINADE as int) * pow2(grid),
    ensures
        on_grid(a.spec_plus(b), grid),
        a.spec_plus(b).value() == a.value() + b.value(),
        a.spec_plus(b).value() == 0 ==> a.spec_plus(b).bits == 0,
{
    let unit: nat = pow2(grid);
    let j: int = a.value() / unit as int;
    let k: int = b.value() / unit as int;
    lemma_pow2_pos(grid);
    vstd::arithmetic::div_mod::lemma_fundamental_div_mod(a.value(), unit as int);
    vstd::arithmetic::div_mod::lemma_fundamental_div_mod(b.value(), unit as int);
    let sum: int = a.value() + b.value();
    let multiple: int = j + k;
    assert(sum == multiple * unit) by (nonlinear_arith)
        requires
            sum == unit * j + unit * k,
            multiple == j + k,
    ;
    let size: nat = vstd::math::abs(multiple) as nat;
    assert(vstd::math::abs(sum) == size * unit) by (nonlinear_arith)
        requires
            sum == multiple * unit,
            size == (if multiple < 0 { -multiple } else { multiple }),
            vstd::math::abs(sum) == (if sum < 0 { -sum } else { sum }),
    ;
    assert(size < 2 * BINADE) by (nonlinear_arith)
        requires
            size * unit < (2 * BINADE as int) * unit,
            unit > 0,
    ;
    let pattern: nat = lemma_representable(size, grid);
    lemma_rounds_to_itself(pattern);
    if a.pattern() > 0 {
        lemma_magnitude_strictly_increases(0, a.pattern());
    }
    if b.pattern() > 0 {
        lemma_magnitude_strictly_increases(0, b.pattern());
    }
    vstd::arithmetic::div_mod::lemma_mod_multiples_basic(multiple, unit as int);
}

/// A sum is no larger than the sum of the sizes.
proof fn lemma_sum_bounded(keys: Seq<u64>, at: Map<u64, Point>, axis: Axis)
    ensures
        vstd::math::abs(coordinate_sum(keys, at, axis)) <= size_sum(keys, at, axis),
    decreases keys.len(),
{
    if keys.len() > 0 {
        lemma_sum_bounded(keys.drop_last(), at, axis);
    }
}

/// On a grid, adding up the positions of the given slots gives the exact sum along an axis.
pub proof fn sums_on_a_grid_are_exact(keys: Seq<u64>, at: Map<u64, Point>, axis: Axis, grid: nat)
    requires
        adds_up_exactly(keys, at, axis, grid),
    ensures
        ({
            let sum: Binary64 = total(positions(keys, at)).along(axis);
            &&& on_grid(sum, grid)
            &&& sum.value() == coordinate_sum(keys, at, axis)
            &&& sum.value() == 0 ==> sum.bits == 0
        }),
    decreases keys.len(),
{
    let points: Seq<Point> = positions(keys, at);
    lemma_sum_bounded(keys, at, axis);
    if keys.len() == 0 {
        lemma_pow2_pos(grid);
        assert(points.len() == 0);
        assert(0int % (pow2(grid) as int) == 0) by (nonlinear_arith)
            requires
                pow2(grid) > 0,
        ;
    } else {
        let rest: Seq<u64> = keys.drop_last();
        assert(forall|i: int| 0 <= i < rest.len() ==> rest[i] == keys[i]);
        assert(adds_up_exactly(rest, at, axis, grid));
        sums_on_a_grid_are_exact(rest, at, axis, grid);
        assert(points.drop_last() =~= positions(rest, at));
        assert(points.last() == at[keys.last()]);
        assert(on_grid(at[keys[keys.len() - 1]].along(axis), grid));
        lemma_exact_plus(
            total(points.drop_last()).along(axis),
            at[keys.last()].along(axis),
            grid,
        );
    }
}

/// Taking one slot out takes its part out of a sum.
pub proof fn lemma_sum_without(keys: Seq<u64>, i: int, quantity: spec_fn(u64) -> int)
    requires
        0 <= i < keys.len(),
    ensures
        sum_over(keys, quantity) == sum_over(keys.remove(i), quantity) + quantity(keys[i]),
    decreases keys.len(),
{
    let last: int = keys.len() - 1;
    if i == last {
        assert(keys.remove(i) =~= keys.drop_last());
    } else {
        lemma_sum_without(keys.drop_last(), i, quantity);
        assert(keys.remove(i).drop_last() =~= keys.drop_last().remove(i));
        assert(keys.remove(i).last() == keys.last());
    }
}

/// Exact sums do not depend on the order.
pub proof fn exact_sums_ignore_order(a: Seq<u64>, b: Seq<u64>, quantity: spec_fn(u64) -> int)
    requires
        a.no_duplicates(),
        b.no_duplicates(),
        a.to_set() == b.to_set(),
    ensures
        a.len() == b.len(),
        sum_over(a, quantity) == sum_over(b, quantity),
    decreases a.len(),
{
    a.unique_seq_to_set();
    b.unique_seq_to_set();
    if a.len() > 0 {
        let last: u64 = a.last();
        assert(a.to_set().contains(last));
        assert(b.contains(last));
        let i: int = b.index_of(last);
        let rest: Seq<u64> = b.remove(i);
        lemma_sum_without(b, i, quantity);
        assert forall|key: u64| a.drop_last().contains(key) <==> rest.contains(key) by {
            assert(a.to_set().contains(key) == a.contains(key));
            assert(b.to_set().contains(key) == b.contains(key));
            if a.drop_last().contains(key) {
                let k: int = a.drop_last().index_of(key);
                assert(a[k] == key && key != last);
                let m: int = b.index_of(key);
                assert(rest[if m < i { m } else { m - 1 }] == key);
            }
            if rest.contains(key) {
                let k: int = rest.index_of(key);
                let m: int = if k < i { k } else { k + 1 };
                assert(b[m] == key && key != last);
                let n: int = a.index_of(key);
                assert(a.drop_last()[n] == key);
            }
        }
        assert(a.drop_last().to_set() =~= rest.to_set());
        exact_sums_ignore_order(a.drop_last(), rest, quantity);
    }
}

/// Finite numbers of equal value are the same number, but for the sign of zero.
pub proof fn lemma_value_determines(a: Binary64, b: Binary64)
    requires
        a.finite(),
        b.finite(),
        a.value() == b.value(),
        a.value() == 0 ==> a.bits == b.bits,
    ensures
        a == b,
{
    if a.pattern() < b.pattern() {
        lemma_magnitude_strictly_increases(a.pattern(), b.pattern());
    } else if b.pattern() < a.pattern() {
        lemma_magnitude_strictly_increases(b.pattern(), a.pattern());
    }
}

/// On a grid, the sum along an axis does not depend on the order in which the slots are listed.
proof fn lemma_total_ignores_order(
    a: Seq<u64>,
    b: Seq<u64>,
    at: Map<u64, Point>,
    axis: Axis,
    grid: nat,
)
    requires
        a.no_duplicates(),
        b.no_duplicates(),
        a.to_set() == b.to_set(),
        adds_up_exactly(a, at, axis, grid),
    ensures
        a.len() == b.len(),
        total(positions(a, at)).along(axis) == total(positions(b, at)).along(axis),
{
    exact_sums_ignore_order(a, b, |key: u64| at[key].along(axis).value());
    exact_sums_ignore_order(
        a,
        b,
        |key: u64| vstd::math::abs(at[key].along(axis).value()) as int,
    );
    assert forall|i: int| 0 <= i < b.len() implies on_grid(
        #[trigger] at[b[i]].along(axis),
        grid,
    ) by {
        assert(b.to_set().contains(b[i]));
        assert(a.contains(b[i]));
        let j: int = a.index_of(b[i]);
        assert(on_grid(at[a[j]].along(axis), grid));
    }
    assert(adds_up_exactly(b, at, axis, grid));
    sums_on_a_grid_are_exact(a, at, axis, grid);
    sums_on_a_grid_are_exact(b, at, axis, grid);
    lemma_value_determines(
        total(positions(a, at)).along(axis),
        total(positions(b, at)).along(axis),
    );
}

/// On a grid, the centroid does not depend on the order in which the slots are listed.
pub proof fn centroid_ignores_order(
    a: Seq<u64>,
    b: Seq<u64>,
    at: Map<u64, Point>,
    x_grid: nat,
    y_grid: nat,
)
    requires
        a.no_duplicates(),
        b.no_duplicates(),
        a.to_set() == b.to_set(),
        adds_up_exactly(a, at, Axis::X, x_grid),
        adds_up_exactly(a, at, Axis::Y, y_grid),
    ensures
        centroid(positions(a, at)) == centroid(positions(b, at)),
{
    lemma_total_ignores_order(a, b, at, Axis::X, x_grid);
    lemma_total_ignores_order(a, b, at, Axis::Y, y_grid);
}

/// A sum that starts from the origin is never a negative zero.
pub proof fn lemma_no_negative_zero(points: Seq<Point>, axis: Axis)
    requires
        total(points).along(axis).finite(),
        total(points).along(axis).value() == 0,
    ensures
        total(points).along(axis).bits == 0,
    decreases points.len(),
{
    if points.len() > 0 {
        let a: Binary64 = total(points.drop_last()).along(axis);
        let b: Binary64 = points.last().along(axis);
        let sum: int = a.value() + b.value();
        assert(total(points).along(axis) == a.spec_plus(b));
        assert(a.finite() && b.finite());
        if sum != 0 {
            let size: nat = vstd::math::abs(sum) as nat;
            let smallest: nat = lemma_representable(1, 0);
            vstd::arithmetic::power2::lemma2_to64();
            lemma_nearest_exists(size, 1);
            lemma_nearest_monotone(size, 1, smallest);
            lemma_magnitude_strictly_increases(0, nearest(size, 1));
        } else if a.negative() {
            if a.pattern() > 0 {
                lemma_magnitude_strictly_increases(0, a.pattern());
            } else {
                lemma_no_negative_zero(points.drop_last(), axis);
            }
            if b.pattern() > 0 {
                lemma_magnitude_strictly_increases(0, b.pattern());
            }
        }
    }
}

/// Adding up the coordinates of the given slots along an axis, and dividing by their number, gives
/// their mean without rounding.
pub open spec fn mean_is_exact(keys: Seq<u64>, at: Map<u64, Point>, axis: Axis) -> bool {
    let sum: Binary64 = total(positions(keys, at)).along(axis);
    let mean: Binary64 = centroid(positions(keys, at)).along(axis);
    &&& sum.finite()
    &&& mean.finite()
    &&& sum.value() == coordinate_sum(keys, at, axis)
    &&& mean.value() * keys.len() == coordinate_sum(keys, at, axis)
}

/// The difference of two points along an axis comes out without rounding.
pub open spec fn difference_is_exact(from: Point, to: Point, axis: Axis) -> bool {
    let delta: Binary64 = to.spec_minus(from).along(axis);
    delta.finite() && delta.value() == to.along(axis).value() - from.along(axis).value()
}

/// An exact mean is never a negative zero.
pub proof fn lemma_exact_mean_of_zero(keys: Seq<u64>, at: Map<u64, Point>, axis: Axis)
    requires
        mean_is_exact(keys, at, axis),
        centroid(positions(keys, at)).along(axis).value() == 0,
    ensures
        centroid(positions(keys, at)).along(axis).bits == 0,
{
    let points: Seq<Point> = positions(keys, at);
    if points.len() > 0 {
        assert(coordinate_sum(keys, at, axis) == 0) by (nonlinear_arith)
            requires
                centroid(points).along(axis).value() * keys.len() == coordinate_sum(keys, at, axis),
                centroid(points).along(axis).value() == 0,
        ;
        lemma_no_negative_zero(points, axis);
        lemma_nearest_exists(0, points.len());
        lemma_nearest_monotone(0, points.len(), 0);
    }
}

/// The coordinates of the given slots along an axis lie on a grid that also holds their mean, and
/// that leaves room for the difference of two such means.
///
/// Two or more coordinates that add up exactly leave that room by themselves.
pub open spec fn averages_exactly(
    keys: Seq<u64>,
    at: Map<u64, Point>,
    axis: Axis,
    grid: nat,
) -> bool {
    let count: int = keys.len() as int;
    let sum: int = coordinate_sum(keys, at, axis);
    &&& count > 0
    &&& adds_up_exactly(keys, at, axis, grid)
    &&& sum % (count * pow2(grid)) == 0
    &&& vstd::math::abs(sum) < count * (BINADE * pow2(grid))
}

/// On such a grid the centroid is the exact mean.
pub proof fn centroid_on_a_grid_is_exact(keys: Seq<u64>, at: Map<u64, Point>, axis: Axis, grid: nat)
    requires
        averages_exactly(keys, at, axis, grid),
    ensures
        ({
            let mean: Binary64 = centroid(positions(keys, at)).along(axis);
            &&& mean_is_exact(keys, at, axis)
            &&& on_grid(mean, grid)
            &&& mean.value() == 0 ==> mean.bits == 0
            &&& vstd::math::abs(mean.value()) < BINADE * pow2(grid)
        }),
{
    let count: nat = keys.len();
    let unit: nat = pow2(grid);
    let sum: int = coordinate_sum(keys, at, axis);
    let added: Binary64 = total(positions(keys, at)).along(axis);
    let mean: Binary64 = centroid(positions(keys, at)).along(axis);
    sums_on_a_grid_are_exact(keys, at, axis, grid);
    assert(mean == added.spec_over(count));
    lemma_pow2_pos(grid);
    let step: int = (count * unit) as int;
    assert(step > 0) by (nonlinear_arith)
        requires
            step == count * unit,
            count > 0,
            unit > 0,
    ;
    let multiple: int = sum / step;
    vstd::arithmetic::div_mod::lemma_fundamental_div_mod(sum, step);
    let size: nat = vstd::math::abs(multiple) as nat;
    assert(vstd::math::abs(sum) == (size * unit) * count) by (nonlinear_arith)
        requires
            sum == step * multiple,
            step == count * unit,
            step > 0,
            size == (if multiple < 0 { -multiple } else { multiple }),
            vstd::math::abs(sum) == (if sum < 0 { -sum } else { sum }),
    ;
    assert(size < BINADE) by (nonlinear_arith)
        requires
            (size * unit) * count < count * (BINADE * unit),
            unit > 0,
            count > 0,
    ;
    let pattern: nat = lemma_representable(size, grid);
    lemma_nearest_exists(magnitude(added.pattern()), count);
    lemma_nearest_monotone(magnitude(added.pattern()), count, pattern);
    assert(mean.pattern() == pattern);
    if added.pattern() > 0 {
        lemma_magnitude_strictly_increases(0, added.pattern());
    }
    if pattern > 0 {
        lemma_magnitude_strictly_increases(0, pattern);
    }
    assert(sum < 0 ==> multiple < 0) by (nonlinear_arith)
        requires
            sum == step * multiple,
            step > 0,
    ;
    assert(sum > 0 ==> multiple > 0) by (nonlinear_arith)
        requires
            sum == step * multiple,
            step > 0,
    ;
    assert(sum == 0 ==> multiple == 0) by (nonlinear_arith)
        requires
            sum == step * multiple,
            step > 0,
    ;
    assert(0 * unit == 0);
    assert(-(size * unit) == (-(size as int)) * unit) by (nonlinear_arith);
    assert(mean.value() == multiple * unit);
    vstd::arithmetic::div_mod::lemma_mod_multiples_basic(multiple, unit as int);
    assert(mean.value() * count == sum) by (nonlinear_arith)
        requires
            mean.value() == multiple * unit,
            sum == step * multiple,
            step == count * unit,
    ;
    assert(size * unit < BINADE * unit) by (nonlinear_arith)
        requires
            size < BINADE,
            unit > 0,
    ;
}

/// The difference of two numbers on a grid is exact where it is in range, and zero comes out
/// positive.
proof fn lemma_exact_minus(a: Binary64, b: Binary64, grid: nat)
    requires
        grid <= 2045,
        on_grid(a, grid),
        on_grid(b, grid),
        a.value() == 0 ==> a.bits == 0,
        vstd::math::abs(a.value()) < BINADE * pow2(grid),
        vstd::math::abs(b.value()) < BINADE * pow2(grid),
    ensures
        a.spec_minus(b).finite(),
        a.spec_minus(b).value() == a.value() - b.value(),
        a.spec_minus(b).value() == 0 ==> a.spec_minus(b).bits == 0,
{
    let unit: int = pow2(grid) as int;
    let opposite: Binary64 = b.spec_negated();
    lemma_pow2_pos(grid);
    assert(opposite.value() == -b.value());
    vstd::arithmetic::div_mod::lemma_fundamental_div_mod(b.value(), unit);
    let multiple: int = b.value() / unit;
    assert(opposite.value() == (-multiple) * unit) by (nonlinear_arith)
        requires
            opposite.value() == -b.value(),
            b.value() == unit * multiple,
    ;
    vstd::arithmetic::div_mod::lemma_mod_multiples_basic(-multiple, unit);
    assert((2 * BINADE as int) * pow2(grid) == 2 * (BINADE * pow2(grid))) by (nonlinear_arith);
    lemma_exact_plus(a, opposite, grid);
}

/// The difference of two exact centroids of the same slots is the exact difference of the means.
pub proof fn centroid_difference_on_a_grid_is_exact(
    keys: Seq<u64>,
    from: Map<u64, Point>,
    to: Map<u64, Point>,
    axis: Axis,
    grid: nat,
)
    requires
        averages_exactly(keys, from, axis, grid),
        averages_exactly(keys, to, axis, grid),
    ensures
        ({
            let before: Point = centroid(positions(keys, from));
            let after: Point = centroid(positions(keys, to));
            let delta: Binary64 = after.spec_minus(before).along(axis);
            &&& difference_is_exact(before, after, axis)
            &&& delta.value() * keys.len() == coordinate_sum(keys, to, axis) - coordinate_sum(
                keys,
                from,
                axis,
            )
            &&& delta.value() == 0 ==> delta.bits == 0
        }),
{
    let before: Binary64 = centroid(positions(keys, from)).along(axis);
    let after: Binary64 = centroid(positions(keys, to)).along(axis);
    centroid_on_a_grid_is_exact(keys, from, axis, grid);
    centroid_on_a_grid_is_exact(keys, to, axis, grid);
    lemma_exact_minus(after, before, grid);
    let count: nat = keys.len();
    assert((after.value() - before.value()) * count == after.value() * count - before.value()
        * count) by (nonlinear_arith);
}

} // verus!
