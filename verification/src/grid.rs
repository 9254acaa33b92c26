//! The grid coordinate system: snapping of raw pointer positions to grid
//! lines, the inverse mapping from positions to cells, and hit testing.

use vstd::arithmetic::div_mod::lemma_fundamental_div_mod_converse;
use vstd::prelude::*;

verus! {

/// Coordinate units per point: a coordinate of `10000` is the point `100.0`.
pub const UNITS_PER_POINT: i64 = 100;

/// Width of one column (1 HP, 15.2 points).
pub const GRID_UNIT: i64 = 1520;

/// Vertical distance between two rails (380 points).
pub const RAIL_HEIGHT: i64 = 38000;

/// Horizontal coordinate of the first column.
pub const ORIGIN_X: i64 = 10000;

/// Vertical coordinate of the first rail.
pub const ORIGIN_Y: i64 = 10000;

/// A point of the rack's coordinate space, raw or grid-aligned.
#[derive(Clone, Copy, Debug, PartialEq, Eq, Structural)]
pub struct Pos2 {
    pub x: i64,
    pub y: i64,
}

/// Whether `probe` lies in the box whose minimum corner is `position` and
/// whose extent is `width` by `height`. The box is half-open: its minimum
/// edges belong to it, its maximum edges do not.
pub open spec fn spec_contains(position: Pos2, width: int, height: int, probe: Pos2) -> bool {
    &&& position.x <= probe.x < position.x + width
    &&& position.y <= probe.y < position.y + height
}

/// Axis-aligned, half-open bounding-box hit test.
pub fn contains(position: Pos2, width: i64, height: i64, probe: Pos2) -> (hit: bool)
    ensures
        hit == spec_contains(position, width as int, height as int, probe),
{
    position.x <= probe.x && (probe.x as i128) < position.x as i128 + width as i128
        && position.y <= probe.y && (probe.y as i128) < position.y as i128 + height as i128
}

/// The index of the multiple of `unit` nearest to `rel`. A value halfway
/// between two multiples goes to the one farther from zero.
pub open spec fn round_div(rel: int, unit: int) -> int {
    if rel >= 0 {
        (2 * rel + unit) / (2 * unit)
    } else {
        -((unit - 2 * rel) / (2 * unit))
    }
}

/// The grid index of an offset `rel` from the origin: nothing is placed at
/// a negative index, so every offset at or before the origin has index `0`.
pub open spec fn spec_snap_index(rel: int, unit: int) -> int {
    if rel <= 0 {
        0
    } else {
        round_div(rel, unit)
    }
}

/// The grid line nearest to `raw` on an axis with the given origin and unit.
pub open spec fn spec_snap_axis(raw: int, origin: int, unit: int) -> int {
    origin + spec_snap_index(raw - origin, unit) * unit
}

/// The column line nearest to `raw_x`.
pub open spec fn spec_snap_x(raw_x: int) -> int {
    spec_snap_axis(raw_x, ORIGIN_X as int, GRID_UNIT as int)
}

/// The rail line nearest to `raw_y`.
pub open spec fn spec_snap_rail(raw_y: int) -> int {
    spec_snap_axis(raw_y, ORIGIN_Y as int, RAIL_HEIGHT as int)
}

/// Whether both snapped coordinates of `raw` are representable.
pub open spec fn spec_can_snap(raw: Pos2) -> bool {
    &&& spec_snap_x(raw.x as int) <= i64::MAX
    &&& spec_snap_rail(raw.y as int) <= i64::MAX
}

/// The grid point nearest to `raw`, each axis snapped on its own.
pub open spec fn spec_snap(raw: Pos2) -> Pos2 {
    Pos2 { x: spec_snap_x(raw.x as int) as i64, y: spec_snap_rail(raw.y as int) as i64 }
}

/// Snapping on one axis, computed wide enough that nothing overflows.
fn snap_axis(raw: i64, origin: i64, unit: i64) -> (line: i128)
    requires
        unit > 0,
    ensures
        line == spec_snap_axis(raw as int, origin as int, unit as int),
        origin <= line,
{
    if raw <= origin {
        return origin as i128;
    }
    let rel: i128 = raw as i128 - origin as i128;
    let wide_unit: i128 = unit as i128;
    let index: i128 = (2 * rel + wide_unit) / (2 * wide_unit);
    assert(0 <= index * wide_unit <= rel + wide_unit) by (nonlinear_arith)
        requires
            index == (2 * rel + wide_unit) / (2 * wide_unit),
            rel > 0,
            wide_unit > 0,
    ;
    origin as i128 + index * wide_unit
}

/// Whether `snap_x` accepts `raw_x`.
pub fn can_snap_x(raw_x: i64) -> (ok: bool)
    ensures
        ok == (spec_snap_x(raw_x as int) <= i64::MAX),
{
    snap_axis(raw_x, ORIGIN_X, GRID_UNIT) <= i64::MAX as i128
}

/// Whether `snap_rail` accepts `raw_y`.
pub fn can_snap_rail(raw_y: i64) -> (ok: bool)
    ensures
        ok == (spec_snap_rail(raw_y as int) <= i64::MAX),
{
    snap_axis(raw_y, ORIGIN_Y, RAIL_HEIGHT) <= i64::MAX as i128
}

/// Whether `snap` accepts `raw`.
pub fn can_snap(raw: Pos2) -> (ok: bool)
    ensures
        ok == spec_can_snap(raw),
{
    can_snap_x(raw.x) && can_snap_rail(raw.y)
}

/// Snaps a raw horizontal coordinate to the nearest column line; everything
/// left of the first column goes to the first column.
pub fn snap_x(raw_x: i64) -> (grid_x: i64)
    requires
        spec_snap_x(raw_x as int) <= i64::MAX,
    ensures
        grid_x == spec_snap_x(raw_x as int),
{
    snap_axis(raw_x, ORIGIN_X, GRID_UNIT) as i64
}

/// Snaps a raw vertical coordinate to the nearest rail line; everything
/// above the first rail goes to the first rail.
pub fn snap_rail(raw_y: i64) -> (grid_y: i64)
    requires
        spec_snap_rail(raw_y as int) <= i64::MAX,
    ensures
        grid_y == spec_snap_rail(raw_y as int),
{
    snap_axis(raw_y, ORIGIN_Y, RAIL_HEIGHT) as i64
}

/// Snaps a raw position to the grid, each axis on its own.
pub fn snap(raw: Pos2) -> (grid_pos: Pos2)
    requires
        spec_can_snap(raw),
    ensures
        grid_pos == spec_snap(raw),
{
    Pos2 { x: snap_x(raw.x), y: snap_rail(raw.y) }
}

/// The cell `(column, row)` of a position: on each axis the index of the
/// nearest grid line. Unlike snapping this does not clamp, so a position
/// before the origin has a negative index.
pub open spec fn spec_grid_index_of(pos: Pos2) -> (int, int) {
    (
        round_div(pos.x - ORIGIN_X, GRID_UNIT as int),
        round_div(pos.y - ORIGIN_Y, RAIL_HEIGHT as int),
    )
}

/// Whether `pos` lies on a column line and on a rail line, at or after the
/// origin on both axes.
pub open spec fn on_grid(pos: Pos2) -> bool {
    &&& pos.x >= ORIGIN_X
    &&& (pos.x - ORIGIN_X) % (GRID_UNIT as int) == 0
    &&& pos.y >= ORIGIN_Y
    &&& (pos.y - ORIGIN_Y) % (RAIL_HEIGHT as int) == 0
}

/// Whether `pos` is a grid position.
pub fn is_on_grid(pos: Pos2) -> (ok: bool)
    ensures
        ok == on_grid(pos),
{
    pos.x >= ORIGIN_X && (pos.x - ORIGIN_X) % GRID_UNIT == 0 && pos.y >= ORIGIN_Y && (pos.y
        - ORIGIN_Y) % RAIL_HEIGHT == 0
}

/// The index of the grid line nearest to `coord` on one axis.
fn axis_index(coord: i64, origin: i64, unit: i64) -> (index: i128)
    requires
        unit > 0,
    ensures
        index == round_div(coord - origin, unit as int),
{
    let rel: i128 = coord as i128 - origin as i128;
    let wide_unit: i128 = unit as i128;
    if rel >= 0 {
        (2 * rel + wide_unit) / (2 * wide_unit)
    } else {
        let mirrored: i128 = (wide_unit - 2 * rel) / (2 * wide_unit);
        -mirrored
    }
}

/// Maps a position back to its cell `(column, row)`. On a grid position
/// this inverts snapping exactly; elsewhere it gives the nearest cell.
pub fn grid_index_of(pos: Pos2) -> (cell: (i64, i64))
    ensures
        (cell.0 as int, cell.1 as int) == spec_grid_index_of(pos),
{
    let col: i128 = axis_index(pos.x, ORIGIN_X, GRID_UNIT);
    let row: i128 = axis_index(pos.y, ORIGIN_Y, RAIL_HEIGHT);
    (col as i64, row as i64)
}

/// Snapping a horizontal coordinate twice gives what snapping it once gives.
pub proof fn lemma_snap_x_idempotent(raw_x: int)
    ensures
        spec_snap_x(spec_snap_x(raw_x)) == spec_snap_x(raw_x),
{
}

/// Snapping a vertical coordinate twice gives what snapping it once gives.
pub proof fn lemma_snap_rail_idempotent(raw_y: int)
    ensures
        spec_snap_rail(spec_snap_rail(raw_y)) == spec_snap_rail(raw_y),
{
}

/// A snapped position can be snapped again, and stays where it is.
pub proof fn lemma_snap_idempotent(raw: Pos2)
    requires
        spec_can_snap(raw),
    ensures
        spec_can_snap(spec_snap(raw)),
        spec_snap(spec_snap(raw)) == spec_snap(raw),
{
    lemma_snap_x_idempotent(raw.x as int);
    lemma_snap_rail_idempotent(raw.y as int);
}

/// A snapped position lies on the grid, never farther than half a unit
/// from the raw position once the raw position is past the origin.
pub proof fn lemma_snap_on_grid(raw: Pos2)
    requires
        spec_can_snap(raw),
    ensures
        on_grid(spec_snap(raw)),
        raw.x >= ORIGIN_X ==> -GRID_UNIT <= 2 * (spec_snap(raw).x - raw.x) <= GRID_UNIT,
        raw.y >= ORIGIN_Y ==> -RAIL_HEIGHT <= 2 * (spec_snap(raw).y - raw.y) <= RAIL_HEIGHT,
        raw.x <= ORIGIN_X ==> spec_snap(raw).x == ORIGIN_X,
        raw.y <= ORIGIN_Y ==> spec_snap(raw).y == ORIGIN_Y,
{
}

/// The positions that snapping leaves unchanged are exactly the grid
/// positions.
pub proof fn lemma_on_grid_iff_fixed(pos: Pos2)
    ensures
        on_grid(pos) <==> (spec_can_snap(pos) && spec_snap(pos) == pos),
{
}

/// A whole multiple of the unit has its own factor as index: nothing is
/// rounded.
pub proof fn lemma_round_div_of_multiple(index: int, unit: int)
    requires
        unit > 0,
    ensures
        round_div(index * unit, unit) == index,
{
    if index >= 0 {
        assert(index * unit >= 0) by (nonlinear_arith)
            requires
                index >= 0,
                unit > 0,
        ;
        assert(2 * (index * unit) + unit == index * (2 * unit) + unit) by (nonlinear_arith);
        lemma_fundamental_div_mod_converse(2 * (index * unit) + unit, 2 * unit, index, unit);
    } else {
        assert(index * unit < 0) by (nonlinear_arith)
            requires
                index < 0,
                unit > 0,
        ;
        assert(unit - 2 * (index * unit) == (-index) * (2 * unit) + unit) by (nonlinear_arith);
        lemma_fundamental_div_mod_converse(unit - 2 * (index * unit), 2 * unit, -index, unit);
    }
}

/// On a grid position the cell is exact: the position is the origin plus
/// whole columns and whole rails, and the indices are those of snapping.
pub proof fn lemma_grid_index_exact(pos: Pos2)
    requires
        on_grid(pos),
    ensures
        pos.x == ORIGIN_X + spec_grid_index_of(pos).0 * GRID_UNIT,
        pos.y == ORIGIN_Y + spec_grid_index_of(pos).1 * RAIL_HEIGHT,
        spec_grid_index_of(pos).0 == spec_snap_index(pos.x - ORIGIN_X, GRID_UNIT as int),
        spec_grid_index_of(pos).1 == spec_snap_index(pos.y - ORIGIN_Y, RAIL_HEIGHT as int),
        spec_grid_index_of(pos).0 >= 0,
        spec_grid_index_of(pos).1 >= 0,
{
    let col: int = (pos.x - ORIGIN_X) / (GRID_UNIT as int);
    let row: int = (pos.y - ORIGIN_Y) / (RAIL_HEIGHT as int);
    assert(pos.x - ORIGIN_X == col * GRID_UNIT);
    assert(pos.y - ORIGIN_Y == row * RAIL_HEIGHT);
    lemma_round_div_of_multiple(col, GRID_UNIT as int);
    lemma_round_div_of_multiple(row, RAIL_HEIGHT as int);
}

/// Two grid positions in the same cell are the same position.
pub proof fn lemma_same_cell_same_position(a: Pos2, b: Pos2)
    requires
        on_grid(a),
        on_grid(b),
        spec_grid_index_of(a) == spec_grid_index_of(b),
    ensures
        a == b,
{
    lemma_grid_index_exact(a);
    lemma_grid_index_exact(b);
}

} // verus!
