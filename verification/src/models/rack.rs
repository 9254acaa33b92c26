//! What a rack is, mathematically: a sequence of plugins in the order they
//! were placed. The manager's operations on the rack in memory are stated
//! over these functions, and the laws that hold of them are proved here.

use crate::grid::{
    lemma_grid_index_exact, lemma_snap_on_grid, on_grid, spec_can_snap, spec_grid_index_of,
    spec_snap, Pos2,
};
use crate::models::plugin::{Plugin, TextureId};
use vstd::prelude::*;

verus! {

/// Whether `i` is the first plugin, in rack order, whose hit box holds
/// `pos`.
pub open spec fn is_first_hit(plugins: Seq<Plugin>, pos: Pos2, i: int) -> bool {
    &&& 0 <= i < plugins.len()
    &&& plugins[i].covers(pos)
    &&& forall|j: int| 0 <= j < i ==> !(#[trigger] plugins[j]).covers(pos)
}

/// The index of the first plugin whose hit box holds `pos`, if any does.
pub open spec fn hit_index(plugins: Seq<Plugin>, pos: Pos2) -> Option<int> {
    if exists|i: int| is_first_hit(plugins, pos, i) {
        Some(choose|i: int| is_first_hit(plugins, pos, i))
    } else {
        None
    }
}

/// A first hit is the only first hit, so it is what `hit_index` names.
pub proof fn lemma_first_hit_is_hit_index(plugins: Seq<Plugin>, pos: Pos2, i: int)
    requires
        is_first_hit(plugins, pos, i),
    ensures
        hit_index(plugins, pos) == Some(i),
{
    let chosen: int = choose|k: int| is_first_hit(plugins, pos, k);
    assert(is_first_hit(plugins, pos, chosen));
    if chosen < i {
        assert(!plugins[chosen].covers(pos));
    } else if i < chosen {
        assert(!plugins[i].covers(pos));
    }
}

/// Among the first `n` plugins either none covers `pos` or one of them is
/// the first hit.
proof fn lemma_first_hit_exists(plugins: Seq<Plugin>, pos: Pos2, n: int)
    requires
        0 <= n <= plugins.len(),
    ensures
        (forall|j: int| 0 <= j < n ==> !(#[trigger] plugins[j]).covers(pos)) || (exists|i: int|
            i < n && is_first_hit(plugins, pos, i)),
    decreases n,
{
    if n > 0 {
        lemma_first_hit_exists(plugins, pos, n - 1);
        if forall|j: int| 0 <= j < n - 1 ==> !(#[trigger] plugins[j]).covers(pos) {
            if plugins[n - 1].covers(pos) {
                assert(is_first_hit(plugins, pos, n - 1));
            }
        } else {
            let i: int = choose|i: int| i < n - 1 && is_first_hit(plugins, pos, i);
            assert(i < n && is_first_hit(plugins, pos, i));
        }
    }
}

/// `hit_index` is `None` exactly when no plugin covers `pos`, and otherwise
/// names the first that does.
pub proof fn lemma_hit_index(plugins: Seq<Plugin>, pos: Pos2)
    ensures
        hit_index(plugins, pos) is None <==> forall|j: int|
            0 <= j < plugins.len() ==> !(#[trigger] plugins[j]).covers(pos),
        hit_index(plugins, pos) matches Some(i) ==> is_first_hit(plugins, pos, i),
{
    lemma_first_hit_exists(plugins, pos, plugins.len() as int);
    if hit_index(plugins, pos) is Some {
        let i: int = hit_index(plugins, pos).unwrap();
        assert(is_first_hit(plugins, pos, i));
        assert(plugins[i].covers(pos));
    }
}

/// Every plugin sits on a grid position.
pub open spec fn all_on_grid(plugins: Seq<Plugin>) -> bool {
    forall|i: int| 0 <= i < plugins.len() ==> on_grid((#[trigger] plugins[i]).position)
}

/// No two plugins share a grid cell.
pub open spec fn cells_unique(plugins: Seq<Plugin>) -> bool {
    forall|i: int, j: int|
        0 <= i < j < plugins.len() ==> (#[trigger] plugins[i]).cell() != (
        #[trigger] plugins[j]).cell()
}

/// Ids grow strictly along the rack, so none occurs twice.
pub open spec fn ids_increasing(plugins: Seq<Plugin>) -> bool {
    forall|i: int, j: int|
        0 <= i < j < plugins.len() ==> (#[trigger] plugins[i]).id < (#[trigger] plugins[j]).id
}

/// Every id in the rack is smaller than `next_id`.
pub open spec fn ids_below(plugins: Seq<Plugin>, next_id: nat) -> bool {
    forall|i: int| 0 <= i < plugins.len() ==> (#[trigger] plugins[i]).id < next_id
}

/// The rack's invariant: plugins on the grid, one per cell, ids strictly
/// increasing in rack order and all below the next id to hand out.
pub open spec fn consistent(plugins: Seq<Plugin>, next_id: nat) -> bool {
    &&& all_on_grid(plugins)
    &&& cells_unique(plugins)
    &&& ids_increasing(plugins)
    &&& ids_below(plugins, next_id)
}

/// On a rack with one plugin per cell, all on the grid, hit boxes do not
/// overlap: at most one plugin covers a position.
pub proof fn lemma_hit_is_unique(plugins: Seq<Plugin>, pos: Pos2, i: int, j: int)
    requires
        all_on_grid(plugins),
        cells_unique(plugins),
        0 <= i < plugins.len(),
        0 <= j < plugins.len(),
        plugins[i].covers(pos),
        plugins[j].covers(pos),
    ensures
        i == j,
{
    if i != j {
        lemma_grid_index_exact(plugins[i].position);
        lemma_grid_index_exact(plugins[j].position);
        if i < j {
            assert(plugins[i].cell() != plugins[j].cell());
        } else {
            assert(plugins[j].cell() != plugins[i].cell());
        }
    }
}

/// Whether some plugin occupies the grid cell `cell`.
pub open spec fn occupied(plugins: Seq<Plugin>, cell: (int, int)) -> bool {
    exists|i: int| 0 <= i < plugins.len() && (#[trigger] plugins[i]).cell() == cell
}

/// The plugin that placing at `raw` creates: on the grid, unselected.
pub open spec fn placed(raw: Pos2, texture: Option<TextureId>, id: usize) -> Plugin {
    Plugin { texture, position: spec_snap(raw), selected: false, id }
}

/// Whether a placement at `raw` is accepted: the cell it snaps to is free.
pub open spec fn accepts(plugins: Seq<Plugin>, raw: Pos2) -> bool {
    !occupied(plugins, spec_grid_index_of(spec_snap(raw)))
}

/// The rack after a placement at `raw`: one plugin more, at the end, if
/// the cell was free, and the same rack if it was not.
pub open spec fn added(
    plugins: Seq<Plugin>,
    raw: Pos2,
    texture: Option<TextureId>,
    id: usize,
) -> Seq<Plugin> {
    if accepts(plugins, raw) {
        plugins.push(placed(raw, texture, id))
    } else {
        plugins
    }
}

/// A placement keeps the rack consistent, when its id is the rack's next.
pub proof fn lemma_added_consistent(
    plugins: Seq<Plugin>,
    next_id: nat,
    raw: Pos2,
    texture: Option<TextureId>,
)
    requires
        consistent(plugins, next_id),
        spec_can_snap(raw),
        next_id < usize::MAX,
    ensures
        consistent(
            added(plugins, raw, texture, next_id as usize),
            if accepts(plugins, raw) {
                next_id + 1
            } else {
                next_id
            },
        ),
{
    lemma_snap_on_grid(raw);
}

/// A placement never puts two plugins into one cell.
pub proof fn lemma_added_cells_unique(
    plugins: Seq<Plugin>,
    raw: Pos2,
    texture: Option<TextureId>,
    id: usize,
)
    requires
        cells_unique(plugins),
    ensures
        cells_unique(added(plugins, raw, texture, id)),
{
}

/// The rack after a run of placements, made in order. Each accepted
/// placement takes the next id.
pub open spec fn added_all(
    plugins: Seq<Plugin>,
    next_id: nat,
    placements: Seq<(Pos2, Option<TextureId>)>,
) -> Seq<Plugin>
    decreases placements.len(),
{
    if placements.len() == 0 {
        plugins
    } else {
        let (raw, texture) = placements.first();
        added_all(
            added(plugins, raw, texture, next_id as usize),
            if accepts(plugins, raw) {
                next_id + 1
            } else {
                next_id
            },
            placements.drop_first(),
        )
    }
}

/// Occupancy is unique after any run of placements: no two plugins share
/// a grid cell, wherever the placements were aimed.
pub proof fn lemma_added_all_cells_unique(
    plugins: Seq<Plugin>,
    next_id: nat,
    placements: Seq<(Pos2, Option<TextureId>)>,
)
    requires
        cells_unique(plugins),
    ensures
        cells_unique(added_all(plugins, next_id, placements)),
    decreases placements.len(),
{
    if placements.len() > 0 {
        let (raw, texture) = placements.first();
        lemma_added_cells_unique(plugins, raw, texture, next_id as usize);
        lemma_added_all_cells_unique(
            added(plugins, raw, texture, next_id as usize),
            if accepts(plugins, raw) {
                next_id + 1
            } else {
                next_id
            },
            placements.drop_first(),
        );
    }
}

/// The rack with the first plugin under `pos` taken out, or the same rack
/// if there is none.
pub open spec fn removed_at(plugins: Seq<Plugin>, pos: Pos2) -> Seq<Plugin> {
    match hit_index(plugins, pos) {
        Some(i) => plugins.remove(i),
        None => plugins,
    }
}

/// The rack with nothing selected.
pub open spec fn deselected(plugins: Seq<Plugin>) -> Seq<Plugin> {
    plugins.map_values(|p: Plugin| p.with_selected(false))
}

/// The rack after a click at `pos`. On empty space the selection is
/// cleared. On a plugin a plain click selects it alone, and an additive
/// click selects it and leaves the others as they are.
pub open spec fn selected_at(plugins: Seq<Plugin>, pos: Pos2, additive: bool) -> Seq<Plugin> {
    match hit_index(plugins, pos) {
        Some(i) => {
            let others = if additive {
                plugins
            } else {
                deselected(plugins)
            };
            others.update(i, plugins[i].with_selected(true))
        },
        None => deselected(plugins),
    }
}

/// A plain click on a plugin selects it alone: whatever was selected
/// before, afterwards the clicked plugin is selected and no other is, and
/// nothing but the selection flags has changed.
pub proof fn lemma_plain_click_selects_alone(plugins: Seq<Plugin>, pos: Pos2, clicked: int)
    requires
        is_first_hit(plugins, pos, clicked),
    ensures
        selected_at(plugins, pos, false).len() == plugins.len(),
        forall|j: int|
            0 <= j < plugins.len() ==> (#[trigger] selected_at(plugins, pos, false)[j])
                == plugins[j].with_selected(j == clicked),
{
    lemma_first_hit_is_hit_index(plugins, pos, clicked);
}

/// An additive click on a plugin selects it and changes nothing else.
pub proof fn lemma_additive_click_keeps_others(plugins: Seq<Plugin>, pos: Pos2, clicked: int)
    requires
        is_first_hit(plugins, pos, clicked),
    ensures
        selected_at(plugins, pos, true).len() == plugins.len(),
        selected_at(plugins, pos, true)[clicked] == plugins[clicked].with_selected(true),
        forall|j: int|
            0 <= j < plugins.len() && j != clicked ==> (#[trigger] selected_at(
                plugins,
                pos,
                true,
            )[j]) == plugins[j],
{
    lemma_first_hit_is_hit_index(plugins, pos, clicked);
}

/// A click where no plugin is clears the selection, additive or not, and
/// changes nothing else.
pub proof fn lemma_click_outside_clears_all(plugins: Seq<Plugin>, pos: Pos2, additive: bool)
    requires
        forall|j: int| 0 <= j < plugins.len() ==> !(#[trigger] plugins[j]).covers(pos),
    ensures
        selected_at(plugins, pos, additive).len() == plugins.len(),
        forall|j: int|
            0 <= j < plugins.len() ==> (#[trigger] selected_at(plugins, pos, additive)[j])
                == plugins[j].with_selected(false),
{
    lemma_hit_index(plugins, pos);
}

/// Whether `i` is the first plugin, in rack order, with the id `id`.
pub open spec fn is_first_with_id(plugins: Seq<Plugin>, id: usize, i: int) -> bool {
    &&& 0 <= i < plugins.len()
    &&& plugins[i].id == id
    &&& forall|k: int| 0 <= k < i ==> (#[trigger] plugins[k]).id != id
}

/// The rack with the first plugin of the id `id` selected and no other. If
/// no plugin has that id, nothing is selected.
pub open spec fn selected_by_id(plugins: Seq<Plugin>, id: usize) -> Seq<Plugin> {
    Seq::new(
        plugins.len(),
        |j: int| plugins[j].with_selected(is_first_with_id(plugins, id, j)),
    )
}

/// Where ids are unique, selecting a plugin by its id is a plain click on
/// it.
pub proof fn lemma_selected_by_id_is_plain_click(plugins: Seq<Plugin>, pos: Pos2, clicked: int)
    requires
        ids_increasing(plugins),
        is_first_hit(plugins, pos, clicked),
    ensures
        selected_by_id(plugins, plugins[clicked].id) == selected_at(plugins, pos, false),
{
    lemma_plain_click_selects_alone(plugins, pos, clicked);
    let id: usize = plugins[clicked].id;
    assert forall|j: int| 0 <= j < plugins.len() implies is_first_with_id(plugins, id, j) == (j
        == clicked) by {
        if j < clicked {
            assert(plugins[j].id < plugins[clicked].id);
        } else if j > clicked {
            assert(plugins[clicked].id < plugins[j].id);
        } else {
            assert forall|k: int| 0 <= k < clicked implies (#[trigger] plugins[k]).id != id by {
                assert(plugins[k].id < plugins[clicked].id);
            }
        }
    }
    assert(selected_by_id(plugins, id) =~= selected_at(plugins, pos, false));
}

/// The rack after a pointer click at `raw`, which counts where it snaps
/// to: on a plugin the click selects, on empty space it clears the
/// selection and places a plugin.
pub open spec fn clicked(
    plugins: Seq<Plugin>,
    raw: Pos2,
    additive: bool,
    texture: Option<TextureId>,
    id: usize,
) -> Seq<Plugin> {
    if hit_index(plugins, spec_snap(raw)) is Some {
        selected_at(plugins, spec_snap(raw), additive)
    } else {
        added(deselected(plugins), raw, texture, id)
    }
}

/// Whether a pointer click at `raw` places a plugin: it snaps to a spot
/// that no plugin covers, in a cell that no plugin occupies.
pub open spec fn click_places(plugins: Seq<Plugin>, raw: Pos2) -> bool {
    hit_index(plugins, spec_snap(raw)) is None && accepts(deselected(plugins), raw)
}

/// The selected plugins, in rack order.
pub open spec fn selection(plugins: Seq<Plugin>) -> Seq<Plugin> {
    plugins.filter(|p: Plugin| p.selected)
}

/// Taking one more plugin into account extends the selection by it, or
/// not at all.
pub proof fn lemma_selection_push(plugins: Seq<Plugin>, plugin: Plugin)
    ensures
        selection(plugins.push(plugin)) == if plugin.selected {
            selection(plugins).push(plugin)
        } else {
            selection(plugins)
        },
{
    plugins.lemma_filter_push(plugin, |p: Plugin| p.selected);
}

/// The rack without its selected plugins, the others in their order.
pub open spec fn without_selected(plugins: Seq<Plugin>) -> Seq<Plugin> {
    plugins.filter(|p: Plugin| !p.selected)
}

/// Taking one more plugin into account extends the unselected plugins by
/// it, or not at all.
pub proof fn lemma_without_selected_push(plugins: Seq<Plugin>, plugin: Plugin)
    ensures
        without_selected(plugins.push(plugin)) == if plugin.selected {
            without_selected(plugins)
        } else {
            without_selected(plugins).push(plugin)
        },
{
    plugins.lemma_filter_push(plugin, |p: Plugin| !p.selected);
}

/// Whether `first` stands somewhere before `second` in `plugins`.
pub open spec fn stands_before(plugins: Seq<Plugin>, first: Plugin, second: Plugin) -> bool {
    exists|i: int, j: int|
        0 <= i < j < plugins.len() && plugins[i] == first && plugins[j] == second
}

/// Whether `part` holds plugins of `whole` only, in the order in which
/// they stand in `whole`.
pub open spec fn keeps_order(part: Seq<Plugin>, whole: Seq<Plugin>) -> bool {
    &&& forall|k: int| 0 <= k < part.len() ==> whole.contains(#[trigger] part[k])
    &&& forall|k1: int, k2: int|
        0 <= k1 < k2 < part.len() ==> stands_before(whole, #[trigger] part[k1], #[trigger] part[k2])
}

/// What a filter keeps: plugins that pass, all of those that pass, and in
/// the order in which they stood.
pub proof fn lemma_filter_precise(plugins: Seq<Plugin>, keep: spec_fn(Plugin) -> bool)
    ensures
        forall|k: int|
            0 <= k < plugins.filter(keep).len() ==> keep(#[trigger] plugins.filter(keep)[k]),
        forall|i: int|
            0 <= i < plugins.len() && keep(#[trigger] plugins[i]) ==> plugins.filter(
                keep,
            ).contains(plugins[i]),
        keeps_order(plugins.filter(keep), plugins),
        plugins.filter(keep).len() <= plugins.len(),
    decreases plugins.len(),
{
    let rest = plugins.filter(keep);
    if plugins.len() == 0 {
        reveal(Seq::filter);
    } else {
        let before = plugins.drop_last();
        let last = plugins.last();
        let rest_before = before.filter(keep);
        lemma_filter_precise(before, keep);
        assert(plugins =~= before.push(last));
        before.lemma_filter_push(last, keep);
        assert forall|k: int| 0 <= k < rest_before.len() implies plugins.contains(
            #[trigger] rest_before[k],
        ) by {
            let i: int = choose|i: int| 0 <= i < before.len() && before[i] == rest_before[k];
            assert(plugins[i] == rest_before[k]);
        }
        assert forall|i: int|
            0 <= i < plugins.len() && keep(#[trigger] plugins[i]) implies rest.contains(
            plugins[i],
        ) by {
            if i < before.len() {
                assert(keep(before[i]));
                let k: int = choose|k: int|
                    0 <= k < rest_before.len() && rest_before[k] == before[i];
                assert(rest[k] == plugins[i]);
            } else {
                assert(rest[rest.len() - 1] == plugins[i]);
            }
        }
        assert forall|k1: int, k2: int| 0 <= k1 < k2 < rest.len() implies stands_before(
            plugins,
            #[trigger] rest[k1],
            #[trigger] rest[k2],
        ) by {
            if k2 < rest_before.len() {
                assert(stands_before(before, rest_before[k1], rest_before[k2]));
                let (i1, i2): (int, int) = choose|i1: int, i2: int|
                    0 <= i1 < i2 < before.len() && before[i1] == rest_before[k1] && before[i2]
                        == rest_before[k2];
                assert(plugins[i1] == rest[k1] && plugins[i2] == rest[k2]);
            } else {
                let i1: int = choose|i: int|
                    0 <= i < before.len() && before[i] == rest_before[k1];
                assert(plugins[i1] == rest[k1] && plugins[plugins.len() - 1] == rest[k2]);
            }
        }
        assert forall|k: int| 0 <= k < rest.len() implies plugins.contains(#[trigger] rest[k]) by {
            if k >= rest_before.len() {
                assert(plugins[plugins.len() - 1] == rest[k]);
            }
        }
        assert forall|k: int| 0 <= k < rest.len() implies keep(#[trigger] rest[k]) by {
            if k < rest_before.len() {
                assert(keep(rest_before[k]));
            }
        }
    }
}

/// Bulk removal is precise: what stays is unselected and was there before,
/// every unselected plugin stays, and the order of those that stay is
/// their order before.
pub proof fn lemma_without_selected_precise(plugins: Seq<Plugin>)
    ensures
        forall|k: int|
            0 <= k < without_selected(plugins).len() ==> !(#[trigger] without_selected(
                plugins,
            )[k]).selected,
        forall|i: int|
            0 <= i < plugins.len() && !(#[trigger] plugins[i]).selected ==> without_selected(
                plugins,
            ).contains(plugins[i]),
        keeps_order(without_selected(plugins), plugins),
        without_selected(plugins).len() <= plugins.len(),
{
    lemma_filter_precise(plugins, |p: Plugin| !p.selected);
}

/// The rack without the plugins whose id is among `ids`, the others in
/// their order.
pub open spec fn without_ids(plugins: Seq<Plugin>, ids: Seq<usize>) -> Seq<Plugin> {
    plugins.filter(|p: Plugin| !ids.contains(p.id))
}

/// Taking one more plugin into account extends the plugins that stay by
/// it, or not at all.
pub proof fn lemma_without_ids_push(plugins: Seq<Plugin>, ids: Seq<usize>, plugin: Plugin)
    ensures
        without_ids(plugins.push(plugin), ids) == if ids.contains(plugin.id) {
            without_ids(plugins, ids)
        } else {
            without_ids(plugins, ids).push(plugin)
        },
{
    plugins.lemma_filter_push(plugin, |p: Plugin| !ids.contains(p.id));
}

/// Removal by id is precise: what stays has no listed id and was there
/// before, every plugin with an unlisted id stays, and the order of those
/// that stay is their order before.
pub proof fn lemma_without_ids_precise(plugins: Seq<Plugin>, ids: Seq<usize>)
    ensures
        forall|k: int|
            0 <= k < without_ids(plugins, ids).len() ==> !ids.contains(
                (#[trigger] without_ids(plugins, ids)[k]).id,
            ),
        forall|i: int|
            0 <= i < plugins.len() && !ids.contains((#[trigger] plugins[i]).id) ==> without_ids(
                plugins,
                ids,
            ).contains(plugins[i]),
        keeps_order(without_ids(plugins, ids), plugins),
        without_ids(plugins, ids).len() <= plugins.len(),
{
    lemma_filter_precise(plugins, |p: Plugin| !ids.contains(p.id));
}

/// A part of a consistent rack that keeps the rack's order is consistent.
pub proof fn lemma_part_consistent(part: Seq<Plugin>, whole: Seq<Plugin>, next_id: nat)
    requires
        consistent(whole, next_id),
        keeps_order(part, whole),
    ensures
        consistent(part, next_id),
{
    assert forall|k: int| 0 <= k < part.len() implies on_grid((#[trigger] part[k]).position)
        && part[k].id < next_id by {
        let i: int = choose|i: int| 0 <= i < whole.len() && whole[i] == part[k];
        assert(on_grid(whole[i].position));
    }
    assert forall|k1: int, k2: int| 0 <= k1 < k2 < part.len() implies (#[trigger] part[k1]).cell()
        != (#[trigger] part[k2]).cell() && part[k1].id < part[k2].id by {
        assert(stands_before(whole, part[k1], part[k2]));
        let (i1, i2): (int, int) = choose|i1: int, i2: int|
            0 <= i1 < i2 < whole.len() && whole[i1] == part[k1] && whole[i2] == part[k2];
        assert(whole[i1].cell() != whole[i2].cell());
    }
}

/// The plugins' positions, in rack order.
pub open spec fn positions(plugins: Seq<Plugin>) -> Seq<Pos2> {
    plugins.map_values(|p: Plugin| p.position)
}

} // verus!
