//! Storing a rack and loading it again, mathematically: the records that a
//! rack is stored as, the rack that records are loaded as, and how the two
//! relate.

use crate::grid::{on_grid, spec_grid_index_of, Pos2};
use crate::models::plugin::{Plugin, PluginState, TextureId};
use crate::models::rack::{consistent, deselected, ids_below};
use vstd::prelude::*;

verus! {

/// The records that store the rack, in rack order.
pub open spec fn snapshot(plugins: Seq<Plugin>) -> Seq<PluginState> {
    plugins.map_values(|p: Plugin| p.state())
}

/// The position that a record stores.
pub open spec fn record_position(record: PluginState) -> Pos2 {
    Pos2 { x: record.x, y: record.y }
}

/// Whether records describe a consistent rack: positions on the grid, one
/// record per cell, ids strictly increasing.
pub open spec fn records_consistent(records: Seq<PluginState>) -> bool {
    &&& forall|i: int|
        0 <= i < records.len() ==> on_grid(record_position(#[trigger] records[i]))
    &&& forall|i: int, j: int|
        0 <= i < j < records.len() ==> spec_grid_index_of(record_position(#[trigger] records[i]))
            != spec_grid_index_of(record_position(#[trigger] records[j]))
    &&& forall|i: int, j: int|
        0 <= i < j < records.len() ==> (#[trigger] records[i]).id < (#[trigger] records[j]).id
}

/// The stored form of a consistent rack is consistent.
pub proof fn lemma_snapshot_consistent(plugins: Seq<Plugin>, next_id: nat)
    requires
        consistent(plugins, next_id),
    ensures
        records_consistent(snapshot(plugins)),
        forall|i: int|
            0 <= i < snapshot(plugins).len() ==> (#[trigger] snapshot(plugins)[i]).id < next_id,
{
    let records = snapshot(plugins);
    assert forall|i: int| 0 <= i < records.len() implies on_grid(
        record_position(#[trigger] records[i]),
    ) && records[i].id < next_id by {
        assert(on_grid(plugins[i].position));
    }
    assert forall|i: int, j: int| 0 <= i < j < records.len() implies spec_grid_index_of(
        record_position(#[trigger] records[i]),
    ) != spec_grid_index_of(record_position(#[trigger] records[j])) && records[i].id
        < records[j].id by {
        assert(plugins[i].cell() != plugins[j].cell());
        assert(plugins[i].id < plugins[j].id);
    }
}

/// The rack that loading `records` gives: each record's plugin with
/// `texture` attached, and none of them selected whatever was stored.
pub open spec fn restored(records: Seq<PluginState>, texture: Option<TextureId>) -> Seq<
    Plugin,
> {
    records.map_values(|s: PluginState| Plugin::of_state(s, texture).with_selected(false))
}

/// One more than the highest id among `records`, and `0` for no records.
pub open spec fn one_past_highest_id(records: Seq<PluginState>) -> nat
    decreases records.len(),
{
    if records.len() == 0 {
        0
    } else {
        let before: nat = one_past_highest_id(records.drop_last());
        let last: nat = (records.last().id + 1) as nat;
        if last > before {
            last
        } else {
            before
        }
    }
}

/// The id counter after loading `records` into a rack whose counter was
/// `next_id`: never lower than before, and past every loaded id.
pub open spec fn next_id_after_load(next_id: nat, records: Seq<PluginState>) -> nat {
    let bound: nat = one_past_highest_id(records);
    if bound > next_id {
        bound
    } else {
        next_id
    }
}

/// `one_past_highest_id` is above every id among the records, and it is
/// the least such number: `0`, or one more than an id that occurs.
pub proof fn lemma_one_past_highest_id(records: Seq<PluginState>)
    ensures
        forall|i: int|
            0 <= i < records.len() ==> (#[trigger] records[i]).id < one_past_highest_id(records),
        records.len() == 0 ==> one_past_highest_id(records) == 0,
        records.len() > 0 ==> exists|i: int|
            0 <= i < records.len() && one_past_highest_id(records) == (#[trigger] records[i]).id
                + 1,
    decreases records.len(),
{
    if records.len() > 0 {
        let before = records.drop_last();
        lemma_one_past_highest_id(before);
        assert forall|i: int| 0 <= i < records.len() implies (#[trigger] records[i]).id
            < one_past_highest_id(records) by {
            if i < before.len() {
                assert(before[i].id < one_past_highest_id(before));
            }
        }
        if one_past_highest_id(records) == records.last().id + 1 {
            assert(records[records.len() - 1].id + 1 == one_past_highest_id(records));
        } else {
            let i: int = choose|i: int|
                0 <= i < before.len() && one_past_highest_id(before) == (#[trigger] before[i]).id
                    + 1;
            assert(records[i].id + 1 == one_past_highest_id(records));
        }
    }
}

/// Loading gives a consistent rack exactly when the records describe one.
pub proof fn lemma_restored_consistent(
    records: Seq<PluginState>,
    texture: Option<TextureId>,
    next_id: nat,
)
    ensures
        ids_below(restored(records, texture), next_id_after_load(next_id, records)),
        consistent(restored(records, texture), next_id_after_load(next_id, records))
            == records_consistent(records),
{
    let plugins = restored(records, texture);
    lemma_one_past_highest_id(records);
    assert forall|i: int| 0 <= i < plugins.len() implies (#[trigger] plugins[i]).id
        < next_id_after_load(next_id, records) by {
        assert(records[i].id < one_past_highest_id(records));
    }
    if records_consistent(records) {
        assert forall|i: int| 0 <= i < plugins.len() implies on_grid(
            (#[trigger] plugins[i]).position,
        ) by {
            assert(on_grid(record_position(records[i])));
        }
        assert forall|i: int, j: int| 0 <= i < j < plugins.len() implies (
        #[trigger] plugins[i]).cell() != (#[trigger] plugins[j]).cell() && plugins[i].id
            < plugins[j].id by {
            assert(record_position(records[i]) == plugins[i].position);
            assert(record_position(records[j]) == plugins[j].position);
            assert(records[i].id < records[j].id);
        }
    }
    if consistent(plugins, next_id_after_load(next_id, records)) {
        assert forall|i: int| 0 <= i < records.len() implies on_grid(
            record_position(#[trigger] records[i]),
        ) by {
            assert(on_grid(plugins[i].position));
        }
        assert forall|i: int, j: int| 0 <= i < j < records.len() implies spec_grid_index_of(
            record_position(#[trigger] records[i]),
        ) != spec_grid_index_of(record_position(#[trigger] records[j])) && records[i].id
            < records[j].id by {
            assert(plugins[i].cell() != plugins[j].cell());
            assert(plugins[i].id < plugins[j].id);
        }
    }
}

/// Storing a rack and loading it again gives the same plugins in the same
/// order: same ids, same positions, the given texture, none selected.
pub proof fn lemma_restored_snapshot(plugins: Seq<Plugin>, texture: Option<TextureId>)
    ensures
        restored(snapshot(plugins), texture).len() == plugins.len(),
        forall|i: int|
            0 <= i < plugins.len() ==> (#[trigger] restored(snapshot(plugins), texture)[i]) == (
            Plugin { texture, selected: false, ..plugins[i] }),
        snapshot(restored(snapshot(plugins), texture)) == snapshot(deselected(plugins)),
{
    assert(snapshot(restored(snapshot(plugins), texture)) =~= snapshot(deselected(plugins)));
}

/// Loading what was stored from a rack leaves the rack's id counter where
/// it was, and the rack consistent if it was.
pub proof fn lemma_restored_snapshot_counter(
    plugins: Seq<Plugin>,
    next_id: nat,
    texture: Option<TextureId>,
)
    requires
        ids_below(plugins, next_id),
    ensures
        next_id_after_load(next_id, snapshot(plugins)) == next_id,
        consistent(plugins, next_id) ==> consistent(
            restored(snapshot(plugins), texture),
            next_id,
        ),
{
    let records = snapshot(plugins);
    lemma_one_past_highest_id(records);
    if records.len() > 0 {
        let i: int = choose|i: int|
            0 <= i < records.len() && one_past_highest_id(records) == (#[trigger] records[i]).id
                + 1;
        assert(plugins[i].id < next_id);
    }
    if consistent(plugins, next_id) {
        lemma_snapshot_consistent(plugins, next_id);
        lemma_restored_consistent(records, texture, next_id);
    }
}

} // verus!
