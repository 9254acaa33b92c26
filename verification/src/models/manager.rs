//! The rack manager: owner of the plugins and of the id counter.

use crate::grid::{
    can_snap, lemma_snap_idempotent, lemma_snap_on_grid, snap, spec_can_snap,
    spec_grid_index_of, spec_snap, Pos2,
};
use crate::models::plugin::{Plugin, PluginState, RackState, TextureId};
use crate::models::rack::{
    accepts, added, click_places, clicked, consistent, deselected, hit_index, ids_below,
    is_first_with_id, lemma_first_hit_is_hit_index, lemma_hit_index, lemma_part_consistent,
    lemma_selection_push, lemma_without_ids_precise, lemma_without_ids_push,
    lemma_without_selected_precise, lemma_without_selected_push, positions, removed_at,
    selected_at, selected_by_id, selection, without_ids, without_selected,
};
use crate::models::stored::{
    lemma_restored_consistent, next_id_after_load, records_consistent, restored, snapshot,
};
use vstd::prelude::*;

verus! {

/// Whether `id` is among `ids`.
fn is_listed(ids: &Vec<usize>, id: usize) -> (listed: bool)
    ensures
        listed == ids@.contains(id),
{
    let mut i: usize = 0;
    while i < ids.len()
        invariant
            i <= ids.len(),
            forall|k: int| 0 <= k < i ==> ids@[k] != id,
        decreases ids.len() - i,
    {
        if ids[i] == id {
            return true;
        }
        i += 1;
    }
    false
}

/// Owns the plugins of one rack, in the order they were placed, and hands
/// out their ids.
pub struct PluginManager {
    plugins: Vec<Plugin>,
    next_id: usize,
}

impl View for PluginManager {
    type V = Seq<Plugin>;

    /// The plugins, in rack order.
    closed spec fn view(&self) -> Seq<Plugin> {
        self.plugins@
    }
}

impl PluginManager {
    /// The id that the next accepted placement gets.
    pub closed spec fn next_id(&self) -> nat {
        self.next_id as nat
    }

    /// Every id in the rack is below the next id to hand out. An empty
    /// manager has this, loading gives it whatever is loaded, and every
    /// other operation keeps it, consistent rack or not.
    pub open spec fn ids_bounded(&self) -> bool {
        ids_below(self@, self.next_id())
    }

    /// The rack's invariant. An empty manager has it and every operation
    /// keeps it; loading gives it exactly if the loaded state describes a
    /// consistent rack.
    pub open spec fn inv(&self) -> bool {
        consistent(self@, self.next_id())
    }

    /// An empty rack whose first plugin will get id `0`.
    pub fn new() -> (manager: PluginManager)
        ensures
            manager@ == Seq::<Plugin>::empty(),
            manager.next_id() == 0,
            manager.ids_bounded(),
            manager.inv(),
    {
        PluginManager { plugins: Vec::new(), next_id: 0 }
    }

    /// Whether `add_plugin` and `handle_click` accept `position` now: it
    /// can be snapped, and there is an id left to hand out.
    pub fn can_place(&self, position: Pos2) -> (ok: bool)
        ensures
            ok == (spec_can_snap(position) && self.next_id() < usize::MAX),
    {
        can_snap(position) && self.next_id < usize::MAX
    }

    /// Places a new, unselected plugin at the grid position nearest to
    /// `position` and returns its id. Where that cell is taken nothing
    /// changes and `None` is returned.
    pub fn add_plugin(&mut self, position: Pos2, texture: Option<TextureId>) -> (id: Option<
        usize,
    >)
        requires
            spec_can_snap(position),
            old(self).next_id() < usize::MAX,
        ensures
            final(self)@ == added(old(self)@, position, texture, old(self).next_id() as usize),
            accepts(old(self)@, position) ==> id == Some(old(self).next_id() as usize)
                && final(self).next_id() == old(self).next_id() + 1,
            !accepts(old(self)@, position) ==> id is None && final(self).next_id() == old(
                self,
            ).next_id(),
            old(self).ids_bounded() ==> final(self).ids_bounded(),
            old(self).inv() ==> final(self).inv(),
    {
        let grid_pos = snap(position);
        let mut i: usize = 0;
        while i < self.plugins.len()
            invariant
                i <= self.plugins.len(),
                *self == *old(self),
                grid_pos == spec_snap(position),
                forall|j: int|
                    0 <= j < i ==> (#[trigger] self.plugins@[j]).cell() != spec_grid_index_of(
                        grid_pos,
                    ),
            decreases self.plugins.len() - i,
        {
            if self.plugins[i].is_at_grid_position(grid_pos.x, grid_pos.y) {
                return None;
            }
            i += 1;
        }
        let id: usize = self.next_id;
        self.next_id += 1;
        let new_plugin = Plugin::new(position, texture, id);
        self.plugins.push(new_plugin);
        proof {
            lemma_snap_on_grid(position);
        }
        Some(id)
    }

    /// The index of the first plugin whose hit box holds `pos`.
    fn index_at(&self, pos: Pos2) -> (found: Option<usize>)
        ensures
            match found {
                Some(i) => hit_index(self@, pos) == Some(i as int),
                None => hit_index(self@, pos) is None,
            },
    {
        let mut i: usize = 0;
        while i < self.plugins.len()
            invariant
                i <= self.plugins.len(),
                forall|j: int| 0 <= j < i ==> !(#[trigger] self.plugins@[j]).covers(pos),
            decreases self.plugins.len() - i,
        {
            if self.plugins[i].is_at_position(pos) {
                proof {
                    lemma_first_hit_is_hit_index(self@, pos, i as int);
                }
                return Some(i);
            }
            i += 1;
        }
        proof {
            lemma_hit_index(self@, pos);
        }
        None
    }

    /// The first plugin, in rack order, whose hit box holds `pos`.
    pub fn get_plugin_at_position(&self, pos: Pos2) -> (found: Option<&Plugin>)
        ensures
            match hit_index(self@, pos) {
                Some(i) => found == Some(&self@[i]),
                None => found is None,
            },
    {
        match self.index_at(pos) {
            Some(i) => Some(&self.plugins[i]),
            None => None,
        }
    }

    /// Removes the first plugin whose hit box holds `pos` and says whether
    /// there was one. The other plugins keep their order.
    pub fn delete_plugin(&mut self, pos: Pos2) -> (removed: bool)
        ensures
            removed == hit_index(old(self)@, pos).is_some(),
            final(self)@ == removed_at(old(self)@, pos),
            final(self).next_id() == old(self).next_id(),
            old(self).ids_bounded() ==> final(self).ids_bounded(),
            old(self).inv() ==> final(self).inv(),
    {
        match self.index_at(pos) {
            Some(i) => {
                let _ = self.plugins.remove(i);
                true
            },
            None => false,
        }
    }

    /// Clears the selection.
    pub fn deselect_all(&mut self)
        ensures
            final(self)@ == deselected(old(self)@),
            final(self).next_id() == old(self).next_id(),
            old(self).ids_bounded() ==> final(self).ids_bounded(),
            old(self).inv() ==> final(self).inv(),
    {
        let mut i: usize = 0;
        while i < self.plugins.len()
            invariant
                i <= self.plugins.len(),
                self.next_id == old(self).next_id,
                self.plugins@.len() == old(self).plugins@.len(),
                forall|j: int|
                    0 <= j < i ==> (#[trigger] self.plugins@[j]) == old(
                        self,
                    ).plugins@[j].with_selected(false),
                forall|j: int|
                    i <= j < self.plugins@.len() ==> (#[trigger] self.plugins@[j]) == old(
                        self,
                    ).plugins@[j],
            decreases self.plugins.len() - i,
        {
            self.plugins[i].set_selected(false);
            i += 1;
        }
    }

    /// A click at `pos`. On empty space it clears the selection. On a
    /// plugin it selects that plugin: alone if `additive` is false, and in
    /// addition to what is selected already if `additive` is true.
    pub fn select_plugin(&mut self, pos: Pos2, additive: bool)
        ensures
            final(self)@ == selected_at(old(self)@, pos, additive),
            final(self).next_id() == old(self).next_id(),
            old(self).ids_bounded() ==> final(self).ids_bounded(),
            old(self).inv() ==> final(self).inv(),
    {
        match self.index_at(pos) {
            Some(i) => {
                if !additive {
                    self.deselect_all();
                }
                self.plugins[i].set_selected(true);
            },
            None => {
                self.deselect_all();
            },
        }
    }

    /// A click on the plugin with the id `id`: the first plugin of that id
    /// is selected and no other. If no plugin has that id, the selection
    /// is cleared.
    pub fn select_by_id(&mut self, id: usize)
        ensures
            final(self)@ == selected_by_id(old(self)@, id),
            final(self).next_id() == old(self).next_id(),
            old(self).ids_bounded() ==> final(self).ids_bounded(),
            old(self).inv() ==> final(self).inv(),
    {
        self.deselect_all();
        let mut i: usize = 0;
        while i < self.plugins.len()
            invariant
                i <= self.plugins.len(),
                self.next_id == old(self).next_id,
                self.plugins@ == deselected(old(self).plugins@),
                forall|k: int| 0 <= k < i ==> (#[trigger] self.plugins@[k]).id != id,
            decreases self.plugins.len() - i,
        {
            if self.plugins[i].id == id {
                self.plugins[i].set_selected(true);
                assert forall|j: int| 0 <= j < self.plugins@.len() implies is_first_with_id(
                    old(self)@,
                    id,
                    j,
                ) == (j == i) by {
                    assert(old(self)@[i as int].id == id);
                    assert forall|k: int| 0 <= k < i implies (#[trigger] old(self)@[k]).id
                        != id by {
                        assert(deselected(old(self)@)[k].id != id);
                    }
                }
                return;
            }
            i += 1;
        }
        assert forall|j: int| 0 <= j < self.plugins@.len() implies !is_first_with_id(
            old(self)@,
            id,
            j,
        ) by {
            assert(self.plugins@[j].id != id);
        }
    }

    /// Removes every plugin whose id is among `ids`. The others stay as
    /// they are, in their order.
    pub fn delete_by_ids(&mut self, ids: &Vec<usize>)
        ensures
            final(self)@ == without_ids(old(self)@, ids@),
            final(self).next_id() == old(self).next_id(),
            old(self).ids_bounded() ==> final(self).ids_bounded(),
            old(self).inv() ==> final(self).inv(),
    {
        let mut all: Vec<Plugin> = Vec::new();
        std::mem::swap(&mut all, &mut self.plugins);
        let ghost before = all@;
        assert(before.take(0) =~= Seq::<Plugin>::empty());
        for plugin in it: all
            invariant
                it.seq() == before,
                self.next_id == old(self).next_id,
                self.plugins@ == without_ids(before.take(it.index() as int), ids@),
        {
            proof {
                let seen = before.take(it.index() as int);
                assert(before.take(it.index() + 1) =~= seen.push(plugin));
                lemma_without_ids_push(seen, ids@, plugin);
            }
            if !is_listed(ids, plugin.id) {
                self.plugins.push(plugin);
            }
        }
        proof {
            assert(before.take(before.len() as int) =~= before);
            lemma_without_ids_precise(before, ids@);
            if old(self).inv() {
                lemma_part_consistent(self@, before, self.next_id());
            }
        }
    }

    /// The plugins' positions, in rack order.
    pub fn get_plugins(&self) -> (result: Vec<Pos2>)
        ensures
            result@ == positions(self@),
    {
        let mut result: Vec<Pos2> = Vec::new();
        let mut i: usize = 0;
        while i < self.plugins.len()
            invariant
                i <= self.plugins.len(),
                result@.len() == i,
                forall|j: int| 0 <= j < i ==> result@[j] == self.plugins@[j].position,
            decreases self.plugins.len() - i,
        {
            result.push(self.plugins[i].position);
            i += 1;
        }
        result
    }

    /// Removes every selected plugin. The others stay as they are, in
    /// their order.
    pub fn delete_selected_plugins(&mut self)
        ensures
            final(self)@ == without_selected(old(self)@),
            final(self).next_id() == old(self).next_id(),
            old(self).ids_bounded() ==> final(self).ids_bounded(),
            old(self).inv() ==> final(self).inv(),
    {
        let mut all: Vec<Plugin> = Vec::new();
        std::mem::swap(&mut all, &mut self.plugins);
        let ghost before = all@;
        assert(before.take(0) =~= Seq::<Plugin>::empty());
        for plugin in it: all
            invariant
                it.seq() == before,
                self.next_id == old(self).next_id,
                self.plugins@ == without_selected(before.take(it.index() as int)),
        {
            proof {
                let seen = before.take(it.index() as int);
                assert(before.take(it.index() + 1) =~= seen.push(plugin));
                lemma_without_selected_push(seen, plugin);
            }
            if !plugin.selected {
                self.plugins.push(plugin);
            }
        }
        proof {
            assert(before.take(before.len() as int) =~= before);
            lemma_without_selected_precise(before);
            if old(self).inv() {
                lemma_part_consistent(self@, before, self.next_id());
            }
        }
    }

    /// The rack's stored form: one record per plugin, in rack order.
    pub fn save_state(&self) -> (state: RackState)
        ensures
            state.plugins@ == snapshot(self@),
            self.ids_bounded() ==> state.loadable(),
            self.ids_bounded() ==> forall|i: int|
                0 <= i < state.plugins@.len() ==> (#[trigger] state.plugins@[i]).id
                    < self.next_id(),
            self.inv() ==> records_consistent(state.plugins@),
    {
        let mut records: Vec<PluginState> = Vec::new();
        let mut i: usize = 0;
        while i < self.plugins.len()
            invariant
                i <= self.plugins.len(),
                records@.len() == i,
                forall|j: int| 0 <= j < i ==> records@[j] == self.plugins@[j].state(),
            decreases self.plugins.len() - i,
        {
            records.push(self.plugins[i].to_state());
            i += 1;
        }
        RackState { plugins: records }
    }

    /// Replaces the rack by the plugins that `state` describes, in its
    /// order, each with `texture` attached and none of them selected,
    /// whatever selection flag was stored. The id counter moves past every
    /// loaded id and never back.
    pub fn load_state(&mut self, state: RackState, texture: Option<TextureId>)
        requires
            state.loadable(),
        ensures
            final(self)@ == restored(state.plugins@, texture),
            final(self).next_id() == next_id_after_load(old(self).next_id(), state.plugins@),
            final(self).ids_bounded(),
            final(self).inv() == records_consistent(state.plugins@),
    {
        let mut plugins: Vec<Plugin> = Vec::new();
        let mut next_id: usize = self.next_id;
        let mut i: usize = 0;
        while i < state.plugins.len()
            invariant
                i <= state.plugins.len(),
                plugins@ == restored(state.plugins@.take(i as int), texture),
                next_id == next_id_after_load(old(self).next_id(), state.plugins@.take(i as int)),
                state.loadable(),
            decreases state.plugins.len() - i,
        {
            let record: PluginState = state.plugins[i];
            let mut plugin = Plugin::from_state(record, texture);
            plugin.set_selected(false);
            proof {
                let seen = state.plugins@.take(i as int);
                assert(state.plugins@.take(i + 1) =~= seen.push(record));
                assert(state.plugins@.take(i + 1).drop_last() =~= seen);
            }
            if record.id >= next_id {
                next_id = record.id + 1;
            }
            plugins.push(plugin);
            i += 1;
        }
        proof {
            assert(state.plugins@.take(state.plugins@.len() as int) =~= state.plugins@);
            lemma_restored_consistent(state.plugins@, texture, self.next_id());
        }
        self.plugins = plugins;
        self.next_id = next_id;
    }

    /// The selected plugins, in rack order.
    pub fn get_selected_plugins(&self) -> (selected: Vec<&Plugin>)
        ensures
            selected@.map_values(|p: &Plugin| *p) == selection(self@),
    {
        let mut selected: Vec<&Plugin> = Vec::new();
        let mut i: usize = 0;
        assert(self.plugins@.take(0) =~= Seq::<Plugin>::empty());
        while i < self.plugins.len()
            invariant
                i <= self.plugins.len(),
                selected@.map_values(|p: &Plugin| *p) == selection(self.plugins@.take(i as int)),
            decreases self.plugins.len() - i,
        {
            proof {
                let seen = self.plugins@.take(i as int);
                assert(self.plugins@.take(i + 1) =~= seen.push(self.plugins@[i as int]));
                lemma_selection_push(seen, self.plugins@[i as int]);
            }
            if self.plugins[i].is_selected() {
                selected.push(&self.plugins[i]);
            }
            i += 1;
        }
        assert(self.plugins@.take(self.plugins@.len() as int) =~= self.plugins@);
        selected
    }

    /// A pointer click at `position`, which counts where it snaps to. On a
    /// plugin it acts as `select_plugin` does. On empty space it clears
    /// the selection and places a plugin as `add_plugin` does, whose id it
    /// returns if the cell was free.
    pub fn handle_click(
        &mut self,
        position: Pos2,
        additive: bool,
        texture: Option<TextureId>,
    ) -> (id: Option<usize>)
        requires
            spec_can_snap(position),
            old(self).next_id() < usize::MAX,
        ensures
            final(self)@ == clicked(
                old(self)@,
                position,
                additive,
                texture,
                old(self).next_id() as usize,
            ),
            click_places(old(self)@, position) ==> id == Some(old(self).next_id() as usize)
                && final(self).next_id() == old(self).next_id() + 1,
            !click_places(old(self)@, position) ==> id is None && final(self).next_id() == old(
                self,
            ).next_id(),
            old(self).ids_bounded() ==> final(self).ids_bounded(),
            old(self).inv() ==> final(self).inv(),
    {
        let grid_pos = snap(position);
        proof {
            lemma_snap_idempotent(position);
        }
        if self.get_plugin_at_position(grid_pos).is_some() {
            self.select_plugin(grid_pos, additive);
            None
        } else {
            self.deselect_all();
            self.add_plugin(grid_pos, texture)
        }
    }

    /// The plugins, in rack order, for drawing.
    pub fn plugins(&self) -> (plugins: &Vec<Plugin>)
        ensures
            plugins@ == self@,
    {
        &self.plugins
    }

    /// How many plugins the rack holds.
    pub fn plugin_count(&self) -> (count: usize)
        ensures
            count == self@.len(),
    {
        self.plugins.len()
    }

    pub fn is_empty(&self) -> (empty: bool)
        ensures
            empty == (self@.len() == 0),
    {
        self.plugins.is_empty()
    }
}

} // verus!
