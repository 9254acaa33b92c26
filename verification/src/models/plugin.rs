//! One placed plugin, and the flat records it is stored as.

use crate::grid::{
    contains, grid_index_of, is_on_grid, snap, spec_can_snap, spec_contains, spec_grid_index_of,
    spec_snap, Pos2, GRID_UNIT,
};
use crate::models::stored::{record_position, records_consistent};
use vstd::prelude::*;

verus! {

/// Width of a plugin's hit box: one column.
pub const PLUGIN_WIDTH: i64 = GRID_UNIT;

/// Height of a plugin's hit box, measured down from its top edge.
pub const PLUGIN_HEIGHT: i64 = GRID_UNIT;

/// The name under which the renderer keeps a texture. The rack stores it
/// with a plugin and hands it back for drawing; which texture it names is
/// the renderer's business.
#[derive(Clone, Copy, Debug, PartialEq, Eq, Hash, Structural)]
pub struct TextureId {
    pub id: u64,
}

/// A plugin placed on the rack.
#[derive(Clone, Copy, Debug, PartialEq, Eq, Structural)]
pub struct Plugin {
    /// What the renderer draws for this plugin, if anything. Stored and
    /// handed back, never interpreted.
    pub texture: Option<TextureId>,
    /// Top-left corner.
    pub position: Pos2,
    pub selected: bool,
    pub id: usize,
}

/// The stored form of one plugin: everything but its texture.
#[derive(Clone, Copy, Debug, PartialEq, Eq, Structural)]
pub struct PluginState {
    pub x: i64,
    pub y: i64,
    pub selected: bool,
    pub id: usize,
}

/// The stored form of a rack: its plugins' records, in rack order.
#[derive(Clone, Debug)]
pub struct RackState {
    pub plugins: Vec<PluginState>,
}

impl RackState {
    /// Whether a manager can load this state: past every id there is room
    /// for a next one.
    pub open spec fn loadable(self) -> bool {
        forall|i: int|
            0 <= i < self.plugins@.len() ==> (#[trigger] self.plugins@[i]).id < usize::MAX
    }

    /// Whether `PluginManager::load_state` accepts this state.
    pub fn can_load(&self) -> (ok: bool)
        ensures
            ok == self.loadable(),
    {
        let mut i: usize = 0;
        while i < self.plugins.len()
            invariant
                i <= self.plugins.len(),
                forall|j: int| 0 <= j < i ==> (#[trigger] self.plugins@[j]).id < usize::MAX,
            decreases self.plugins.len() - i,
        {
            if self.plugins[i].id == usize::MAX {
                return false;
            }
            i += 1;
        }
        true
    }
}

impl PluginState {
    /// The position that this record stores.
    pub fn position(&self) -> (pos: Pos2)
        ensures
            pos == record_position(*self),
    {
        Pos2 { x: self.x, y: self.y }
    }
}

impl RackState {
    /// Whether this state describes a consistent rack: every position on
    /// the grid, no cell taken twice, ids strictly increasing. A manager
    /// that loads such a state has its invariant.
    pub fn is_consistent(&self) -> (ok: bool)
        ensures
            ok == records_consistent(self.plugins@),
    {
        let mut j: usize = 0;
        while j < self.plugins.len()
            invariant
                j <= self.plugins.len(),
                records_consistent(self.plugins@.take(j as int)),
            decreases self.plugins.len() - j,
        {
            let record: PluginState = self.plugins[j];
            if !is_on_grid(record.position()) {
                return false;
            }
            let cell: (i64, i64) = grid_index_of(record.position());
            let mut i: usize = 0;
            while i < j
                invariant
                    i <= j < self.plugins.len(),
                    record == self.plugins@[j as int],
                    (cell.0 as int, cell.1 as int) == spec_grid_index_of(record_position(record)),
                    forall|k: int|
                        0 <= k < i ==> spec_grid_index_of(
                            record_position(#[trigger] self.plugins@[k]),
                        ) != spec_grid_index_of(record_position(record)) && self.plugins@[k].id
                            < record.id,
                decreases j - i,
            {
                let earlier: PluginState = self.plugins[i];
                let earlier_cell: (i64, i64) = grid_index_of(earlier.position());
                if (earlier_cell.0 == cell.0 && earlier_cell.1 == cell.1) || earlier.id
                    >= record.id {
                    return false;
                }
                i += 1;
            }
            j += 1;
        }
        assert(self.plugins@.take(self.plugins@.len() as int) =~= self.plugins@);
        true
    }
}

impl Plugin {
    /// Whether `pos` lies in this plugin's hit box.
    pub open spec fn covers(self, pos: Pos2) -> bool {
        spec_contains(self.position, PLUGIN_WIDTH as int, PLUGIN_HEIGHT as int, pos)
    }

    /// The grid cell of this plugin.
    pub open spec fn cell(self) -> (int, int) {
        spec_grid_index_of(self.position)
    }

    /// This plugin with its selection flag set to `selected`.
    pub open spec fn with_selected(self, selected: bool) -> Plugin {
        Plugin { selected, ..self }
    }

    /// The record that stores this plugin.
    pub open spec fn state(self) -> PluginState {
        PluginState { x: self.position.x, y: self.position.y, selected: self.selected, id: self.id }
    }

    /// The plugin that a record describes, with `texture` attached.
    pub open spec fn of_state(state: PluginState, texture: Option<TextureId>) -> Plugin {
        Plugin {
            texture,
            position: Pos2 { x: state.x, y: state.y },
            selected: state.selected,
            id: state.id,
        }
    }

    /// A new, unselected plugin at the grid position nearest to `position`.
    pub fn new(position: Pos2, texture: Option<TextureId>, id: usize) -> (plugin: Plugin)
        requires
            spec_can_snap(position),
        ensures
            plugin == (Plugin { texture, position: spec_snap(position), selected: false, id }),
    {
        Plugin { texture, position: snap(position), selected: false, id }
    }

    /// Hit test: whether `pos` lies in this plugin's box, which reaches from
    /// its position one plugin width right and one plugin height down, the
    /// far edges excluded.
    pub fn is_at_position(&self, pos: Pos2) -> (hit: bool)
        ensures
            hit == self.covers(pos),
    {
        contains(self.position, PLUGIN_WIDTH, PLUGIN_HEIGHT, pos)
    }

    /// Whether this plugin occupies the grid cell of the position
    /// `(grid_x, grid_y)`.
    pub fn is_at_grid_position(&self, grid_x: i64, grid_y: i64) -> (same: bool)
        ensures
            same == (self.cell() == spec_grid_index_of(Pos2 { x: grid_x, y: grid_y })),
    {
        let own: (i64, i64) = grid_index_of(self.position);
        let target: (i64, i64) = grid_index_of(Pos2 { x: grid_x, y: grid_y });
        own.0 == target.0 && own.1 == target.1
    }

    pub fn set_selected(&mut self, selected: bool)
        ensures
            *final(self) == old(self).with_selected(selected),
    {
        self.selected = selected;
    }

    pub fn is_selected(&self) -> (selected: bool)
        ensures
            selected == self.selected,
    {
        self.selected
    }

    /// The width of a plugin, the same for all.
    pub fn get_width(&self) -> (width: i64)
        ensures
            width == PLUGIN_WIDTH,
    {
        PLUGIN_WIDTH
    }

    /// The record that stores this plugin. Nothing but the texture is lost.
    pub fn to_state(&self) -> (state: PluginState)
        ensures
            state == self.state(),
    {
        PluginState {
            x: self.position.x,
            y: self.position.y,
            selected: self.selected,
            id: self.id,
        }
    }

    /// Rebuilds a plugin from its record, position and selection flag as
    /// stored, and attaches `texture` to it.
    pub fn from_state(state: PluginState, texture: Option<TextureId>) -> (plugin: Plugin)
        ensures
            plugin == Plugin::of_state(state, texture),
    {
        Plugin {
            texture,
            position: Pos2 { x: state.x, y: state.y },
            selected: state.selected,
            id: state.id,
        }
    }
}

/// Storing a plugin and rebuilding it gives the same plugin back when the
/// same texture is attached.
pub proof fn lemma_state_round_trip(plugin: Plugin)
    ensures
        Plugin::of_state(plugin.state(), plugin.texture) == plugin,
{
}

} // verus!
