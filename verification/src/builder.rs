//! The uniform builder contract: every generation algorithm owns one grid
//! and answers `build`, `iterate`, `get_map`, `update_map_data` and `notes`,
//! so a driver can run any of them without knowing which one is active.

use vstd::prelude::*;

use crate::grid::{Grid, GridView};

verus! {

pub trait MapBuilder: Sized {
    /// The builder's structural invariant; established at construction and
    /// preserved by every operation.
    spec fn wf(&self) -> bool;

    /// Model of the grid the builder owns.
    spec fn grid(&self) -> GridView;

    /// The label/value pairs that `update_map_data` reports.
    spec fn stats(&self) -> Seq<(Seq<char>, Seq<char>)>;

    /// The caveat text that `notes` returns.
    spec fn notes_spec(&self) -> Seq<char>;

    /// The grid always holds exactly `width * height` tiles: the area
    /// invariant holds in every well-formed builder state, so in particular
    /// after `build` and after every `iterate`.
    proof fn grid_area_invariant(&self)
        requires
            self.wf(),
        ensures
            self.grid().wf(),
    ;

    /// Discards the grid and regenerates it from scratch.
    fn build(&mut self)
        requires
            old(self).wf(),
        ensures
            final(self).wf(),
            final(self).grid().same_dims(old(self).grid()),
    ;

    /// One incremental refinement step; a no-op past the per-algorithm cap.
    fn iterate(&mut self)
        requires
            old(self).wf(),
        ensures
            final(self).wf(),
            final(self).grid().same_dims(old(self).grid()),
    ;

    /// An independent snapshot of the grid. The result is a function of the
    /// builder's state alone, so two calls with no `build` or `iterate`
    /// between them return identical grids.
    fn get_map(&self) -> (m: Grid)
        requires
            self.wf(),
        ensures
            m@ == self.grid(),
    ;

    /// Clears the sink and fills it with the builder's statistics, exactly
    /// the pairs that `stats` states.
    fn update_map_data(&self, map_data: &mut Vec<(&'static str, String)>)
        requires
            self.wf(),
        ensures
            final(map_data)@.len() == self.stats().len(),
            forall|i: int| 0 <= i < self.stats().len()
                ==> (#[trigger] final(map_data)@[i]).0@ == self.stats()[i].0
                    && final(map_data)@[i].1@ == self.stats()[i].1,
    ;

    /// A short free-text caveat; empty for most algorithms.
    fn notes(&self) -> (s: &str)
        ensures
            s@ == self.notes_spec(),
    ;
}

/// Snapshots are reproducible: `get_map` pins its result to the builder's
/// state alone, so two grids it hands out with no `build` or `iterate`
/// between them are identical, tile for tile.
pub proof fn lemma_snapshot_deterministic<B: MapBuilder>(b: &B, m1: Grid, m2: Grid)
    requires
        m1@ == b.grid(),
        m2@ == b.grid(),
    ensures
        m1@ == m2@,
{
}

} // verus!
