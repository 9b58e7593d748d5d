//! The CPU-side record of the tiles placed in the terminal's tile world.
//!
//! Geometry and colours are `f32` values; this module never computes with them,
//! so it holds each one by its IEEE 754 bit pattern (as `f32::to_bits` gives it).
//! The world's clock, an `f64`, is kept by the renderer beside this state.

use vstd::prelude::*;

use crate::select::{is_selection, lemma_filter_selects, lemma_selection_from, selects};

verus! {

/// The shader a placed tile is drawn with.
#[derive(Debug, Clone, Copy, PartialEq, Eq, Structural)]
pub enum TileShaderKind {
    Plasma,
    Clock,
    Noise,
    HeatEquation,
    Custom(u32),
}

/// A tile placed in the world.
#[derive(Debug, Clone, Copy)]
pub struct TileScene {
    pub id: u64,
    pub shader: TileShaderKind,
    /// `f32` bit pattern.
    pub x: u32,
    /// `f32` bit pattern.
    pub y: u32,
    /// `f32` bit pattern.
    pub width: u32,
    /// `f32` bit pattern.
    pub height: u32,
    /// `f32` bit patterns of r, g, b, a.
    pub custom: [u32; 4],
    pub persistent: bool,
}

/// The tiles of the world, in the order they were placed.
pub struct TileWorldState {
    pub tiles: Vec<TileScene>,
}

/// Tiles that survive a new frame.
pub open spec fn is_persistent() -> spec_fn(TileScene) -> bool {
    |t: TileScene| t.persistent
}

/// Tiles whose id is not `id`.
pub open spec fn id_is_not(id: u64) -> spec_fn(TileScene) -> bool {
    |t: TileScene| t.id != id
}

/// The tiles left when a frame begins: the persistent ones, in order.
pub open spec fn spec_begin_frame(tiles: Seq<TileScene>) -> Seq<TileScene> {
    tiles.filter(is_persistent())
}

/// The tiles left when tile `id` is removed: every tile with another id, in order.
pub open spec fn spec_remove(tiles: Seq<TileScene>, id: u64) -> Seq<TileScene> {
    tiles.filter(id_is_not(id))
}

/// The tiles after `tile` is placed: it goes last, and a tile with a nonzero id
/// first takes the place of every tile with the same id.
pub open spec fn spec_insert(tiles: Seq<TileScene>, tile: TileScene) -> Seq<TileScene> {
    if tile.id > 0 {
        spec_remove(tiles, tile.id).push(tile)
    } else {
        tiles.push(tile)
    }
}

/// No two tiles share a nonzero id.
pub open spec fn unique_ids(tiles: Seq<TileScene>) -> bool {
    forall|i: int, j: int|
        0 <= i < j < tiles.len() && tiles[i].id > 0 ==> #[trigger] tiles[i].id != #[trigger] tiles[j].id
}

/// The tiles of `tiles` whose id is not `id`, in order.
fn retain_where_id_is_not(tiles: &Vec<TileScene>, id: u64) -> (r: Vec<TileScene>)
    ensures
        r@ == tiles@.filter(id_is_not(id)),
{
    let mut r: Vec<TileScene> = Vec::new();
    let mut i: usize = 0;
    while i < tiles.len()
        invariant
            0 <= i <= tiles.len(),
            r@ == tiles@.take(i as int).filter(id_is_not(id)),
        decreases tiles.len() - i,
    {
        let t = tiles[i];
        proof {
            assert(tiles@.take(i + 1) =~= tiles@.take(i as int).push(t));
            tiles@.take(i as int).lemma_filter_push(t, id_is_not(id));
        }
        if t.id != id {
            r.push(t);
        }
        i = i + 1;
    }
    assert(tiles@.take(i as int) =~= tiles@);
    r
}

/// The persistent tiles of `tiles`, in order.
fn retain_persistent(tiles: &Vec<TileScene>) -> (r: Vec<TileScene>)
    ensures
        r@ == tiles@.filter(is_persistent()),
{
    let mut r: Vec<TileScene> = Vec::new();
    let mut i: usize = 0;
    while i < tiles.len()
        invariant
            0 <= i <= tiles.len(),
            r@ == tiles@.take(i as int).filter(is_persistent()),
        decreases tiles.len() - i,
    {
        let t = tiles[i];
        proof {
            assert(tiles@.take(i + 1) =~= tiles@.take(i as int).push(t));
            tiles@.take(i as int).lemma_filter_push(t, is_persistent());
        }
        if t.persistent {
            r.push(t);
        }
        i = i + 1;
    }
    assert(tiles@.take(i as int) =~= tiles@);
    r
}

impl TileWorldState {
    /// An empty world.
    pub fn new() -> (r: TileWorldState)
        ensures
            r.tiles@ == Seq::<TileScene>::empty(),
    {
        TileWorldState { tiles: Vec::new() }
    }

    /// Starts a frame: transient tiles are dropped.
    pub fn begin_frame(&mut self)
        ensures
            final(self).tiles@ == spec_begin_frame(old(self).tiles@),
    {
        self.tiles = retain_persistent(&self.tiles);
    }

    /// Places `tile`, replacing any tile with the same nonzero id.
    pub fn insert_tile(&mut self, tile: TileScene)
        ensures
            final(self).tiles@ == spec_insert(old(self).tiles@, tile),
    {
        if tile.id > 0 {
            self.tiles = retain_where_id_is_not(&self.tiles, tile.id);
        }
        self.tiles.push(tile);
    }

    /// Removes every tile with id `id`.
    pub fn remove_tile(&mut self, id: u64)
        ensures
            final(self).tiles@ == spec_remove(old(self).tiles@, id),
    {
        self.tiles = retain_where_id_is_not(&self.tiles, id);
    }

    /// Removes every tile.
    pub fn clear(&mut self)
        ensures
            final(self).tiles@ == Seq::<TileScene>::empty(),
    {
        self.tiles.clear();
    }
}


/// Filtering keeps a sequence whose every element passes.
proof fn lemma_filter_keeps_all(s: Seq<TileScene>, p: spec_fn(TileScene) -> bool)
    requires
        forall|i: int| 0 <= i < s.len() ==> p(#[trigger] s[i]),
    ensures
        s.filter(p) == s,
    decreases s.len(),
{
    reveal(Seq::filter);
    if s.len() > 0 {
        lemma_filter_keeps_all(s.drop_last(), p);
        assert(s.drop_last().push(s.last()) =~= s);
    }
}

/// Every element of a filtered sequence passes the filter.
proof fn lemma_filter_all_pass(s: Seq<TileScene>, p: spec_fn(TileScene) -> bool)
    ensures
        forall|i: int| 0 <= i < s.filter(p).len() ==> p(#[trigger] s.filter(p)[i]),
{
    assert forall|i: int| 0 <= i < s.filter(p).len() implies p(#[trigger] s.filter(p)[i]) by {
        s.lemma_filter_pred(p, i);
    }
}

/// Filtering keeps nonzero ids unique.
proof fn lemma_filter_unique(s: Seq<TileScene>, p: spec_fn(TileScene) -> bool)
    requires
        unique_ids(s),
    ensures
        unique_ids(s.filter(p)),
    decreases s.len(),
{
    reveal(Seq::filter);
    if s.len() > 0 {
        let rest = s.drop_last();
        let x = s.last();
        assert(unique_ids(rest)) by {
            assert forall|i: int, j: int|
                0 <= i < j < rest.len() && rest[i].id > 0 implies #[trigger] rest[i].id
                != #[trigger] rest[j].id by {
                assert(rest[i] == s[i] && rest[j] == s[j]);
            }
        }
        lemma_filter_unique(rest, p);
        let f = rest.filter(p);
        if p(x) {
            let r = f.push(x);
            assert forall|i: int, j: int|
                0 <= i < j < r.len() && r[i].id > 0 implies #[trigger] r[i].id != #[trigger] r[j].id by {
                if j == r.len() - 1 {
                    assert(r[i] == f[i]);
                    assert(f.contains(f[i]));
                    rest.lemma_filter_contains_rev(p, f[i]);
                    let k = choose|k: int| 0 <= k < rest.len() && rest[k] == f[i];
                    assert(s[k] == f[i]);
                    assert(s[s.len() - 1] == x);
                } else {
                    assert(r[i] == f[i] && r[j] == f[j]);
                }
            }
        }
    }
}

/// A tile with a nonzero id, once placed, is the last tile and the only one
/// with its id.
pub proof fn law_insert_replaces(tiles: Seq<TileScene>, tile: TileScene)
    requires
        tile.id > 0,
    ensures
        spec_insert(tiles, tile).last() == tile,
        forall|i: int|
            0 <= i < spec_insert(tiles, tile).len() - 1 ==> #[trigger] spec_insert(tiles, tile)[i].id
                != tile.id,
{
    let f = spec_remove(tiles, tile.id);
    lemma_filter_all_pass(tiles, id_is_not(tile.id));
    assert forall|i: int| 0 <= i < spec_insert(tiles, tile).len() - 1 implies #[trigger] spec_insert(
        tiles,
        tile,
    )[i].id != tile.id by {
        assert(spec_insert(tiles, tile)[i] == f[i]);
    }
}

/// Placing a tile adds exactly one tile when its id is 0 or not yet in the world.
pub proof fn law_insert_grows(tiles: Seq<TileScene>, tile: TileScene)
    requires
        tile.id == 0 || forall|i: int| 0 <= i < tiles.len() ==> #[trigger] tiles[i].id != tile.id,
    ensures
        spec_insert(tiles, tile) == tiles.push(tile),
{
    if tile.id > 0 {
        lemma_filter_keeps_all(tiles, id_is_not(tile.id));
    }
}

/// Once tile `id` is removed no tile has that id, and every tile with another id
/// is still there.
pub proof fn law_remove_removes(tiles: Seq<TileScene>, id: u64)
    ensures
        forall|i: int| 0 <= i < spec_remove(tiles, id).len() ==> #[trigger] spec_remove(tiles, id)[i].id != id,
        forall|t: TileScene| tiles.contains(t) && t.id != id ==> #[trigger] spec_remove(tiles, id).contains(t),
{
    lemma_filter_all_pass(tiles, id_is_not(id));
    assert forall|t: TileScene| tiles.contains(t) && t.id != id implies #[trigger] spec_remove(tiles, id).contains(t) by {
        let k = choose|k: int| 0 <= k < tiles.len() && tiles[k] == t;
        tiles.lemma_filter_contains(id_is_not(id), k);
    }
}

/// Removing the id of a tile just placed leaves what removing that id before
/// placing it would have left.
pub proof fn law_remove_undoes_insert(tiles: Seq<TileScene>, tile: TileScene)
    ensures
        spec_remove(spec_insert(tiles, tile), tile.id) == spec_remove(tiles, tile.id),
{
    let p = id_is_not(tile.id);
    if tile.id > 0 {
        let f = tiles.filter(p);
        f.lemma_filter_push(tile, p);
        lemma_filter_all_pass(tiles, p);
        lemma_filter_keeps_all(f, p);
    } else {
        tiles.lemma_filter_push(tile, p);
    }
}

/// After a frame begins every tile is persistent, every persistent tile is still
/// there, and beginning another frame at once changes nothing.
pub proof fn law_begin_frame(tiles: Seq<TileScene>)
    ensures
        forall|i: int| 0 <= i < spec_begin_frame(tiles).len() ==> (#[trigger] spec_begin_frame(tiles)[i]).persistent,
        forall|t: TileScene| tiles.contains(t) && t.persistent ==> #[trigger] spec_begin_frame(tiles).contains(t),
        spec_begin_frame(spec_begin_frame(tiles)) == spec_begin_frame(tiles),
{
    lemma_filter_all_pass(tiles, is_persistent());
    lemma_filter_keeps_all(spec_begin_frame(tiles), is_persistent());
    assert forall|t: TileScene| tiles.contains(t) && t.persistent implies #[trigger] spec_begin_frame(tiles).contains(t) by {
        let k = choose|k: int| 0 <= k < tiles.len() && tiles[k] == t;
        tiles.lemma_filter_contains(is_persistent(), k);
    }
}

/// Every operation on the world keeps nonzero ids unique.
pub proof fn law_unique_ids_kept(tiles: Seq<TileScene>, tile: TileScene, id: u64)
    requires
        unique_ids(tiles),
    ensures
        unique_ids(spec_insert(tiles, tile)),
        unique_ids(spec_remove(tiles, id)),
        unique_ids(spec_begin_frame(tiles)),
        unique_ids(Seq::<TileScene>::empty()),
{
    lemma_filter_unique(tiles, id_is_not(id));
    lemma_filter_unique(tiles, is_persistent());
    if tile.id > 0 {
        let f = spec_remove(tiles, tile.id);
        lemma_filter_unique(tiles, id_is_not(tile.id));
        lemma_filter_all_pass(tiles, id_is_not(tile.id));
        let r = f.push(tile);
        assert forall|i: int, j: int| 0 <= i < j < r.len() && r[i].id > 0 implies #[trigger] r[i].id
            != #[trigger] r[j].id by {
            assert(r[i] == f[i]);
            if j < r.len() - 1 {
                assert(r[j] == f[j]);
            }
        }
    } else {
        let r = tiles.push(tile);
        assert forall|i: int, j: int| 0 <= i < j < r.len() && r[i].id > 0 implies #[trigger] r[i].id
            != #[trigger] r[j].id by {
            assert(r[i] == tiles[i]);
            if j < r.len() - 1 {
                assert(r[j] == tiles[j]);
            }
        }
    }
}


/// Removing tile `id` keeps every other tile, and only those, in the order they
/// were placed; nothing new appears.
pub proof fn law_remove_keeps_order(tiles: Seq<TileScene>, id: u64)
    ensures
        selects(spec_remove(tiles, id), tiles, |t: TileScene| t.id != id),
        forall|t: TileScene| spec_remove(tiles, id).contains(t) ==> tiles.contains(t),
{
    lemma_filter_selects(tiles, id_is_not(id), |t: TileScene| t.id != id);
    lemma_selection_from(spec_remove(tiles, id), tiles, |t: TileScene| t.id != id);
}

/// A new frame keeps the persistent tiles, all of them and only them, in the order
/// they were placed, unchanged; every tile left was in the world before.
pub proof fn law_begin_frame_keeps_order(tiles: Seq<TileScene>)
    ensures
        selects(spec_begin_frame(tiles), tiles, |t: TileScene| t.persistent),
        forall|t: TileScene| spec_begin_frame(tiles).contains(t) ==> tiles.contains(t),
{
    lemma_filter_selects(tiles, is_persistent(), |t: TileScene| t.persistent);
    lemma_selection_from(spec_begin_frame(tiles), tiles, |t: TileScene| t.persistent);
}

/// Placing a tile keeps the tiles it does not replace in order, and puts it last:
/// a tile with id 0 replaces nothing, any other tile replaces exactly the tiles
/// with its id.
pub proof fn law_insert_keeps_order(tiles: Seq<TileScene>, tile: TileScene)
    ensures
        spec_insert(tiles, tile).len() > 0,
        spec_insert(tiles, tile).last() == tile,
        selects(
            spec_insert(tiles, tile).drop_last(),
            tiles,
            |t: TileScene| tile.id == 0 || t.id != tile.id,
        ),
{
    let keep = |t: TileScene| tile.id == 0 || t.id != tile.id;
    if tile.id > 0 {
        lemma_filter_selects(tiles, id_is_not(tile.id), keep);
        assert(spec_insert(tiles, tile).drop_last() =~= tiles.filter(id_is_not(tile.id)));
    } else {
        let pos = Seq::new(tiles.len(), |i: int| i);
        assert(spec_insert(tiles, tile).drop_last() =~= tiles);
        assert forall|k: int| 0 <= k < tiles.len() && keep(#[trigger] tiles[k]) implies exists|i: int|
            0 <= i < tiles.len() && #[trigger] pos[i] == k by {
            assert(pos[k] == k);
        }
        assert(is_selection(tiles, tiles, keep, pos));
    }
}

} // verus!
