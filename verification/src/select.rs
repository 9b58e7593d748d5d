//! Selections: a sequence made of the elements of another that pass a test, all
//! of them, in their order.

use vstd::prelude::*;

use crate::world::TileScene;

verus! {

/// `pos` places `r` in `s`: the `i`-th tile of `r` is the tile of `s` at position
/// `pos[i]`, positions increase along `r`, every tile of `r` passes `keep`, and
/// every position of `s` whose tile passes `keep` is used.
pub open spec fn is_selection(
    r: Seq<TileScene>,
    s: Seq<TileScene>,
    keep: spec_fn(TileScene) -> bool,
    pos: Seq<int>,
) -> bool {
    &&& pos.len() == r.len()
    &&& forall|i: int| 0 <= i < r.len() ==> #[trigger] placed(r, s, keep, pos, i)
    &&& forall|i: int, j: int| 0 <= i < j < r.len() ==> #[trigger] pos[i] < #[trigger] pos[j]
    &&& forall|k: int|
        0 <= k < s.len() && keep(#[trigger] s[k]) ==> exists|i: int| 0 <= i < r.len() && #[trigger] pos[i] == k
}

/// The `i`-th tile of `r` stands in `s` at position `pos[i]` and passes `keep`.
pub open spec fn placed(
    r: Seq<TileScene>,
    s: Seq<TileScene>,
    keep: spec_fn(TileScene) -> bool,
    pos: Seq<int>,
    i: int,
) -> bool {
    0 <= pos[i] < s.len() && s[pos[i]] == r[i] && keep(r[i])
}

/// `r` is the tiles of `s` that pass `keep`, every one of them, in the order they
/// stand in `s`.
pub open spec fn selects(r: Seq<TileScene>, s: Seq<TileScene>, keep: spec_fn(TileScene) -> bool) -> bool {
    exists|pos: Seq<int>| is_selection(r, s, keep, pos)
}

/// One tile of a selection, with its position.
proof fn lemma_selection_at(
    r: Seq<TileScene>,
    s: Seq<TileScene>,
    keep: spec_fn(TileScene) -> bool,
    pos: Seq<int>,
    i: int,
)
    requires
        is_selection(r, s, keep, pos),
        0 <= i < r.len(),
    ensures
        0 <= pos[i] < s.len(),
        s[pos[i]] == r[i],
        keep(r[i]),
{
    assert(placed(r, s, keep, pos, i));
}

/// A selection grows with a passing tile added at the end of both sequences.
proof fn lemma_selection_push(
    r: Seq<TileScene>,
    s: Seq<TileScene>,
    keep: spec_fn(TileScene) -> bool,
    pos: Seq<int>,
    t: TileScene,
)
    requires
        is_selection(r, s, keep, pos),
        keep(t),
    ensures
        is_selection(r.push(t), s.push(t), keep, pos.push(s.len() as int)),
{
    let r2 = r.push(t);
    let s2 = s.push(t);
    let pos2 = pos.push(s.len() as int);
    assert forall|i: int| 0 <= i < r2.len() implies #[trigger] placed(r2, s2, keep, pos2, i) by {
        if i < r.len() {
            lemma_selection_at(r, s, keep, pos, i);
        }
    }
    assert forall|i: int, j: int| 0 <= i < j < r2.len() implies #[trigger] pos2[i] < #[trigger] pos2[j] by {
        lemma_selection_at(r, s, keep, pos, i);
        if j < r.len() {
            assert(pos[i] < pos[j]);
        }
    }
    assert forall|k: int| 0 <= k < s2.len() && keep(#[trigger] s2[k]) implies exists|i: int|
        0 <= i < r2.len() && #[trigger] pos2[i] == k by {
        if k < s.len() {
            assert(s[k] == s2[k]);
            let i = choose|i: int| 0 <= i < r.len() && #[trigger] pos[i] == k;
            assert(pos2[i] == k);
        } else {
            assert(pos2[r.len() as int] == k);
        }
    }
}

/// A selection stays one when a failing tile is added to the end of the source.
proof fn lemma_selection_skip(
    r: Seq<TileScene>,
    s: Seq<TileScene>,
    keep: spec_fn(TileScene) -> bool,
    pos: Seq<int>,
    t: TileScene,
)
    requires
        is_selection(r, s, keep, pos),
        !keep(t),
    ensures
        is_selection(r, s.push(t), keep, pos),
{
    let s2 = s.push(t);
    assert forall|i: int| 0 <= i < r.len() implies #[trigger] placed(r, s2, keep, pos, i) by {
        lemma_selection_at(r, s, keep, pos, i);
    }
    assert forall|k: int| 0 <= k < s2.len() && keep(#[trigger] s2[k]) implies exists|i: int|
        0 <= i < r.len() && #[trigger] pos[i] == k by {
        assert(k < s.len());
        assert(s[k] == s2[k]);
    }
}

/// Filtering selects the passing tiles in order.
pub proof fn lemma_filter_selects(
    s: Seq<TileScene>,
    p: spec_fn(TileScene) -> bool,
    keep: spec_fn(TileScene) -> bool,
)
    requires
        forall|x: TileScene| #[trigger] p(x) == keep(x),
    ensures
        selects(s.filter(p), s, keep),
    decreases s.len(),
{
    if s.len() == 0 {
        reveal(Seq::filter);
        assert(is_selection(s.filter(p), s, keep, Seq::<int>::empty()));
    } else {
        let s0 = s.drop_last();
        let last = s.last();
        assert(s0.push(last) =~= s);
        s0.lemma_filter_push(last, p);
        lemma_filter_selects(s0, p, keep);
        let r0 = s0.filter(p);
        let pos0 = choose|pos: Seq<int>| is_selection(r0, s0, keep, pos);
        assert(is_selection(r0, s0, keep, pos0));
        if p(last) {
            lemma_selection_push(r0, s0, keep, pos0, last);
            assert(is_selection(s.filter(p), s, keep, pos0.push(s0.len() as int)));
        } else {
            lemma_selection_skip(r0, s0, keep, pos0, last);
            assert(is_selection(s.filter(p), s, keep, pos0));
        }
    }
}

/// A selection holds only tiles of the sequence it was taken from.
pub proof fn lemma_selection_from(r: Seq<TileScene>, s: Seq<TileScene>, keep: spec_fn(TileScene) -> bool)
    requires
        selects(r, s, keep),
    ensures
        forall|t: TileScene| r.contains(t) ==> s.contains(t),
{
    let pos = choose|pos: Seq<int>| is_selection(r, s, keep, pos);
    assert(is_selection(r, s, keep, pos));
    assert forall|t: TileScene| r.contains(t) implies s.contains(t) by {
        let i = choose|i: int| 0 <= i < r.len() && r[i] == t;
        lemma_selection_at(r, s, keep, pos, i);
    }
}

} // verus!
