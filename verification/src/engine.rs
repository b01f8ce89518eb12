//! Territory-expansion engine: pure mutation logic over the sparse grid —
//! applying a single click, and expanding a square whose counter overflowed,
//! with its cascade driven by an explicit worklist.
use vstd::prelude::*;

use crate::posmap::PosMap;
use crate::schemas::{GameConfig, PlayerID, Position, Square, SquareChange};

verus! {

// ---------------------------------------------------------------------------
// Neighbourhood
// ---------------------------------------------------------------------------
/// The cell one step west, with the same wrap-around arithmetic the grid
/// uses: stepping west from column 0 lands on `u32::MAX`, which no grid can
/// contain, so it is filtered out by the bounds check.
pub open spec fn west_of(p: Position) -> Position {
    Position { x: if p.x == 0 { u32::MAX } else { (p.x - 1) as u32 }, y: p.y }
}

/// The cell one step north (wrap-around, see `west_of`).
pub open spec fn north_of(p: Position) -> Position {
    Position { x: p.x, y: if p.y == 0 { u32::MAX } else { (p.y - 1) as u32 } }
}

/// The cell one step east (wrap-around, see `west_of`).
pub open spec fn east_of(p: Position) -> Position {
    Position { x: if p.x == u32::MAX { 0 } else { (p.x + 1) as u32 }, y: p.y }
}

/// The cell one step south (wrap-around, see `west_of`).
pub open spec fn south_of(p: Position) -> Position {
    Position { x: p.x, y: if p.y == u32::MAX { 0 } else { (p.y + 1) as u32 } }
}

/// `q` if it lies on the grid, else nothing.
pub open spec fn bounded(q: Position, config: GameConfig) -> Seq<Position> {
    if q.in_bounds(config.size) {
        seq![q]
    } else {
        Seq::empty()
    }
}

/// The in-bounds grid neighbours of `p`, in the fixed order west, north,
/// east, south.
pub open spec fn adjacent_of(config: GameConfig, p: Position) -> Seq<Position> {
    bounded(west_of(p), config) + bounded(north_of(p), config) + bounded(east_of(p), config)
        + bounded(south_of(p), config)
}

/// `q` is an in-bounds grid neighbour of `p`.
pub open spec fn is_adjacent(config: GameConfig, p: Position, q: Position) -> bool {
    q.in_bounds(config.size) && (q == west_of(p) || q == north_of(p) || q == east_of(p) || q
        == south_of(p))
}

/// Computes the 4 neighbours of `pos` using wrap-safe unsigned arithmetic
/// (stepping off the low edge cannot silently land on a valid coordinate) and
/// filters out any neighbour off the grid. Order is fixed — west, north,
/// east, south — for deterministic replay.
pub fn adjacent_squares(config: GameConfig, pos: Position) -> (r: Vec<Position>)
    ensures
        r@ == adjacent_of(config, pos),
        forall|q: Position| r@.contains(q) == is_adjacent(config, pos, q),
        forall|i: int, j: int| 0 <= i < j < r@.len() ==> r@[i] != r@[j],
        r@.len() <= 4,
{
    let west = Position { x: if pos.x == 0 { u32::MAX } else { pos.x - 1 }, y: pos.y };
    let north = Position { x: pos.x, y: if pos.y == 0 { u32::MAX } else { pos.y - 1 } };
    let east = Position { x: if pos.x == u32::MAX { 0 } else { pos.x + 1 }, y: pos.y };
    let south = Position { x: pos.x, y: if pos.y == u32::MAX { 0 } else { pos.y + 1 } };
    let mut r: Vec<Position> = Vec::new();
    if west.x < config.size && west.y < config.size {
        r.push(west);
    }
    if north.x < config.size && north.y < config.size {
        r.push(north);
    }
    if east.x < config.size && east.y < config.size {
        r.push(east);
    }
    if south.x < config.size && south.y < config.size {
        r.push(south);
    }
    proof {
        assert(r@ =~= adjacent_of(config, pos));
        assert forall|q: Position| r@.contains(q) == is_adjacent(config, pos, q) by {
            if r@.contains(q) {
                let i = choose|i: int| 0 <= i < r@.len() && r@[i] == q;
                assert(is_adjacent(config, pos, q));
            }
            if is_adjacent(config, pos, q) {
                if q == west_of(pos) {
                    assert(r@[0] == q);
                } else if q == north_of(pos) {
                    let i: int = if west_of(pos).in_bounds(config.size) {
                        1
                    } else {
                        0
                    };
                    assert(r@[i] == q);
                } else if q == east_of(pos) {
                    let i: int = (bounded(west_of(pos), config).len() + bounded(
                        north_of(pos),
                        config,
                    ).len()) as int;
                    assert(r@[i] == q);
                } else {
                    assert(r@[r@.len() - 1] == q);
                }
            }
        }
    }
    r
}

// ---------------------------------------------------------------------------
// Grid well-formedness and diff tracking
// ---------------------------------------------------------------------------
/// Every owned square lies on the grid and its counter is in
/// `[1, max_number]`.
pub open spec fn squares_wf(m: Map<Position, Square>, config: GameConfig) -> bool {
    forall|p: Position| #[trigger]
        m.contains_key(p) ==> p.in_bounds(config.size) && 1 <= m[p].number <= config.max_number
}

/// As `squares_wf`, except that the counter at `pos` (an origin about to
/// expand) may exceed the threshold.
pub open spec fn squares_wf_except(m: Map<Position, Square>, config: GameConfig, pos: Position) -> bool {
    &&& forall|p: Position| #[trigger]
        m.contains_key(p) ==> p.in_bounds(config.size) && 1 <= m[p].number
    &&& forall|p: Position| #[trigger]
        m.contains_key(p) && p != pos ==> m[p].number <= config.max_number
}

/// The diff record `c` describes the current state of cell `p`.
pub open spec fn change_matches(sq: Map<Position, Square>, p: Position, c: SquareChange) -> bool {
    match c.id {
        Some(o) => sq.contains_key(p) && sq[p] == (Square { owner: o, number: c.number }),
        None => !sq.contains_key(p),
    }
}

/// Every accumulated diff record describes the current state of its cell
/// (last write wins, so the accumulator always shows final states).
pub open spec fn changes_track(sq: Map<Position, Square>, ch: Map<Position, SquareChange>) -> bool {
    forall|p: Position| #[trigger] ch.contains_key(p) ==> change_matches(sq, p, ch[p])
}

/// As `changes_track`, except at `pos`, whose record may be stale while the
/// cell is mid-mutation.
pub open spec fn changes_track_except(
    sq: Map<Position, Square>,
    ch: Map<Position, SquareChange>,
    pos: Position,
) -> bool {
    forall|p: Position| #[trigger]
        ch.contains_key(p) && p != pos ==> change_matches(sq, p, ch[p])
}

/// Cell `p` has the same state (present with equal square, or absent) in `a`
/// and `b`.
pub open spec fn same_square(a: Map<Position, Square>, b: Map<Position, Square>, p: Position) -> bool {
    a.contains_key(p) == b.contains_key(p) && (a.contains_key(p) ==> a[p] == b[p])
}

// ---------------------------------------------------------------------------
// Single-step expansion, described exactly
// ---------------------------------------------------------------------------
/// The state neighbour `q` takes when an expansion with owner `owner`
/// reaches it: counter incremented if the cell was owned, a fresh counter of
/// 1 otherwise.
pub open spec fn bumped(sq: Map<Position, Square>, owner: PlayerID, q: Position) -> Square {
    if sq.contains_key(q) {
        Square { owner, number: (sq[q].number + 1) as u8 }
    } else {
        Square { owner, number: 1 }
    }
}

/// The grid after a single, non-cascading expansion of `pos`: the origin is
/// removed and every in-bounds neighbour becomes `bumped`.
pub open spec fn expand_step(sq: Map<Position, Square>, config: GameConfig, pos: Position) -> Map<
    Position,
    Square,
> {
    Map::new(
        |q: Position|
            if is_adjacent(config, pos, q) {
                true
            } else {
                sq.contains_key(q) && q != pos
            },
        |q: Position|
            if is_adjacent(config, pos, q) {
                bumped(sq, sq[pos].owner, q)
            } else {
                sq[q]
            },
    )
}

/// The diff accumulator after a single, non-cascading expansion of `pos`: a
/// removal record for the origin, an ownership record for every in-bounds
/// neighbour, everything else untouched.
pub open spec fn expand_changes(
    sq: Map<Position, Square>,
    ch: Map<Position, SquareChange>,
    config: GameConfig,
    pos: Position,
) -> Map<Position, SquareChange> {
    Map::new(
        |q: Position| ch.contains_key(q) || q == pos || is_adjacent(config, pos, q),
        |q: Position|
            if is_adjacent(config, pos, q) {
                SquareChange::of_square(bumped(sq, sq[pos].owner, q))
            } else if q == pos {
                SquareChange::removed()
            } else {
                ch[q]
            },
    )
}

/// Expanding `pos` pushes no neighbour over the threshold, so the expansion
/// stops after one step.
pub open spec fn cascade_free(sq: Map<Position, Square>, config: GameConfig, pos: Position) -> bool {
    forall|q: Position| #[trigger]
        is_adjacent(config, pos, q) && sq.contains_key(q) ==> sq[q].number + 1
            <= config.max_number
}

// ---------------------------------------------------------------------------
// The total-counter measure, used to prove that cascades terminate
// ---------------------------------------------------------------------------
/// Sum of all counters on the board. Each expansion step removes an origin
/// whose counter exceeds the threshold (at least `max_number + 1 >= 5`) and
/// adds at most 1 to each of at most 4 neighbours, so under a well-formed
/// configuration the sum strictly falls with every expansion and every
/// cascade terminates.
pub open spec fn total_number(m: Map<Position, Square>) -> nat {
    m.kv_pairs().fold(0, |acc: nat, kv: (Position, Square)| (acc + kv.1.number) as nat)
}

/// A map with a finite domain has a finite set of key-value pairs.
pub proof fn lemma_kv_pairs_finite(m: Map<Position, Square>)
    requires
        m.dom().finite(),
    ensures
        m.kv_pairs().finite(),
    decreases m.dom().len(),
{
    broadcast use vstd::set::group_set_axioms;

    if m.dom() =~= Set::<Position>::empty() {
        assert(m.kv_pairs() =~= Set::<(Position, Square)>::empty());
    } else {
        let k = m.dom().choose();
        assert(m.dom().contains(k));
        lemma_kv_pairs_finite(m.remove(k));
        assert(m.kv_pairs() =~= m.remove(k).kv_pairs().insert((k, m[k])));
    }
}

/// Inserting a fresh cell adds its counter to the total.
pub proof fn lemma_total_insert_fresh(m: Map<Position, Square>, p: Position, s: Square)
    requires
        m.dom().finite(),
        !m.contains_key(p),
    ensures
        total_number(m.insert(p, s)) == total_number(m) + s.number,
{
    broadcast use vstd::set::group_set_axioms;
    broadcast use vstd::set::fold::lemma_fold_insert;

    let f = |acc: nat, kv: (Position, Square)| (acc + kv.1.number) as nat;
    lemma_kv_pairs_finite(m);
    assert(vstd::set::fold::is_fun_commutative(f));
    assert(m.insert(p, s).kv_pairs() =~= m.kv_pairs().insert((p, s)));
    assert(!m.kv_pairs().contains((p, s)));
    assert(m.kv_pairs().insert((p, s)).fold(0, f) == f(m.kv_pairs().fold(0, f), (p, s)));
}

/// Removing a cell subtracts its counter from the total.
pub proof fn lemma_total_remove(m: Map<Position, Square>, p: Position)
    requires
        m.dom().finite(),
        m.contains_key(p),
    ensures
        total_number(m) == total_number(m.remove(p)) + m[p].number,
{
    broadcast use vstd::set::group_set_axioms;

    let m1 = m.remove(p);
    lemma_total_insert_fresh(m1, p, m[p]);
    assert(m1.insert(p, m[p]) =~= m);
}

/// Overwriting a cell swaps its old counter for the new one in the total.
pub proof fn lemma_total_overwrite(m: Map<Position, Square>, p: Position, s: Square)
    requires
        m.dom().finite(),
    ensures
        m.contains_key(p) ==> total_number(m.insert(p, s)) + m[p].number == total_number(m)
            + s.number,
        !m.contains_key(p) ==> total_number(m.insert(p, s)) == total_number(m) + s.number,
{
    broadcast use vstd::set::group_set_axioms;

    if m.contains_key(p) {
        lemma_total_remove(m, p);
        lemma_total_insert_fresh(m.remove(p), p, s);
        assert(m.remove(p).insert(p, s) =~= m.insert(p, s));
    } else {
        lemma_total_insert_fresh(m, p, s);
    }
}

/// The in-bounds neighbour list holds exactly the `is_adjacent` positions,
/// each once, and at most four of them.
proof fn lemma_adjacent_members(config: GameConfig, p: Position)
    ensures
        forall|q: Position| adjacent_of(config, p).contains(q) == is_adjacent(config, p, q),
        forall|i: int, j: int|
            0 <= i < j < adjacent_of(config, p).len() ==> adjacent_of(config, p)[i]
                != adjacent_of(config, p)[j],
        adjacent_of(config, p).len() <= 4,
{
    let r = adjacent_of(config, p);
    assert forall|q: Position| r.contains(q) == is_adjacent(config, p, q) by {
        if r.contains(q) {
            let i = choose|i: int| 0 <= i < r.len() && r[i] == q;
            assert(is_adjacent(config, p, q));
        }
        if is_adjacent(config, p, q) {
            if q == west_of(p) {
                assert(r[0] == q);
            } else if q == north_of(p) {
                let i: int = if west_of(p).in_bounds(config.size) {
                    1
                } else {
                    0
                };
                assert(r[i] == q);
            } else if q == east_of(p) {
                let i: int = (bounded(west_of(p), config).len() + bounded(
                    north_of(p),
                    config,
                ).len()) as int;
                assert(r[i] == q);
            } else {
                assert(r[r.len() - 1] == q);
            }
        }
    }
}

/// The grid after the origin's removal and the bumping of the first `k`
/// in-bounds neighbours, in order.
spec fn expand_prefix(sq: Map<Position, Square>, config: GameConfig, pos: Position, k: int) -> Map<
    Position,
    Square,
>
    decreases k,
{
    if k <= 0 {
        sq.remove(pos)
    } else {
        expand_prefix(sq, config, pos, k - 1).insert(
            adjacent_of(config, pos)[k - 1],
            bumped(sq, sq[pos].owner, adjacent_of(config, pos)[k - 1]),
        )
    }
}

/// Prefixes of an expansion keep a finite board and gain at most one
/// counter per bumped neighbour.
proof fn lemma_expand_prefix_total(sq: Map<Position, Square>, config: GameConfig, pos: Position, k: int)
    requires
        sq.dom().finite(),
        sq.contains_key(pos),
        0 <= k <= adjacent_of(config, pos).len(),
        forall|i: int, j: int|
            0 <= i < j < adjacent_of(config, pos).len() ==> adjacent_of(config, pos)[i]
                != adjacent_of(config, pos)[j],
        forall|q: Position| adjacent_of(config, pos).contains(q) == is_adjacent(config, pos, q),
    ensures
        expand_prefix(sq, config, pos, k).dom().finite(),
        total_number(expand_prefix(sq, config, pos, k)) <= total_number(sq.remove(pos)) + k,
        forall|q: Position|
            (#[trigger] expand_prefix(sq, config, pos, k).contains_key(q)) && !(exists|i: int|
                0 <= i < k && adjacent_of(config, pos)[i] == q) ==> sq.remove(pos).contains_key(q)
                && expand_prefix(sq, config, pos, k)[q] == sq.remove(pos)[q],
        forall|q: Position|
            sq.remove(pos).contains_key(q) ==> (#[trigger] expand_prefix(
                sq,
                config,
                pos,
                k,
            ).contains_key(q)),
    decreases k,
{
    broadcast use vstd::set::group_set_axioms;

    if k <= 0 {
    } else {
        lemma_expand_prefix_total(sq, config, pos, k - 1);
        let prev = expand_prefix(sq, config, pos, k - 1);
        let q = adjacent_of(config, pos)[k - 1];
        let b = bumped(sq, sq[pos].owner, q);
        assert(adjacent_of(config, pos).contains(q));
        assert(is_adjacent(config, pos, q));
        assert(q != pos);
        assert(!(exists|i: int| 0 <= i < k - 1 && adjacent_of(config, pos)[i] == q));
        lemma_total_overwrite(prev, q, b);
        if prev.contains_key(q) {
            assert(prev[q] == sq.remove(pos)[q]);
            assert(b.number <= sq[q].number + 1);
        } else {
            assert(!sq.remove(pos).contains_key(q));
            assert(b.number == 1);
        }
    }
}

/// One expansion step strictly shrinks the board's total counter sum: the
/// origin gives up a counter above the threshold — at least 5 under a
/// well-formed configuration — while at most 4 neighbours gain 1 each.
/// Cascades are finite chains of such steps, so every cascade terminates;
/// the worklist loop below carries this sum as its termination measure.
pub proof fn lemma_expansion_decreases_total(
    sq: Map<Position, Square>,
    config: GameConfig,
    pos: Position,
)
    requires
        config.wf(),
        sq.dom().finite(),
        sq.contains_key(pos),
        sq[pos].number > config.max_number,
    ensures
        total_number(expand_step(sq, config, pos)) < total_number(sq),
{
    broadcast use vstd::set::group_set_axioms;

    lemma_adjacent_members(config, pos);
    let nbrs = adjacent_of(config, pos);
    let n = nbrs.len() as int;
    lemma_expand_prefix_total(sq, config, pos, n);
    lemma_total_remove(sq, pos);
    assert(expand_step(sq, config, pos) =~= expand_prefix(sq, config, pos, n)) by {
        let full = expand_prefix(sq, config, pos, n);
        assert forall|q: Position| #[trigger]
            expand_step(sq, config, pos).dom().contains(q) implies full.contains_key(q) && full[q]
            == expand_step(sq, config, pos)[q] by {
            if is_adjacent(config, pos, q) {
                assert(nbrs.contains(q));
                let i = choose|i: int| 0 <= i < n && nbrs[i] == q;
                lemma_expand_prefix_value(sq, config, pos, i + 1, n, q);
            } else {
                assert(!(exists|i: int| 0 <= i < n && nbrs[i] == q)) by {
                    if exists|i: int| 0 <= i < n && nbrs[i] == q {
                        let i = choose|i: int| 0 <= i < n && nbrs[i] == q;
                        assert(nbrs.contains(q));
                    }
                }
                assert(sq.remove(pos).contains_key(q));
            }
        }
        assert forall|q: Position| #[trigger] full.contains_key(q) implies expand_step(
            sq,
            config,
            pos,
        ).dom().contains(q) by {
            if !is_adjacent(config, pos, q) {
                assert(!(exists|i: int| 0 <= i < n && nbrs[i] == q)) by {
                    if exists|i: int| 0 <= i < n && nbrs[i] == q {
                        let i = choose|i: int| 0 <= i < n && nbrs[i] == q;
                        assert(nbrs.contains(q));
                    }
                }
                assert(sq.remove(pos).contains_key(q));
            }
        }
    }
    assert(total_number(sq.remove(pos)) + config.max_number + 1 <= total_number(sq));
}

/// Once neighbour `i - 1` (the cell `q`) has been bumped, later prefixes
/// leave its entry alone.
proof fn lemma_expand_prefix_value(
    sq: Map<Position, Square>,
    config: GameConfig,
    pos: Position,
    i: int,
    k: int,
    q: Position,
)
    requires
        1 <= i <= k <= adjacent_of(config, pos).len(),
        adjacent_of(config, pos)[i - 1] == q,
        forall|a: int, b: int|
            0 <= a < b < adjacent_of(config, pos).len() ==> adjacent_of(config, pos)[a]
                != adjacent_of(config, pos)[b],
    ensures
        expand_prefix(sq, config, pos, k).contains_key(q),
        expand_prefix(sq, config, pos, k)[q] == bumped(sq, sq[pos].owner, q),
    decreases k,
{
    if i == k {
    } else {
        lemma_expand_prefix_value(sq, config, pos, i, k - 1, q);
        assert(adjacent_of(config, pos)[k - 1] != q);
    }
}

// ---------------------------------------------------------------------------
// Expansion
// ---------------------------------------------------------------------------
/// Expands the square at `pos`: the origin is removed (with a removal diff)
/// and each in-bounds neighbour, west to south, is handed the origin's owner
/// and one counter step — created at 1 if it was unowned. A neighbour pushed
/// over the threshold is queued and expanded in turn; the queue is a stack,
/// so the cascade runs depth-first (last queued, first expanded). The total
/// counter sum strictly falls with every step (each origin gives up more
/// than its neighbours gain, as the threshold is at least 4), which bounds
/// the cascade.
///
/// When no neighbour is pushed over the threshold, the result is exactly
/// `expand_step` / `expand_changes`. In every case the diff accumulator ends
/// up describing the final state of each touched cell, untouched cells are
/// exactly those without a new diff record, and every cell the cascade
/// touched is either removed or owned by the origin's owner.
#[verifier::loop_isolation(false)]
pub fn expand_square(
    squares: &mut PosMap<Square>,
    changes: &mut PosMap<SquareChange>,
    config: GameConfig,
    pos: Position,
)
    requires
        config.wf(),
        old(squares).wf(),
        old(changes).wf(),
        old(squares)@.contains_key(pos),
        old(squares)@[pos].number > config.max_number,
        squares_wf_except(old(squares)@, config, pos),
        changes_track_except(old(squares)@, old(changes)@, pos),
    ensures
        final(squares).wf(),
        final(changes).wf(),
        squares_wf(final(squares)@, config),
        changes_track(final(squares)@, final(changes)@),
        forall|p: Position| #[trigger]
            old(changes)@.contains_key(p) ==> final(changes)@.contains_key(p),
        forall|p: Position|
            !(#[trigger] final(changes)@.contains_key(p)) ==> !old(changes)@.contains_key(p)
                && same_square(final(squares)@, old(squares)@, p),
        final(changes)@.contains_key(pos),
        forall|p: Position| #[trigger]
            final(squares)@.contains_key(p) ==> (old(squares)@.contains_key(p)
                && old(squares)@[p] == final(squares)@[p]) || final(squares)@[p].owner
                == old(squares)@[pos].owner,
        cascade_free(old(squares)@, config, pos) ==> final(squares)@ == expand_step(
            old(squares)@,
            config,
            pos,
        ) && final(changes)@ == expand_changes(old(squares)@, old(changes)@, config, pos),
{
    let ghost sq0 = squares@;
    let ghost ch0 = changes@;
    let ghost own0 = sq0[pos].owner;
    let ghost casc = cascade_free(sq0, config, pos);
    let mut wl: Vec<Position> = Vec::new();
    wl.push(pos);
    proof {
        assert(wl@ =~= seq![pos]);
        assert(wl@[0] == pos);
        assert(wl@.contains(pos));
        assert forall|x: Position| #[trigger] wl@.contains(x) implies x == pos by {
            let i = choose|i: int| 0 <= i < wl@.len() && wl@[i] == x;
        }
    }
    while wl.len() != 0
        invariant
            squares.wf(),
            changes.wf(),
            forall|x: Position| #[trigger]
                squares@.contains_key(x) ==> x.in_bounds(config.size) && 1 <= squares@[x].number,
            forall|x: Position| #[trigger]
                squares@.contains_key(x) && squares@[x].number > config.max_number
                    ==> wl@.contains(x),
            forall|k: int|
                0 <= k < wl@.len() ==> squares@.contains_key(#[trigger] wl@[k])
                    && squares@[wl@[k]].number > config.max_number,
            forall|k: int, l: int| 0 <= k < l < wl@.len() ==> wl@[k] != wl@[l],
            forall|x: Position| #[trigger]
                squares@.contains_key(x) ==> (sq0.contains_key(x) && sq0[x] == squares@[x])
                    || squares@[x].owner == own0,
            forall|x: Position| #[trigger]
                changes@.contains_key(x) && !wl@.contains(x) ==> change_matches(
                    squares@,
                    x,
                    changes@[x],
                ),
            forall|x: Position| #[trigger] ch0.contains_key(x) ==> changes@.contains_key(x),
            forall|x: Position|
                !(#[trigger] changes@.contains_key(x)) && !wl@.contains(x) ==> !ch0.contains_key(x)
                    && same_square(squares@, sq0, x),
            changes@.contains_key(pos) || wl@.contains(pos),
            casc ==> (wl@ =~= seq![pos] && squares@ == sq0 && changes@ == ch0) || (wl@.len() == 0
                && squares@ == expand_step(sq0, config, pos) && changes@ == expand_changes(
                sq0,
                ch0,
                config,
                pos,
            )),
        decreases total_number(squares@),
    {
        let ghost sq_in = squares@;
        let ghost ch_in = changes@;
        let ghost wl_in = wl@;
        let ghost t_in = total_number(squares@);
        let p = wl.pop().unwrap();
        proof {
            assert(p == wl_in.last());
            assert(wl@ == wl_in.drop_last());
            assert(wl_in.contains(p)) by {
                assert(wl_in[wl_in.len() - 1] == p);
            }
            assert forall|x: Position| #[trigger] wl@.contains(x) implies wl_in.contains(x) && x
                != p by {
                let i = choose|i: int| 0 <= i < wl@.len() && wl@[i] == x;
                assert(wl_in[i] == x);
                assert(wl_in[wl_in.len() - 1] == p);
            }
            assert forall|x: Position| wl_in.contains(x) && x != p implies wl@.contains(x) by {
                let i = choose|i: int| 0 <= i < wl_in.len() && wl_in[i] == x;
                assert(i < wl_in.len() - 1);
                assert(wl@[i] == x);
            }
            squares.lemma_dom_finite();
            lemma_total_remove(sq_in, p);
            assert(sq_in[p].owner == own0) by {
                if sq0.contains_key(p) && sq0[p] == sq_in[p] {
                    if p != pos {
                        assert(sq_in[p].number > config.max_number);
                        assert(sq0[p].number <= config.max_number);
                    }
                }
            }
        }
        let ghost c = sq_in[p].number as nat;
        let origin = squares.remove(p).unwrap();
        proof {
            assert(origin.owner == own0);
        }
        changes.insert(p, SquareChange::create_removed());
        let nbrs = adjacent_squares(config, p);
        let ghost own = origin.owner;
        let mut k: usize = 0;
        while k < nbrs.len()
            invariant
                k <= nbrs@.len(),
                squares.wf(),
                changes.wf(),
                !squares@.contains_key(p),
                forall|x: Position| #[trigger]
                    squares@.contains_key(x) ==> x.in_bounds(config.size) && 1
                        <= squares@[x].number,
                forall|x: Position| #[trigger]
                    squares@.contains_key(x) && squares@[x].number > config.max_number
                        ==> wl@.contains(x),
                forall|j: int|
                    0 <= j < wl@.len() ==> squares@.contains_key(#[trigger] wl@[j])
                        && squares@[wl@[j]].number > config.max_number,
                forall|j: int, l: int| 0 <= j < l < wl@.len() ==> wl@[j] != wl@[l],
                origin.owner == own0,
                forall|x: Position| #[trigger]
                    squares@.contains_key(x) ==> (sq0.contains_key(x) && sq0[x] == squares@[x])
                        || squares@[x].owner == own0,
                forall|x: Position| #[trigger]
                    changes@.contains_key(x) && !wl@.contains(x) ==> change_matches(
                        squares@,
                        x,
                        changes@[x],
                    ),
                forall|x: Position| #[trigger] ch0.contains_key(x) ==> changes@.contains_key(x),
                forall|x: Position|
                    !(#[trigger] changes@.contains_key(x)) && !wl@.contains(x)
                        ==> !ch0.contains_key(x) && same_square(squares@, sq0, x),
                changes@.contains_key(pos) || wl@.contains(pos),
                total_number(squares@) + c <= t_in + k,
                casc ==> p == pos && wl@.len() == 0 && !squares@.contains_key(pos)
                    && changes@.contains_key(pos) && changes@[pos] == SquareChange::removed() && (
                forall|j: int|
                    0 <= j < k ==> squares@.contains_key(#[trigger] nbrs@[j]) && squares@[nbrs@[j]]
                        == bumped(sq0, sq0[pos].owner, nbrs@[j]) && changes@.contains_key(nbrs@[j])
                        && changes@[nbrs@[j]] == SquareChange::of_square(
                        bumped(sq0, sq0[pos].owner, nbrs@[j]),
                    )) && (forall|j: int|
                    k <= j < nbrs@.len() ==> squares@.contains_key(#[trigger] nbrs@[j])
                        == sq0.contains_key(nbrs@[j]) && (sq0.contains_key(nbrs@[j])
                        ==> squares@[nbrs@[j]] == sq0[nbrs@[j]]) && changes@.contains_key(nbrs@[j])
                        == ch0.contains_key(nbrs@[j]) && (ch0.contains_key(nbrs@[j])
                        ==> changes@[nbrs@[j]] == ch0[nbrs@[j]])) && (forall|x: Position|
                    x != pos && !is_adjacent(config, pos, x) ==> (#[trigger] squares@.contains_key(
                        x,
                    )) == sq0.contains_key(x) && (sq0.contains_key(x) ==> squares@[x] == sq0[x]))
                    && (forall|x: Position|
                    x != pos && !is_adjacent(config, pos, x) ==> (#[trigger] changes@.contains_key(
                        x,
                    )) == ch0.contains_key(x) && (ch0.contains_key(x) ==> changes@[x] == ch0[x])),
            decreases nbrs@.len() - k,
        {
            let q = nbrs[k];
            proof {
                assert(nbrs@.contains(q)) by {
                    assert(nbrs@[k as int] == q);
                }
                assert(is_adjacent(config, p, q));
                assert(q != p);
                squares.lemma_dom_finite();
            }
            let ghost sq_k = squares@;
            match squares.get(q) {
                Some(old_sq) => {
                    let newn: u8 = if old_sq.number == 255 {
                        255
                    } else {
                        old_sq.number + 1
                    };
                    proof {
                        lemma_total_overwrite(sq_k, q, Square { owner: origin.owner, number: newn });
                    }
                    squares.insert(q, Square { owner: origin.owner, number: newn });
                    if newn > config.max_number {
                        if old_sq.number <= config.max_number {
                            proof {
                                assert(!wl@.contains(q)) by {
                                    if wl@.contains(q) {
                                        let j = choose|j: int| 0 <= j < wl@.len() && wl@[j] == q;
                                        assert(sq_k[wl@[j]].number > config.max_number);
                                    }
                                }
                            }
                            let ghost wl_b = wl@;
                            wl.push(q);
                            proof {
                                assert(wl@ == wl_b.push(q));
                                assert(wl@[wl@.len() - 1] == q);
                                assert(wl@.contains(q));
                                assert forall|x: Position| #[trigger] wl_b.contains(x) implies wl@.contains(x) by {
                                    let i = choose|i: int| 0 <= i < wl_b.len() && wl_b[i] == x;
                                    assert(wl@[i] == x);
                                }
                                assert forall|x: Position| #[trigger] wl@.contains(x) implies x
                                    == q || wl_b.contains(x) by {
                                    let i = choose|i: int| 0 <= i < wl@.len() && wl@[i] == x;
                                    if i < wl@.len() - 1 {
                                        assert(wl_b[i] == x);
                                    }
                                }
                            }
                        }
                    } else {
                        changes.insert(q, SquareChange { id: Some(origin.owner), number: newn });
                    }
                },
                None => {
                    proof {
                        lemma_total_overwrite(sq_k, q, Square { owner: origin.owner, number: 1 });
                    }
                    squares.insert(q, Square { owner: origin.owner, number: 1 });
                    changes.insert(q, SquareChange { id: Some(origin.owner), number: 1 });
                },
            }
            k += 1;
        }
        proof {
            assert(total_number(squares@) + c <= t_in + nbrs@.len());
            assert(c >= config.max_number + 1 >= 5);
            assert(total_number(squares@) < t_in);
            if casc {
                assert(squares@ =~= expand_step(sq0, config, pos)) by {
                    assert forall|x: Position| #[trigger]
                        expand_step(sq0, config, pos).dom().contains(x) implies squares@.contains_key(x)
                        && squares@[x] == expand_step(sq0, config, pos)[x] by {
                        if is_adjacent(config, pos, x) {
                            assert(nbrs@.contains(x));
                            let j = choose|j: int| 0 <= j < nbrs@.len() && nbrs@[j] == x;
                            assert(squares@[nbrs@[j]] == bumped(sq0, sq0[pos].owner, nbrs@[j]));
                        } else {
                            assert(x != pos);
                            assert(squares@.contains_key(x) == sq0.contains_key(x));
                        }
                    }
                    assert forall|x: Position| #[trigger] squares@.contains_key(x) implies expand_step(
                        sq0,
                        config,
                        pos,
                    ).dom().contains(x) by {
                        if !is_adjacent(config, pos, x) {
                            assert(x != pos);
                            assert(squares@.contains_key(x) == sq0.contains_key(x));
                        }
                    }
                }
                assert(changes@ =~= expand_changes(sq0, ch0, config, pos)) by {
                    assert forall|x: Position| #[trigger]
                        expand_changes(sq0, ch0, config, pos).dom().contains(x) implies changes@.contains_key(
                        x,
                    ) && changes@[x] == expand_changes(sq0, ch0, config, pos)[x] by {
                        if is_adjacent(config, pos, x) {
                            assert(nbrs@.contains(x));
                            let j = choose|j: int| 0 <= j < nbrs@.len() && nbrs@[j] == x;
                            assert(changes@[nbrs@[j]] == SquareChange::of_square(
                                bumped(sq0, sq0[pos].owner, nbrs@[j]),
                            ));
                        } else if x != pos {
                            assert(changes@.contains_key(x) == ch0.contains_key(x));
                            assert(ch0.contains_key(x) ==> changes@[x] == ch0[x]);
                        }
                    }
                    assert forall|x: Position| #[trigger] changes@.contains_key(x) implies expand_changes(
                        sq0,
                        ch0,
                        config,
                        pos,
                    ).dom().contains(x) by {
                        if !is_adjacent(config, pos, x) && x != pos {
                            assert(changes@.contains_key(x) == ch0.contains_key(x));
                        }
                    }
                }
            }
        }
    }
}

// ---------------------------------------------------------------------------
// Clicks
// ---------------------------------------------------------------------------
/// The grid right after a click by `id` on the owned square `pos` has
/// incremented its counter, before any expansion is considered.
pub open spec fn clicked(sq: Map<Position, Square>, id: PlayerID, pos: Position) -> Map<
    Position,
    Square,
> {
    sq.insert(pos, Square { owner: id, number: (sq[pos].number + 1) as u8 })
}

/// The grid after one click that is absorbed without expansion: a click on a
/// cell the player owns, whose counter stays within the threshold,
/// increments the counter; a rejected click (unowned cell — this engine
/// ignores clicks on unowned cells rather than granting them — or a foreign
/// owner) leaves the grid unchanged.
pub open spec fn click_step(
    sq: Map<Position, Square>,
    config: GameConfig,
    id: PlayerID,
    pos: Position,
) -> Map<Position, Square> {
    if sq.contains_key(pos) && sq[pos].owner == id && sq[pos].number + 1 <= config.max_number {
        clicked(sq, id, pos)
    } else {
        sq
    }
}

/// `n` successive clicks by `id` on `pos`, each absorbed without expansion.
pub open spec fn click_steps(
    sq: Map<Position, Square>,
    config: GameConfig,
    id: PlayerID,
    pos: Position,
    n: nat,
) -> Map<Position, Square>
    decreases n,
{
    if n == 0 {
        sq
    } else {
        click_step(click_steps(sq, config, id, pos, (n - 1) as nat), config, id, pos)
    }
}

/// For any sequence of clicks by a square's owner whose running counter
/// stays within the threshold, the square's owner is unchanged and its
/// counter rises by exactly the number of clicks applied — and no other cell
/// is touched.
pub proof fn lemma_owner_clicks_accumulate(
    sq: Map<Position, Square>,
    config: GameConfig,
    id: PlayerID,
    pos: Position,
    n: nat,
)
    requires
        sq.contains_key(pos),
        sq[pos].owner == id,
        sq[pos].number + n <= config.max_number,
    ensures
        click_steps(sq, config, id, pos, n).contains_key(pos),
        click_steps(sq, config, id, pos, n)[pos].owner == id,
        click_steps(sq, config, id, pos, n)[pos].number == sq[pos].number + n,
        forall|q: Position|
            q != pos ==> (#[trigger] click_steps(sq, config, id, pos, n).contains_key(q))
                == sq.contains_key(q) && (sq.contains_key(q) ==> click_steps(
                sq,
                config,
                id,
                pos,
                n,
            )[q] == sq[q]),
    decreases n,
{
    if n > 0 {
        lemma_owner_clicks_accumulate(sq, config, id, pos, (n - 1) as nat);
    }
}

/// What one click through the engine does: the relation between the grid
/// and the accumulator before (`sq0`, `ch0`) and after (`sq1`, `ch1`)
/// applying `click`. A click on an unowned cell is ignored (no land grab),
/// a click on a square owned by someone else is rejected, a click on the
/// player's own square increments its counter exactly — and triggers an
/// expansion exactly when the incremented counter exceeds the threshold, in
/// which case every touched cell ends removed or owned by the clicker, and
/// the exact single-step result holds whenever no cascade follows.
pub open spec fn click_applied(
    config: GameConfig,
    click: (PlayerID, Position),
    sq0: Map<Position, Square>,
    ch0: Map<Position, SquareChange>,
    sq1: Map<Position, Square>,
    ch1: Map<Position, SquareChange>,
) -> bool {
    &&& squares_wf(sq1, config)
    &&& changes_track(sq1, ch1)
    &&& forall|p: Position| #[trigger] ch0.contains_key(p) ==> ch1.contains_key(p)
    &&& forall|p: Position|
        !(#[trigger] ch1.contains_key(p)) ==> !ch0.contains_key(p) && same_square(sq1, sq0, p)
    &&& (!(sq0.contains_key(click.1) && sq0[click.1].owner == click.0) ==> sq1 == sq0 && ch1
        == ch0)
    &&& (sq0.contains_key(click.1) && sq0[click.1].owner == click.0 && sq0[click.1].number + 1
        <= config.max_number ==> sq1 == click_step(sq0, config, click.0, click.1) && ch1
        == ch0.insert(
        click.1,
        SquareChange::of_square(
            (Square { owner: click.0, number: (sq0[click.1].number + 1) as u8 }),
        ),
    ))
    &&& (sq0.contains_key(click.1) && sq0[click.1].owner == click.0 && sq0[click.1].number + 1
        > config.max_number ==> ch1.contains_key(click.1) && (forall|p: Position| #[trigger]
        sq1.contains_key(p) ==> (sq0.contains_key(p) && sq0[p] == sq1[p]) || sq1[p].owner
            == click.0))
    &&& (sq0.contains_key(click.1) && sq0[click.1].owner == click.0 && sq0[click.1].number + 1
        > config.max_number && cascade_free(sq0, config, click.1) ==> sq1 == expand_step(
        clicked(sq0, click.0, click.1),
        config,
        click.1,
    ) && ch1 == expand_changes(clicked(sq0, click.0, click.1), ch0, config, click.1))
}

/// A whole queue of clicks, applied through the engine in arrival order:
/// each click relates one intermediate state to the next by
/// `click_applied`.
pub open spec fn clicks_applied(
    config: GameConfig,
    queue: Seq<(PlayerID, Position)>,
    sq0: Map<Position, Square>,
    ch0: Map<Position, SquareChange>,
    sq1: Map<Position, Square>,
    ch1: Map<Position, SquareChange>,
) -> bool
    decreases queue.len(),
{
    if queue.len() == 0 {
        sq1 == sq0 && ch1 == ch0
    } else {
        exists|sqm: Map<Position, Square>, chm: Map<Position, SquareChange>|
            #[trigger] click_applied(config, queue[0], sq0, ch0, sqm, chm) && clicks_applied(
                config,
                queue.drop_first(),
                sqm,
                chm,
                sq1,
                ch1,
            )
    }
}

/// Extending an in-order application of the first `i` queued clicks by the
/// next one.
pub proof fn lemma_clicks_applied_snoc(
    config: GameConfig,
    queue: Seq<(PlayerID, Position)>,
    i: int,
    sq0: Map<Position, Square>,
    ch0: Map<Position, SquareChange>,
    sq1: Map<Position, Square>,
    ch1: Map<Position, SquareChange>,
    sq2: Map<Position, Square>,
    ch2: Map<Position, SquareChange>,
)
    requires
        0 <= i < queue.len(),
        clicks_applied(config, queue.take(i), sq0, ch0, sq1, ch1),
        click_applied(config, queue[i], sq1, ch1, sq2, ch2),
    ensures
        clicks_applied(config, queue.take(i + 1), sq0, ch0, sq2, ch2),
    decreases i,
{
    let t1 = queue.take(i + 1);
    assert(t1[0] == queue[0]);
    if i == 0 {
        assert(sq1 == sq0 && ch1 == ch0);
        assert(t1.drop_first() =~= queue.take(0));
        assert(clicks_applied(config, t1.drop_first(), sq2, ch2, sq2, ch2));
        assert(click_applied(config, t1[0], sq0, ch0, sq2, ch2));
    } else {
        let t = queue.take(i);
        assert(t.len() == i);
        assert(t[0] == queue[0]);
        let (sqm, chm): (Map<Position, Square>, Map<Position, SquareChange>) = choose|
            sqm: Map<Position, Square>,
            chm: Map<Position, SquareChange>,
        |
            #[trigger] click_applied(config, t[0], sq0, ch0, sqm, chm) && clicks_applied(
                config,
                t.drop_first(),
                sqm,
                chm,
                sq1,
                ch1,
            );
        assert(t.drop_first() =~= queue.drop_first().take(i - 1));
        assert(queue.drop_first()[i - 1] == queue[i]);
        lemma_clicks_applied_snoc(
            config,
            queue.drop_first(),
            i - 1,
            sqm,
            chm,
            sq1,
            ch1,
            sq2,
            ch2,
        );
        assert(t1.drop_first() =~= queue.drop_first().take(i));
        assert(click_applied(config, t1[0], sq0, ch0, sqm, chm));
        assert(clicks_applied(config, t1.drop_first(), sqm, chm, sq2, ch2));
    }
}

/// Applies one pending click, as `click_applied` describes: a click on an
/// unowned cell is ignored (no land grab), a click on a square owned by
/// someone else is rejected, and a click on the player's own square
/// increments its counter and records the diff; expansion is invoked
/// exactly when the incremented counter exceeds the threshold.
pub fn apply_click(
    squares: &mut PosMap<Square>,
    changes: &mut PosMap<SquareChange>,
    config: GameConfig,
    click: (PlayerID, Position),
)
    requires
        config.wf(),
        old(squares).wf(),
        old(changes).wf(),
        squares_wf(old(squares)@, config),
        changes_track(old(squares)@, old(changes)@),
    ensures
        final(squares).wf(),
        final(changes).wf(),
        click_applied(
            config,
            click,
            old(squares)@,
            old(changes)@,
            final(squares)@,
            final(changes)@,
        ),
{
    let id = click.0;
    let pos = click.1;
    let ghost sq0 = squares@;
    let ghost ch0 = changes@;
    match squares.get(pos) {
        None => {},
        Some(square) => {
            if square.owner == id {
                let newn: u8 = square.number + 1;
                squares.insert(pos, Square { owner: id, number: newn });
                proof {
                    assert(squares@ == clicked(sq0, id, pos));
                }
                if newn > config.max_number {
                    proof {
                        if cascade_free(sq0, config, pos) {
                            assert forall|q: Position| #[trigger]
                                is_adjacent(config, pos, q) && squares@.contains_key(q) implies squares@[q].number
                                + 1 <= config.max_number by {
                                assert(q != pos);
                            }
                        }
                    }
                    expand_square(squares, changes, config, pos);
                    proof {
                        assert forall|p: Position|
                            !(#[trigger] changes@.contains_key(p)) implies !ch0.contains_key(p)
                            && same_square(squares@, sq0, p) by {
                            assert(p != pos);
                            assert(same_square(squares@, clicked(sq0, id, pos), p));
                        }
                    }
                } else {
                    changes.insert(pos, SquareChange { id: Some(id), number: newn });
                }
            }
        },
    }
}

} // verus!
