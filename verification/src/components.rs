use vstd::prelude::*;

use std::collections::VecDeque;

use crate::image::{lemma_pixel_position, lemma_position_order, Rect};

verus! {

/// A cell `(x, y)` of a `width × height` grid.
pub open spec fn in_grid(width: int, height: int, c: (int, int)) -> bool {
    0 <= c.0 < width && 0 <= c.1 < height
}

/// The cell is inside the grid and set in the row-major mask.
pub open spec fn lit(mask: Seq<bool>, width: int, height: int, c: (int, int)) -> bool {
    in_grid(width, height, c) && mask[c.1 * width + c.0]
}

/// Two cells share an edge.
pub open spec fn adjacent(a: (int, int), b: (int, int)) -> bool {
    ||| a.0 == b.0 && (a.1 == b.1 + 1 || b.1 == a.1 + 1)
    ||| a.1 == b.1 && (a.0 == b.0 + 1 || b.0 == a.0 + 1)
}

/// A walk through set cells, each one edge-adjacent to the next.
pub open spec fn is_path(mask: Seq<bool>, width: int, height: int, path: Seq<(int, int)>) -> bool {
    &&& path.len() >= 1
    &&& forall|i: int| 0 <= i < path.len() ==> lit(mask, width, height, #[trigger] path[i])
    &&& forall|i: int| 0 <= i < path.len() - 1 ==> adjacent(#[trigger] path[i], path[i + 1])
}

/// A walk from `a` to `b`.
pub open spec fn path_between(mask: Seq<bool>, width: int, height: int, path: Seq<(int, int)>, a: (int, int), b: (int, int)) -> bool {
    is_path(mask, width, height, path) && path[0] == a && path.last() == b
}

/// `b` lies in the 4-connected component of the set cell `a`.
pub open spec fn connected(mask: Seq<bool>, width: int, height: int, a: (int, int), b: (int, int)) -> bool {
    exists|path: Seq<(int, int)>| #[trigger] path_between(mask, width, height, path, a, b)
}

/// The cells of the 4-connected component of `start`.
pub open spec fn component_cells(mask: Seq<bool>, width: int, height: int, start: (int, int)) -> Set<(int, int)> {
    Set::new(|c: (int, int)| connected(mask, width, height, start, c))
}

/// A set cell is connected to itself.
pub proof fn lemma_connected_refl(mask: Seq<bool>, width: int, height: int, a: (int, int))
    requires
        lit(mask, width, height, a),
    ensures
        connected(mask, width, height, a, a),
{
    let path = seq![a];
    assert(path_between(mask, width, height, path, a, a));
}

/// Both ends of a connection are set cells.
pub proof fn lemma_connected_lit(mask: Seq<bool>, width: int, height: int, a: (int, int), b: (int, int))
    requires
        connected(mask, width, height, a, b),
    ensures
        lit(mask, width, height, a),
        lit(mask, width, height, b),
{
    let path = choose|path: Seq<(int, int)>| #[trigger] path_between(mask, width, height, path, a, b);
    assert(lit(mask, width, height, path[0]));
    assert(lit(mask, width, height, path[path.len() - 1]));
}

/// One more step to an adjacent set cell.
pub proof fn lemma_connected_step(mask: Seq<bool>, width: int, height: int, a: (int, int), q: (int, int), b: (int, int))
    requires
        connected(mask, width, height, a, q),
        adjacent(q, b),
        lit(mask, width, height, b),
    ensures
        connected(mask, width, height, a, b),
{
    let path = choose|path: Seq<(int, int)>| #[trigger] path_between(mask, width, height, path, a, q);
    let longer = path.push(b);
    assert forall|i: int| 0 <= i < longer.len() - 1 implies adjacent(#[trigger] longer[i], longer[i + 1]) by {
        if i < path.len() - 1 {
            assert(adjacent(path[i], path[i + 1]));
        }
    }
    assert forall|i: int| 0 <= i < longer.len() implies lit(mask, width, height, #[trigger] longer[i]) by {
        if i < path.len() {
            assert(lit(mask, width, height, path[i]));
        }
    }
    assert(path_between(mask, width, height, longer, a, b));
}

/// Connection between set cells is symmetric.
pub proof fn lemma_connected_symm(mask: Seq<bool>, width: int, height: int, a: (int, int), b: (int, int))
    requires
        connected(mask, width, height, a, b),
    ensures
        connected(mask, width, height, b, a),
{
    let path = choose|path: Seq<(int, int)>| #[trigger] path_between(mask, width, height, path, a, b);
    let back = path.reverse();
    assert forall|i: int| 0 <= i < back.len() - 1 implies adjacent(#[trigger] back[i], back[i + 1]) by {
        let j = path.len() - 2 - i;
        assert(adjacent(path[j], path[j + 1]));
    }
    assert forall|i: int| 0 <= i < back.len() implies lit(mask, width, height, #[trigger] back[i]) by {
        assert(lit(mask, width, height, path[path.len() - 1 - i]));
    }
    assert(path_between(mask, width, height, back, b, a));
}

/// Connection is transitive.
pub proof fn lemma_connected_trans(mask: Seq<bool>, width: int, height: int, a: (int, int), b: (int, int), c: (int, int))
    requires
        connected(mask, width, height, a, b),
        connected(mask, width, height, b, c),
    ensures
        connected(mask, width, height, a, c),
{
    let first = choose|path: Seq<(int, int)>| #[trigger] path_between(mask, width, height, path, a, b);
    let second = choose|path: Seq<(int, int)>| #[trigger] path_between(mask, width, height, path, b, c);
    let joined = first + second.drop_first();
    assert forall|i: int| 0 <= i < joined.len() implies lit(mask, width, height, #[trigger] joined[i]) by {
        if i < first.len() {
            assert(lit(mask, width, height, first[i]));
        } else {
            assert(lit(mask, width, height, second[i - first.len() + 1]));
        }
    }
    assert forall|i: int| 0 <= i < joined.len() - 1 implies adjacent(#[trigger] joined[i], joined[i + 1]) by {
        if i < first.len() - 1 {
            assert(adjacent(first[i], first[i + 1]));
        } else if i == first.len() - 1 {
            assert(adjacent(second[0], second[1]));
        } else {
            let j = i - first.len() + 1;
            assert(adjacent(second[j], second[j + 1]));
        }
    }
    if second.len() == 1 {
        assert(joined =~= first);
    }
    assert(path_between(mask, width, height, joined, a, c));
}

/// A set of cells that holds the start of a walk, and every set neighbour of each of
/// its members, holds the whole walk.
pub proof fn lemma_closed_holds_path(mask: Seq<bool>, width: int, height: int, cells: Set<(int, int)>, path: Seq<(int, int)>, k: int)
    requires
        is_path(mask, width, height, path),
        cells.contains(path[0]),
        0 <= k < path.len(),
        forall|p: (int, int), q: (int, int)|
            #![trigger cells.contains(p), lit(mask, width, height, q)]
            cells.contains(p) && adjacent(p, q) && lit(mask, width, height, q) ==> cells.contains(q),
    ensures
        cells.contains(path[k]),
    decreases k,
{
    if k > 0 {
        lemma_closed_holds_path(mask, width, height, cells, path, k - 1);
        assert(adjacent(path[k - 1], path[k]));
        assert(lit(mask, width, height, path[k]));
    }
}

/// A set closed under set neighbours holds the whole component of each member.
pub proof fn lemma_closed_holds_component(mask: Seq<bool>, width: int, height: int, cells: Set<(int, int)>, a: (int, int), b: (int, int))
    requires
        cells.contains(a),
        forall|p: (int, int), q: (int, int)|
            #![trigger cells.contains(p), lit(mask, width, height, q)]
            cells.contains(p) && adjacent(p, q) && lit(mask, width, height, q) ==> cells.contains(q),
        connected(mask, width, height, a, b),
    ensures
        cells.contains(b),
{
    let path = choose|path: Seq<(int, int)>| #[trigger] path_between(mask, width, height, path, a, b);
    lemma_closed_holds_path(mask, width, height, cells, path, path.len() - 1);
}

/// A connected group of set cells: its bounding box and its number of cells.
#[derive(Clone, Copy, Debug, PartialEq, Eq, Structural)]
pub struct Component {
    pub bounds: Rect,
    pub pixels: u32,
}

/// `component` is the bounding box and cell count of `cells`.
pub open spec fn summarizes(component: Component, cells: Set<(int, int)>) -> bool {
    let b = component.bounds;
    &&& component.pixels == cells.len()
    &&& forall|c: (int, int)|
        #[trigger] cells.contains(c) ==> b.x <= c.0 < b.x + b.width && b.y <= c.1 < b.y + b.height
    &&& exists|c: (int, int)| #[trigger] cells.contains(c) && c.0 == b.x
    &&& exists|c: (int, int)| #[trigger] cells.contains(c) && c.0 == b.x + b.width - 1
    &&& exists|c: (int, int)| #[trigger] cells.contains(c) && c.1 == b.y
    &&& exists|c: (int, int)| #[trigger] cells.contains(c) && c.1 == b.y + b.height - 1
}

pub open spec fn cell_of(p: (usize, usize)) -> (int, int) {
    (p.0 as int, p.1 as int)
}

/// The grid cells whose flag is set in the row-major `flags`.
pub open spec fn marked(flags: Seq<bool>, width: int, height: int) -> Set<(int, int)> {
    Set::new(|c: (int, int)| in_grid(width, height, c) && flags[c.1 * width + c.0])
}

/// Every set neighbour of a member is a member.
pub open spec fn closed(mask: Seq<bool>, width: int, height: int, cells: Set<(int, int)>) -> bool {
    forall|p: (int, int), q: (int, int)|
        #![trigger cells.contains(p), lit(mask, width, height, q)]
        cells.contains(p) && adjacent(p, q) && lit(mask, width, height, q) ==> cells.contains(q)
}

/// How many flags are unset.
pub open spec fn count_false(flags: Seq<bool>) -> nat
    decreases flags.len(),
{
    if flags.len() == 0 {
        0
    } else {
        count_false(flags.drop_last()) + if flags.last() {
            0nat
        } else {
            1nat
        }
    }
}

pub proof fn lemma_count_false_bound(flags: Seq<bool>)
    ensures
        count_false(flags) <= flags.len(),
    decreases flags.len(),
{
    if flags.len() > 0 {
        lemma_count_false_bound(flags.drop_last());
    }
}

/// Setting an unset flag lowers the count by one.
pub proof fn lemma_count_false_set(flags: Seq<bool>, i: int)
    requires
        0 <= i < flags.len(),
        !flags[i],
    ensures
        count_false(flags.update(i, true)) + 1 == count_false(flags),
    decreases flags.len(),
{
    let updated = flags.update(i, true);
    if i == flags.len() - 1 {
        assert(updated.drop_last() =~= flags.drop_last());
    } else {
        assert(updated.drop_last() =~= flags.drop_last().update(i, true));
        lemma_count_false_set(flags.drop_last(), i);
    }
}

/// Distinct grid cells have distinct row-major positions.
pub proof fn lemma_position_injective(width: int, a: (int, int), b: (int, int))
    requires
        0 <= a.0 < width,
        0 <= b.0 < width,
        0 <= a.1,
        0 <= b.1,
        a.1 * width + a.0 == b.1 * width + b.0,
    ensures
        a == b,
{
    if a.1 < b.1 || (a.1 == b.1 && a.0 < b.0) {
        lemma_position_order(width, a.0, a.1, b.0, b.1);
    } else if b.1 < a.1 || (a.1 == b.1 && b.0 < a.0) {
        lemma_position_order(width, b.0, b.1, a.0, a.1);
    }
}

/// Setting the flag of one cell adds just that cell to the marked set.
pub proof fn lemma_mark_cell(flags: Seq<bool>, width: int, height: int, c: (int, int))
    requires
        in_grid(width, height, c),
        flags.len() == width * height,
    ensures
        marked(flags.update(c.1 * width + c.0, true), width, height) =~= marked(flags, width, height).insert(c),
{
    lemma_pixel_position(width, height, c.0, c.1);
    let updated = flags.update(c.1 * width + c.0, true);
    assert forall|d: (int, int)| #[trigger] marked(updated, width, height).contains(d) <==> marked(flags, width, height).insert(c).contains(d) by {
        if in_grid(width, height, d) {
            lemma_pixel_position(width, height, d.0, d.1);
            if d.1 * width + d.0 == c.1 * width + c.0 {
                lemma_position_injective(width, d, c);
            }
        }
    }
}

/// The in-grid cells left of, right of, above and below `(x, y)`, in that order.
pub open spec fn neighbor_cells(x: int, y: int, width: int, height: int) -> Seq<(usize, usize)> {
    let left = if x > 0 { seq![((x - 1) as usize, y as usize)] } else { Seq::empty() };
    let right = if x + 1 < width { seq![((x + 1) as usize, y as usize)] } else { Seq::empty() };
    let up = if y > 0 { seq![(x as usize, (y - 1) as usize)] } else { Seq::empty() };
    let down = if y + 1 < height { seq![(x as usize, (y + 1) as usize)] } else { Seq::empty() };
    left + right + up + down
}

/// The edge-adjacent cells of `(x, y)` inside a `width × height` grid.
pub fn neighbors(x: usize, y: usize, width: usize, height: usize) -> (v: Vec<(usize, usize)>)
    requires
        x < width,
        y < height,
    ensures
        v@ == neighbor_cells(x as int, y as int, width as int, height as int),
        forall|i: int| 0 <= i < v@.len() ==> in_grid(width as int, height as int, cell_of(#[trigger] v@[i])) && adjacent((x as int, y as int), cell_of(v@[i])),
        forall|c: (int, int)| in_grid(width as int, height as int, c) && adjacent((x as int, y as int), c) ==> exists|i: int| 0 <= i < v@.len() && #[trigger] cell_of(v@[i]) == c,
{
    let mut v: Vec<(usize, usize)> = Vec::new();
    if x > 0 {
        v.push((x - 1, y));
    }
    if x + 1 < width {
        v.push((x + 1, y));
    }
    if y > 0 {
        v.push((x, y - 1));
    }
    if y + 1 < height {
        v.push((x, y + 1));
    }
    proof {
        let s = neighbor_cells(x as int, y as int, width as int, height as int);
        assert(v@ =~= s);
        assert forall|c: (int, int)| in_grid(width as int, height as int, c) && adjacent((x as int, y as int), c) implies exists|i: int| 0 <= i < v@.len() && #[trigger] cell_of(v@[i]) == c by {
            let r: int = if x > 0 { 1 } else { 0 };
            let u: int = if x + 1 < width { r + 1 } else { r };
            let d: int = if y > 0 { u + 1 } else { u };
            if c == (x - 1, y as int) {
                assert(cell_of(v@[0]) == c);
            } else if c == (x + 1, y as int) {
                assert(cell_of(v@[r]) == c);
            } else if c == (x as int, y - 1) {
                assert(cell_of(v@[u]) == c);
            } else {
                assert(cell_of(v@[d]) == c);
            }
        }
    }
    v
}

/// No cell of `cells` lies in the component of `start`.
pub open spec fn apart_from_component(m: Seq<bool>, w: int, h: int, start: (int, int), cells: Set<(int, int)>) -> bool {
    forall|c: (int, int)| #[trigger] cells.contains(c) ==> !connected(m, w, h, start, c)
}

/// The bookkeeping of a flood fill from `start`: `found` are the cells it has marked,
/// `done` those whose neighbours it has handled, `held` the one it is handling, and the
/// queue the rest, each once.
#[verifier::opaque]
pub open spec fn flood_state(
    m: Seq<bool>,
    w: int,
    h: int,
    start: (int, int),
    before: Set<(int, int)>,
    flags: Seq<bool>,
    queue: Seq<(usize, usize)>,
    found: Set<(int, int)>,
    done: Set<(int, int)>,
    held: Set<(int, int)>,
) -> bool {
    &&& in_grid(w, h, start)
    &&& !before.contains(start)
    &&& apart_from_component(m, w, h, start, before)
    &&& flags.len() == m.len()
    &&& marked(flags, w, h) == before.union(found)
    &&& found.contains(start)
    &&& forall|c: (int, int)| #[trigger] found.contains(c) ==> lit(m, w, h, c) && !before.contains(c)
        && connected(m, w, h, start, c)
    &&& done.finite()
    &&& forall|c: (int, int)| #[trigger] done.contains(c) ==> found.contains(c) && !held.contains(c)
    &&& forall|c: (int, int)| #[trigger] held.contains(c) ==> found.contains(c)
    &&& forall|i: int|
        0 <= i < queue.len() ==> found.contains(#[trigger] cell_of(queue[i])) && !done.contains(
            cell_of(queue[i]),
        ) && !held.contains(cell_of(queue[i])) && in_grid(w, h, cell_of(queue[i]))
    &&& forall|c: (int, int)|
        #[trigger] found.contains(c) ==> done.contains(c) || held.contains(c) || exists|i: int|
            0 <= i < queue.len() && #[trigger] cell_of(queue[i]) == c
    &&& forall|i: int, j: int| 0 <= i < j < queue.len() ==> queue[i] != queue[j]
    &&& forall|p: (int, int), q: (int, int)|
        #![trigger done.contains(p), lit(m, w, h, q)]
        done.contains(p) && adjacent(p, q) && lit(m, w, h, q) ==> marked(flags, w, h).contains(q)
}

/// The fill starts with the start cell marked and queued.
pub proof fn lemma_flood_start(m: Seq<bool>, w: int, h: int, s: (usize, usize), before_flags: Seq<bool>)
    requires
        in_grid(w, h, cell_of(s)),
        lit(m, w, h, cell_of(s)),
        before_flags.len() == m.len(),
        m.len() == w * h,
        apart_from_component(m, w, h, cell_of(s), marked(before_flags, w, h)),
    ensures
        flood_state(
            m,
            w,
            h,
            cell_of(s),
            marked(before_flags, w, h),
            before_flags.update(cell_of(s).1 * w + cell_of(s).0, true),
            seq![s],
            Set::empty().insert(cell_of(s)),
            Set::empty(),
            Set::empty(),
        ),
{
    reveal(flood_state);
    lemma_connected_refl(m, w, h, cell_of(s));
    assert(!marked(before_flags, w, h).contains(cell_of(s)));
    lemma_pixel_position(w, h, cell_of(s).0, cell_of(s).1);
    lemma_mark_cell(before_flags, w, h, cell_of(s));
    assert(marked(before_flags, w, h).union(Set::empty().insert(cell_of(s))) =~= marked(before_flags, w, h).insert(cell_of(s)));
    lemma_connected_refl(m, w, h, cell_of(s));
    let queue = seq![s];
    assert(queue[0] == s);
}

/// Taking the head of the queue to handle it.
pub proof fn lemma_flood_pop(
    m: Seq<bool>,
    w: int,
    h: int,
    start: (int, int),
    before: Set<(int, int)>,
    flags: Seq<bool>,
    queue: Seq<(usize, usize)>,
    found: Set<(int, int)>,
    done: Set<(int, int)>,
)
    requires
        flood_state(m, w, h, start, before, flags, queue, found, done, Set::empty()),
        queue.len() > 0,
    ensures
        flood_state(
            m,
            w,
            h,
            start,
            before,
            flags,
            queue.subrange(1, queue.len() as int),
            found,
            done,
            Set::empty().insert(cell_of(queue[0])),
        ),
        found.contains(cell_of(queue[0])),
        !done.contains(cell_of(queue[0])),
        in_grid(w, h, cell_of(queue[0])),
{
    reveal(flood_state);
    let p = cell_of(queue[0]);
    let rest = queue.subrange(1, queue.len() as int);
    let held = Set::empty().insert(p);
    assert(found.contains(p) && !done.contains(p) && in_grid(w, h, p));
    assert forall|i: int, j: int| 0 <= i < j < rest.len() implies rest[i] != rest[j] by {
        assert(rest[i] == queue[i + 1]);
        assert(rest[j] == queue[j + 1]);
    }
    assert forall|i: int| 0 <= i < rest.len() implies found.contains(#[trigger] cell_of(rest[i]))
        && !done.contains(cell_of(rest[i])) && !held.contains(cell_of(rest[i])) && in_grid(
        w,
        h,
        cell_of(rest[i]),
    ) by {
        assert(rest[i] == queue[i + 1]);
        assert(queue[0] != queue[i + 1]);
        assert(found.contains(cell_of(queue[i + 1])));
    }
    assert forall|c: (int, int)| #[trigger] found.contains(c) implies done.contains(c) || held.contains(c)
        || exists|i: int| 0 <= i < rest.len() && #[trigger] cell_of(rest[i]) == c by {
        if !done.contains(c) && c != p {
            let i = choose|i: int| 0 <= i < queue.len() && #[trigger] cell_of(queue[i]) == c;
            assert(i != 0);
            assert(cell_of(rest[i - 1]) == c);
        }
    }
}

/// Marking and queueing an unmarked set neighbour of the handled cell.
pub proof fn lemma_flood_visit(
    m: Seq<bool>,
    w: int,
    h: int,
    start: (int, int),
    before: Set<(int, int)>,
    flags: Seq<bool>,
    queue: Seq<(usize, usize)>,
    found: Set<(int, int)>,
    done: Set<(int, int)>,
    p: (int, int),
    q: (usize, usize),
)
    requires
        flood_state(m, w, h, start, before, flags, queue, found, done, Set::empty().insert(p)),
        m.len() == w * h,
        in_grid(w, h, cell_of(q)),
        lit(m, w, h, cell_of(q)),
        adjacent(p, cell_of(q)),
        !flags[cell_of(q).1 * w + cell_of(q).0],
    ensures
        flood_state(
            m,
            w,
            h,
            start,
            before,
            flags.update(cell_of(q).1 * w + cell_of(q).0, true),
            queue.push(q),
            found.insert(cell_of(q)),
            done,
            Set::empty().insert(p),
        ),
        marked(flags.update(cell_of(q).1 * w + cell_of(q).0, true), w, h) == marked(flags, w, h).insert(cell_of(q)),
{
    reveal(flood_state);
    let c = cell_of(q);
    let held = Set::empty().insert(p);
    assert(held.contains(p));
    let flags2 = flags.update(c.1 * w + c.0, true);
    let queue2 = queue.push(q);
    let found2 = found.insert(c);
    lemma_pixel_position(w, h, c.0, c.1);
    lemma_mark_cell(flags, w, h, c);
    assert(!marked(flags, w, h).contains(c));
    assert(found.contains(p));
    lemma_connected_step(m, w, h, start, p, c);
    assert(marked(flags2, w, h) =~= before.union(found2));
    assert(cell_of(queue2[queue2.len() - 1]) == c);
    assert forall|i: int| 0 <= i < queue2.len() implies found2.contains(#[trigger] cell_of(queue2[i]))
        && !done.contains(cell_of(queue2[i])) && !held.contains(cell_of(queue2[i])) && in_grid(
        w,
        h,
        cell_of(queue2[i]),
    ) by {
        if i < queue.len() {
            assert(queue2[i] == queue[i]);
        } else {
            assert(!found.contains(c));
        }
    }
    assert forall|d: (int, int)| #[trigger] found2.contains(d) implies done.contains(d) || held.contains(d)
        || exists|i: int| 0 <= i < queue2.len() && #[trigger] cell_of(queue2[i]) == d by {
        if d != c && !done.contains(d) && !held.contains(d) {
            let i = choose|i: int| 0 <= i < queue.len() && #[trigger] cell_of(queue[i]) == d;
            assert(queue2[i] == queue[i]);
        }
    }
    assert forall|i: int, j: int| 0 <= i < j < queue2.len() implies queue2[i] != queue2[j] by {
        assert(queue2[i] == queue[i]);
        if j < queue.len() {
            assert(queue2[j] == queue[j]);
        } else {
            assert(found.contains(cell_of(queue[i])));
        }
    }
}

/// The handled cell becomes done once all its set neighbours are marked.
pub proof fn lemma_flood_finish(
    m: Seq<bool>,
    w: int,
    h: int,
    start: (int, int),
    before: Set<(int, int)>,
    flags: Seq<bool>,
    queue: Seq<(usize, usize)>,
    found: Set<(int, int)>,
    done: Set<(int, int)>,
    p: (int, int),
)
    requires
        flood_state(m, w, h, start, before, flags, queue, found, done, Set::empty().insert(p)),
        forall|q: (int, int)| adjacent(p, q) && #[trigger] lit(m, w, h, q) ==> marked(flags, w, h).contains(q),
    ensures
        flood_state(m, w, h, start, before, flags, queue, found, done.insert(p), Set::empty()),
        done.insert(p).len() == done.len() + 1,
{
    reveal(flood_state);
    assert(Set::empty().insert(p).contains(p));
    assert(!done.contains(p));
    assert(found.contains(p));
}

/// When the queue runs dry, the found cells are exactly the component.
pub proof fn lemma_flood_end(
    m: Seq<bool>,
    w: int,
    h: int,
    start: (int, int),
    before: Set<(int, int)>,
    flags: Seq<bool>,
    found: Set<(int, int)>,
    done: Set<(int, int)>,
)
    requires
        flood_state(m, w, h, start, before, flags, Seq::empty(), found, done, Set::empty()),
    ensures
        found == done,
        found == component_cells(m, w, h, start),
        marked(flags, w, h) == before.union(component_cells(m, w, h, start)),
        closed(m, w, h, before) ==> closed(m, w, h, marked(flags, w, h)),
{
    reveal(flood_state);
    assert forall|c: (int, int)| #[trigger] found.contains(c) implies done.contains(c) by {}
    assert(found =~= done);
    assert forall|p: (int, int), q: (int, int)|
        #![trigger found.contains(p), lit(m, w, h, q)]
        found.contains(p) && adjacent(p, q) && lit(m, w, h, q) implies found.contains(q) by {
        assert(done.contains(p));
        assert(marked(flags, w, h).contains(q));
        if before.contains(q) {
            lemma_connected_step(m, w, h, start, p, q);
        }
    }
    let cells = component_cells(m, w, h, start);
    assert forall|c: (int, int)| #[trigger] cells.contains(c) <==> found.contains(c) by {
        if cells.contains(c) {
            lemma_closed_holds_component(m, w, h, found, start, c);
        }
    }
    assert(found =~= cells);
    let all = marked(flags, w, h);
    if closed(m, w, h, before) {
        assert forall|p: (int, int), q: (int, int)|
            #![trigger all.contains(p), lit(m, w, h, q)]
            all.contains(p) && adjacent(p, q) && lit(m, w, h, q) implies all.contains(q) by {
            if before.contains(p) {
                assert(before.contains(q));
            } else {
                assert(found.contains(p));
            }
        }
    }
}

/// Marks the whole 4-connected component of the set cell `(start_x, start_y)` as visited
/// and returns its bounding box and size. No cell of that component may be visited
/// before; other cells keep their flags.
pub fn collect_component(
    mask: &Vec<bool>,
    visited: &mut Vec<bool>,
    width: usize,
    height: usize,
    start_x: usize,
    start_y: usize,
) -> (component: Component)
    requires
        mask@.len() == width * height,
        old(visited)@.len() == width * height,
        width * height <= u32::MAX,
        width <= i32::MAX,
        height <= i32::MAX,
        start_x < width,
        start_y < height,
        lit(mask@, width as int, height as int, (start_x as int, start_y as int)),
        apart_from_component(
            mask@,
            width as int,
            height as int,
            (start_x as int, start_y as int),
            marked(old(visited)@, width as int, height as int),
        ),
    ensures
        final(visited)@.len() == width * height,
        marked(final(visited)@, width as int, height as int) == marked(old(visited)@, width as int, height as int).union(
            component_cells(mask@, width as int, height as int, (start_x as int, start_y as int)),
        ),
        closed(mask@, width as int, height as int, marked(old(visited)@, width as int, height as int)) ==> closed(
            mask@,
            width as int,
            height as int,
            marked(final(visited)@, width as int, height as int),
        ),
        summarizes(component, component_cells(mask@, width as int, height as int, (start_x as int, start_y as int))),
        component.bounds.fits(),
        component.bounds.x >= 0,
        component.bounds.y >= 0,
        component.bounds.width >= 1,
        component.bounds.height >= 1,
        component.bounds.x + component.bounds.width <= width,
        component.bounds.y + component.bounds.height <= height,
{
    let ghost w = width as int;
    let ghost h = height as int;
    let ghost m = mask@;
    let ghost start = (start_x as int, start_y as int);
    let ghost before = marked(old(visited)@, w, h);
    let n = width * height;
    proof {
        lemma_connected_refl(m, w, h, start);
        assert(!before.contains(start));
        lemma_pixel_position(w, h, start_x as int, start_y as int);
        lemma_count_false_set(visited@, start_y * w + start_x);
        lemma_count_false_bound(visited@);
        lemma_flood_start(m, w, h, (start_x, start_y), visited@);
    }
    visited.set(start_y * width + start_x, true);
    let mut queue: VecDeque<(usize, usize)> = VecDeque::new();
    queue.push_back((start_x, start_y));
    let ghost mut found: Set<(int, int)> = Set::empty().insert(start);
    let ghost mut done: Set<(int, int)> = Set::empty();
    proof {
        assert(queue@ =~= seq![(start_x, start_y)]);
        assert(found.contains(start));
    }
    let mut minimum_x = start_x;
    let mut maximum_x = start_x;
    let mut minimum_y = start_y;
    let mut maximum_y = start_y;
    let mut pixels: u32 = 0;
    while queue.len() > 0
        invariant
            mask@ == m,
            m.len() == n,
            n == width * height,
            n <= u32::MAX,
            w == width,
            h == height,
            start == (start_x as int, start_y as int),
            visited@.len() == n,
            flood_state(m, w, h, start, before, visited@, queue@, found, done, Set::empty()),
            found.contains(start),
            forall|c: (int, int)| #[trigger] done.contains(c) ==> found.contains(c),
            forall|c: (int, int)| #[trigger] found.contains(c) ==> in_grid(w, h, c),
            pixels == done.len(),
            pixels + queue@.len() + count_false(visited@) <= n,
            minimum_x <= start_x <= maximum_x < width,
            minimum_y <= start_y <= maximum_y < height,
            forall|c: (int, int)| #[trigger] done.contains(c) ==> minimum_x <= c.0 <= maximum_x && minimum_y
                <= c.1 <= maximum_y,
            exists|c: (int, int)| #[trigger] found.contains(c) && c.0 == minimum_x,
            exists|c: (int, int)| #[trigger] found.contains(c) && c.0 == maximum_x,
            exists|c: (int, int)| #[trigger] found.contains(c) && c.1 == minimum_y,
            exists|c: (int, int)| #[trigger] found.contains(c) && c.1 == maximum_y,
        decreases 2 * count_false(visited@) + queue@.len(),
    {
        let ghost queue_before = queue@;
        let ghost measure = 2 * count_false(visited@) + queue@.len();
        proof {
            lemma_flood_pop(m, w, h, start, before, visited@, queue@, found, done);
        }
        let (x, y) = queue.pop_front().unwrap();
        let ghost p = (x as int, y as int);
        let ghost held = Set::empty().insert(p);
        let ghost found_at_pop = found;
        assert(cell_of(queue_before[0]) == p);
        assert(queue@ =~= queue_before.subrange(1, queue_before.len() as int));
        let next = neighbors(x, y, width, height);
        let mut k: usize = 0;
        while k < next.len()
            invariant
                mask@ == m,
                m.len() == n,
                n == width * height,
                w == width,
                h == height,
                visited@.len() == n,
                flood_state(m, w, h, start, before, visited@, queue@, found, done, held),
                held == Set::<(int, int)>::empty().insert(p),
                found.contains(p),
                forall|c: (int, int)| #[trigger] found_at_pop.contains(c) ==> found.contains(c),
                2 * count_false(visited@) + queue@.len() < measure,
                !done.contains(p),
                in_grid(w, h, p),
                forall|c: (int, int)| #[trigger] done.contains(c) ==> found.contains(c),
                forall|c: (int, int)| #[trigger] found.contains(c) ==> in_grid(w, h, c),
                pixels == done.len(),
                pixels + 1 + queue@.len() + count_false(visited@) <= n,
                next@ == neighbor_cells(x as int, y as int, w, h),
                forall|i: int| 0 <= i < next@.len() ==> in_grid(w, h, cell_of(#[trigger] next@[i])) && adjacent(p, cell_of(next@[i])),
                0 <= k <= next@.len(),
                forall|i: int| 0 <= i < k ==> lit(m, w, h, #[trigger] cell_of(next@[i])) ==> marked(visited@, w, h).contains(cell_of(next@[i])),
            decreases next@.len() - k,
        {
            let (next_x, next_y) = next[k];
            let ghost q = (next_x as int, next_y as int);
            assert(cell_of(next@[k as int]) == q);
            proof {
                lemma_pixel_position(w, h, q.0, q.1);
            }
            let index = next_y * width + next_x;
            if mask[index] && !visited[index] {
                proof {
                    lemma_count_false_set(visited@, index as int);
                    lemma_flood_visit(m, w, h, start, before, visited@, queue@, found, done, p, (next_x, next_y));
                    found = found.insert(q);
                }
                visited.set(index, true);
                queue.push_back((next_x, next_y));
            } else {
                proof {
                    if lit(m, w, h, q) {
                        assert(marked(visited@, w, h).contains(q));
                    }
                }
            }
            k += 1;
        }
        proof {
            assert forall|q: (int, int)| adjacent(p, q) && #[trigger] lit(m, w, h, q) implies marked(visited@, w, h).contains(q) by {
                let i = choose|i: int| 0 <= i < next@.len() && #[trigger] cell_of(next@[i]) == q;
            }
            lemma_flood_finish(m, w, h, start, before, visited@, queue@, found, done, p);
            done = done.insert(p);
            assert(found_at_pop.contains(start));
            let c1 = choose|c: (int, int)| #[trigger] found_at_pop.contains(c) && c.0 == minimum_x;
            let c2 = choose|c: (int, int)| #[trigger] found_at_pop.contains(c) && c.0 == maximum_x;
            let c3 = choose|c: (int, int)| #[trigger] found_at_pop.contains(c) && c.1 == minimum_y;
            let c4 = choose|c: (int, int)| #[trigger] found_at_pop.contains(c) && c.1 == maximum_y;
            assert(found.contains(c1) && found.contains(c2) && found.contains(c3) && found.contains(c4));
        }
        pixels += 1;
        if x < minimum_x {
            minimum_x = x;
        }
        if x > maximum_x {
            maximum_x = x;
        }
        if y < minimum_y {
            minimum_y = y;
        }
        if y > maximum_y {
            maximum_y = y;
        }
    }
    proof {
        assert(queue@ =~= Seq::<(usize, usize)>::empty());
        lemma_flood_end(m, w, h, start, before, visited@, found, done);
    }
    let bounds = Rect {
        x: minimum_x as i32,
        y: minimum_y as i32,
        width: (maximum_x - minimum_x + 1) as u32,
        height: (maximum_y - minimum_y + 1) as u32,
    };
    Component { bounds, pixels }
}

/// `a` comes before `b` in row-major scan order.
pub open spec fn scan_before(a: (int, int), b: (int, int)) -> bool {
    a.1 < b.1 || (a.1 == b.1 && a.0 < b.0)
}

/// The cell is set and no cell of its component comes before it: the cell through which
/// a row-major scan first enters the component.
pub open spec fn is_first_cell(mask: Seq<bool>, width: int, height: int, c: (int, int)) -> bool {
    &&& lit(mask, width, height, c)
    &&& forall|d: (int, int)| #[trigger] connected(mask, width, height, c, d) ==> !scan_before(d, c)
}

/// The first cells of components in row `y`, left of column `x_end`, left to right.
pub open spec fn first_cells_in_row(mask: Seq<bool>, width: int, height: int, y: int, x_end: int) -> Seq<(int, int)>
    decreases x_end,
{
    if x_end <= 0 {
        Seq::empty()
    } else if is_first_cell(mask, width, height, (x_end - 1, y)) {
        first_cells_in_row(mask, width, height, y, x_end - 1).push((x_end - 1, y))
    } else {
        first_cells_in_row(mask, width, height, y, x_end - 1)
    }
}

/// The first cells of components in the rows above `y_end`, in scan order.
pub open spec fn first_cells_upto(mask: Seq<bool>, width: int, height: int, y_end: int) -> Seq<(int, int)>
    decreases y_end,
{
    if y_end <= 0 {
        Seq::empty()
    } else {
        first_cells_upto(mask, width, height, y_end - 1) + first_cells_in_row(mask, width, height, y_end - 1, width)
    }
}

/// One first cell for each 4-connected component of the mask, in row-major scan order.
pub open spec fn component_starts(mask: Seq<bool>, width: int, height: int) -> Seq<(int, int)> {
    first_cells_upto(mask, width, height, height)
}

/// The set cells whose component's first cell comes before `cursor`.
pub open spec fn scanned_cells(mask: Seq<bool>, width: int, height: int, cursor: (int, int)) -> Set<(int, int)> {
    Set::new(
        |c: (int, int)|
            lit(mask, width, height, c) && exists|f: (int, int)|
                #![trigger is_first_cell(mask, width, height, f), connected(mask, width, height, f, c)]
                is_first_cell(mask, width, height, f) && scan_before(f, cursor) && connected(mask, width, height, f, c),
    )
}

/// A set cell not yet visited when the scan reaches it is the first cell of its component.
pub proof fn lemma_unvisited_is_first(mask: Seq<bool>, width: int, height: int, cursor: (int, int))
    requires
        lit(mask, width, height, cursor),
        !scanned_cells(mask, width, height, cursor).contains(cursor),
        forall|c: (int, int)| #[trigger] lit(mask, width, height, c) && scan_before(c, cursor) ==> scanned_cells(mask, width, height, cursor).contains(c),
    ensures
        is_first_cell(mask, width, height, cursor),
{
    let done = scanned_cells(mask, width, height, cursor);
    assert forall|d: (int, int)| #[trigger] connected(mask, width, height, cursor, d) implies !scan_before(d, cursor) by {
        if scan_before(d, cursor) {
            lemma_connected_lit(mask, width, height, cursor, d);
            assert(done.contains(d));
            let f = choose|f: (int, int)|
                #![trigger is_first_cell(mask, width, height, f), connected(mask, width, height, f, d)]
                is_first_cell(mask, width, height, f) && scan_before(f, cursor) && connected(mask, width, height, f, d);
            lemma_connected_symm(mask, width, height, cursor, d);
            lemma_connected_trans(mask, width, height, f, d, cursor);
            assert(done.contains(cursor));
        }
    }
}

/// A visited set cell is not the first cell of its component.
pub proof fn lemma_visited_not_first(mask: Seq<bool>, width: int, height: int, cursor: (int, int))
    requires
        scanned_cells(mask, width, height, cursor).contains(cursor),
    ensures
        !is_first_cell(mask, width, height, cursor),
{
    let f = choose|f: (int, int)|
        #![trigger is_first_cell(mask, width, height, f), connected(mask, width, height, f, cursor)]
        is_first_cell(mask, width, height, f) && scan_before(f, cursor) && connected(mask, width, height, f, cursor);
    lemma_connected_symm(mask, width, height, f, cursor);
    assert(connected(mask, width, height, cursor, f));
}

/// Moving the cursor one cell on: the scanned cells grow by the component of the cell
/// passed when it is a first cell.
pub proof fn lemma_scan_advance(mask: Seq<bool>, width: int, height: int, cursor: (int, int), next: (int, int))
    requires
        in_grid(width, height, cursor),
        forall|f: (int, int)| in_grid(width, height, f) ==> (scan_before(f, next) <==> scan_before(f, cursor) || f == cursor),
    ensures
        is_first_cell(mask, width, height, cursor) ==> scanned_cells(mask, width, height, next) == scanned_cells(mask, width, height, cursor).union(component_cells(mask, width, height, cursor)),
        !is_first_cell(mask, width, height, cursor) ==> scanned_cells(mask, width, height, next) == scanned_cells(mask, width, height, cursor),
{
    let before = scanned_cells(mask, width, height, cursor);
    let after = scanned_cells(mask, width, height, next);
    let comp = component_cells(mask, width, height, cursor);
    if is_first_cell(mask, width, height, cursor) {
        assert forall|c: (int, int)| #[trigger] after.contains(c) <==> before.union(comp).contains(c) by {
            if after.contains(c) {
                let f = choose|f: (int, int)|
                    #![trigger is_first_cell(mask, width, height, f), connected(mask, width, height, f, c)]
                    is_first_cell(mask, width, height, f) && scan_before(f, next) && connected(mask, width, height, f, c);
                assert(in_grid(width, height, f));
            }
            if comp.contains(c) {
                lemma_connected_lit(mask, width, height, cursor, c);
            }
        }
        assert(after =~= before.union(comp));
    } else {
        assert forall|c: (int, int)| #[trigger] after.contains(c) <==> before.contains(c) by {
            if after.contains(c) {
                let f = choose|f: (int, int)|
                    #![trigger is_first_cell(mask, width, height, f), connected(mask, width, height, f, c)]
                    is_first_cell(mask, width, height, f) && scan_before(f, next) && connected(mask, width, height, f, c);
                assert(in_grid(width, height, f));
            }
        }
        assert(after =~= before);
    }
}

/// The scanned cells form whole components.
pub proof fn lemma_scanned_closed(mask: Seq<bool>, width: int, height: int, cursor: (int, int))
    ensures
        closed(mask, width, height, scanned_cells(mask, width, height, cursor)),
{
    let done = scanned_cells(mask, width, height, cursor);
    assert forall|p: (int, int), q: (int, int)|
        #![trigger done.contains(p), lit(mask, width, height, q)]
        done.contains(p) && adjacent(p, q) && lit(mask, width, height, q) implies done.contains(q) by {
        let f = choose|f: (int, int)|
            #![trigger is_first_cell(mask, width, height, f), connected(mask, width, height, f, p)]
            is_first_cell(mask, width, height, f) && scan_before(f, cursor) && connected(mask, width, height, f, p);
        lemma_connected_step(mask, width, height, f, p, q);
    }
}

/// The bounding box and cell count of a set of cells.
pub open spec fn summary_of(cells: Set<(int, int)>) -> Component {
    choose|c: Component| summarizes(c, cells)
}

/// A set of cells has only one bounding box and one count.
pub proof fn lemma_summary_unique(c: Component, cells: Set<(int, int)>)
    requires
        summarizes(c, cells),
    ensures
        summary_of(cells) == c,
{
    let d = summary_of(cells);
    assert(summarizes(d, cells));
    lemma_same_box(c, d, cells);
}

/// Two summaries of one set have the same box.
proof fn lemma_same_box(c: Component, d: Component, cells: Set<(int, int)>)
    requires
        summarizes(c, cells),
        summarizes(d, cells),
    ensures
        c == d,
{
    let b = c.bounds;
    let e = d.bounds;
    let p1 = choose|p: (int, int)| #[trigger] cells.contains(p) && p.0 == b.x;
    let q1 = choose|p: (int, int)| #[trigger] cells.contains(p) && p.0 == e.x;
    assert(b.x == e.x);
    let p2 = choose|p: (int, int)| #[trigger] cells.contains(p) && p.0 == b.x + b.width - 1;
    let q2 = choose|p: (int, int)| #[trigger] cells.contains(p) && p.0 == e.x + e.width - 1;
    assert(b.width == e.width);
    let p3 = choose|p: (int, int)| #[trigger] cells.contains(p) && p.1 == b.y;
    let q3 = choose|p: (int, int)| #[trigger] cells.contains(p) && p.1 == e.y;
    assert(b.y == e.y);
    let p4 = choose|p: (int, int)| #[trigger] cells.contains(p) && p.1 == b.y + b.height - 1;
    let q4 = choose|p: (int, int)| #[trigger] cells.contains(p) && p.1 == e.y + e.height - 1;
    assert(b.height == e.height);
}

/// Summaries of the components of the first cells, in order, are the mask's components.
pub proof fn lemma_summaries_are_mask_components(components: Seq<Component>, m: Seq<bool>, w: int, h: int)
    requires
        components.len() == component_starts(m, w, h).len(),
        forall|k: int| 0 <= k < components.len() ==> summarizes(#[trigger] components[k], component_cells(m, w, h, component_starts(m, w, h)[k])),
    ensures
        components == mask_components(m, w, h),
{
    let starts = component_starts(m, w, h);
    assert forall|k: int| 0 <= k < components.len() implies components[k] == mask_components(m, w, h)[k] by {
        lemma_summary_unique(components[k], component_cells(m, w, h, starts[k]));
    }
    assert(components =~= mask_components(m, w, h));
}

/// The components of a row-major mask, in the scan order of their first cells.
pub open spec fn mask_components(mask: Seq<bool>, width: int, height: int) -> Seq<Component> {
    let starts = component_starts(mask, width, height);
    Seq::new(starts.len(), |k: int| summary_of(component_cells(mask, width, height, starts[k])))
}

/// The bookkeeping of a row-major scan whose cursor stands at `cursor`: the visited
/// flags mark exactly the components already entered, and one component summary was
/// recorded for each first cell passed.
#[verifier::opaque]
pub open spec fn scan_state(
    m: Seq<bool>,
    w: int,
    h: int,
    cursor: (int, int),
    flags: Seq<bool>,
    starts: Seq<(int, int)>,
    components: Seq<Component>,
) -> bool {
    &&& flags.len() == m.len()
    &&& marked(flags, w, h) == scanned_cells(m, w, h, cursor)
    &&& forall|c: (int, int)| #[trigger] lit(m, w, h, c) && scan_before(c, cursor) ==> marked(flags, w, h).contains(c)
    &&& components.len() == starts.len()
    &&& forall|k: int| 0 <= k < components.len() ==> summarizes(#[trigger] components[k], component_cells(m, w, h, starts[k]))
    &&& forall|k: int|
        0 <= k < components.len() ==> {
            let b = (#[trigger] components[k]).bounds;
            &&& b.fits()
            &&& b.x >= 0 && b.y >= 0 && b.width >= 1 && b.height >= 1
            &&& b.x + b.width <= w && b.y + b.height <= h
        }
}

/// The scan starts with nothing visited and nothing recorded.
pub proof fn lemma_scan_start(m: Seq<bool>, w: int, h: int, flags: Seq<bool>)
    requires
        flags.len() == m.len(),
        m.len() == w * h,
        forall|i: int| 0 <= i < flags.len() ==> !flags[i],
    ensures
        scan_state(m, w, h, (0, 0), flags, Seq::empty(), Seq::empty()),
{
    reveal(scan_state);
    assert forall|c: (int, int)| #[trigger] marked(flags, w, h).contains(c) <==> scanned_cells(m, w, h, (0, 0)).contains(c) by {
        if marked(flags, w, h).contains(c) {
            lemma_pixel_position(w, h, c.0, c.1);
        }
        if scanned_cells(m, w, h, (0, 0)).contains(c) {
            let f = choose|f: (int, int)|
                #![trigger is_first_cell(m, w, h, f), connected(m, w, h, f, c)]
                is_first_cell(m, w, h, f) && scan_before(f, (0, 0)) && connected(m, w, h, f, c);
        }
    }
    assert(marked(flags, w, h) =~= scanned_cells(m, w, h, (0, 0)));
}

/// The end of a row is the start of the next one.
pub proof fn lemma_scan_next_row(
    m: Seq<bool>,
    w: int,
    h: int,
    y: int,
    flags: Seq<bool>,
    starts: Seq<(int, int)>,
    components: Seq<Component>,
)
    requires
        scan_state(m, w, h, (w, y), flags, starts, components),
    ensures
        scan_state(m, w, h, (0, y + 1), flags, starts, components),
{
    reveal(scan_state);
    assert(scanned_cells(m, w, h, (0int, y + 1)) =~= scanned_cells(m, w, h, (w, y))) by {
        assert forall|c: (int, int)| #[trigger] scanned_cells(m, w, h, (0int, y + 1)).contains(c) <==> scanned_cells(m, w, h, (w, y)).contains(c) by {
            if scanned_cells(m, w, h, (0int, y + 1)).contains(c) {
                let f = choose|f: (int, int)|
                    #![trigger is_first_cell(m, w, h, f), connected(m, w, h, f, c)]
                    is_first_cell(m, w, h, f) && scan_before(f, (0int, y + 1)) && connected(m, w, h, f, c);
                assert(scan_before(f, (w, y)));
            }
            if scanned_cells(m, w, h, (w, y)).contains(c) {
                let f = choose|f: (int, int)|
                    #![trigger is_first_cell(m, w, h, f), connected(m, w, h, f, c)]
                    is_first_cell(m, w, h, f) && scan_before(f, (w, y)) && connected(m, w, h, f, c);
                assert(scan_before(f, (0int, y + 1)));
            }
        }
    }
    assert forall|c: (int, int)| #[trigger] lit(m, w, h, c) && scan_before(c, (0int, y + 1)) implies marked(flags, w, h).contains(c) by {
        assert(scan_before(c, (w, y)));
    }
}

/// What a scan state says of the visited flags.
pub proof fn lemma_scan_facts(
    m: Seq<bool>,
    w: int,
    h: int,
    cursor: (int, int),
    flags: Seq<bool>,
    starts: Seq<(int, int)>,
    components: Seq<Component>,
)
    requires
        scan_state(m, w, h, cursor, flags, starts, components),
    ensures
        flags.len() == m.len(),
        marked(flags, w, h) == scanned_cells(m, w, h, cursor),
        closed(m, w, h, marked(flags, w, h)),
        forall|c: (int, int)| #[trigger] lit(m, w, h, c) && scan_before(c, cursor) ==> marked(flags, w, h).contains(c),
{
    reveal(scan_state);
    lemma_scanned_closed(m, w, h, cursor);
}

/// Passing a cell that is not the first of its component changes nothing recorded.
pub proof fn lemma_scan_skip(
    m: Seq<bool>,
    w: int,
    h: int,
    cursor: (int, int),
    flags: Seq<bool>,
    starts: Seq<(int, int)>,
    components: Seq<Component>,
)
    requires
        scan_state(m, w, h, cursor, flags, starts, components),
        in_grid(w, h, cursor),
        !is_first_cell(m, w, h, cursor),
        lit(m, w, h, cursor) ==> marked(flags, w, h).contains(cursor),
    ensures
        scan_state(m, w, h, (cursor.0 + 1, cursor.1), flags, starts, components),
{
    reveal(scan_state);
    let next = (cursor.0 + 1, cursor.1);
    lemma_scan_advance(m, w, h, cursor, next);
}

/// Passing a first cell after visiting its component records the component.
#[verifier::rlimit(40)]
pub proof fn lemma_scan_take(
    m: Seq<bool>,
    w: int,
    h: int,
    cursor: (int, int),
    flags: Seq<bool>,
    new_flags: Seq<bool>,
    starts: Seq<(int, int)>,
    components: Seq<Component>,
    component: Component,
)
    requires
        scan_state(m, w, h, cursor, flags, starts, components),
        in_grid(w, h, cursor),
        is_first_cell(m, w, h, cursor),
        new_flags.len() == flags.len(),
        marked(new_flags, w, h) == marked(flags, w, h).union(component_cells(m, w, h, cursor)),
        summarizes(component, component_cells(m, w, h, cursor)),
        ({
            let b = component.bounds;
            &&& b.fits()
            &&& b.x >= 0 && b.y >= 0 && b.width >= 1 && b.height >= 1
            &&& b.x + b.width <= w && b.y + b.height <= h
        }),
    ensures
        scan_state(m, w, h, (cursor.0 + 1, cursor.1), new_flags, starts.push(cursor), components.push(component)),
{
    reveal(scan_state);
    let next = (cursor.0 + 1, cursor.1);
    let starts2 = starts.push(cursor);
    let components2 = components.push(component);
    assert(marked(new_flags, w, h) == scanned_cells(m, w, h, next)) by {
        lemma_scan_advance(m, w, h, cursor, next);
    }
    assert forall|k: int| 0 <= k < components2.len() implies summarizes(#[trigger] components2[k], component_cells(m, w, h, starts2[k])) by {
        if k < components.len() {
            assert(components2[k] == components[k]);
        }
    }
    assert forall|k: int| 0 <= k < components2.len() implies {
        let b = (#[trigger] components2[k]).bounds;
        &&& b.fits()
        &&& b.x >= 0 && b.y >= 0 && b.width >= 1 && b.height >= 1
        &&& b.x + b.width <= w && b.y + b.height <= h
    } by {
        if k < components.len() {
            assert(components2[k] == components[k]);
        }
    }
    assert forall|c: (int, int)| #[trigger] lit(m, w, h, c) && scan_before(c, next) implies marked(new_flags, w, h).contains(c) by {
        if c == cursor {
            lemma_connected_refl(m, w, h, cursor);
        }
    }
}

/// Handles the cell under the cursor: when it is the first cell of its component, the
/// component is visited and its summary recorded.
fn scan_cell(
    mask: &Vec<bool>,
    visited: &mut Vec<bool>,
    components: &mut Vec<Component>,
    width: usize,
    height: usize,
    x: usize,
    y: usize,
    Ghost(starts): Ghost<Seq<(int, int)>>,
) -> (first: bool)
    requires
        mask@.len() == width * height,
        width * height <= u32::MAX,
        width <= i32::MAX,
        height <= i32::MAX,
        x < width,
        y < height,
        scan_state(mask@, width as int, height as int, (x as int, y as int), old(visited)@, starts, old(components)@),
    ensures
        first == is_first_cell(mask@, width as int, height as int, (x as int, y as int)),
        scan_state(
            mask@,
            width as int,
            height as int,
            (x + 1, y as int),
            final(visited)@,
            if first { starts.push((x as int, y as int)) } else { starts },
            final(components)@,
        ),
{
    let ghost m = mask@;
    let ghost w = width as int;
    let ghost h = height as int;
    let ghost cursor = (x as int, y as int);
    proof {
        lemma_scan_facts(m, w, h, cursor, visited@, starts, components@);
        lemma_pixel_position(w, h, x as int, y as int);
    }
    let index = y * width + x;
    if mask[index] && !visited[index] {
        proof {
            assert(lit(m, w, h, cursor));
            assert(!marked(visited@, w, h).contains(cursor));
            lemma_unvisited_is_first(m, w, h, cursor);
        }
        let ghost flags_before = visited@;
        proof {
            let before = marked(visited@, w, h);
            assert forall|c: (int, int)| #[trigger] before.contains(c) implies !connected(m, w, h, cursor, c) by {
                if connected(m, w, h, cursor, c) {
                    lemma_connected_symm(m, w, h, cursor, c);
                    lemma_closed_holds_component(m, w, h, before, c, cursor);
                }
            }
        }
        let component = collect_component(mask, visited, width, height, x, y);
        proof {
            lemma_scan_take(m, w, h, cursor, flags_before, visited@, starts, components@, component);
        }
        components.push(component);
        true
    } else {
        proof {
            if lit(m, w, h, cursor) {
                assert(marked(visited@, w, h).contains(cursor));
                lemma_visited_not_first(m, w, h, cursor);
            }
            lemma_scan_skip(m, w, h, cursor, visited@, starts, components@);
        }
        false
    }
}

/// The components of a row-major `width × height` mask, one for each first cell in scan
/// order: each one's bounding box and number of cells.
pub fn components_of_mask(mask: &Vec<bool>, width: usize, height: usize) -> (components: Vec<Component>)
    requires
        mask@.len() == width * height,
        width * height <= u32::MAX,
        width <= i32::MAX,
        height <= i32::MAX,
    ensures
        components@.len() == component_starts(mask@, width as int, height as int).len(),
        forall|k: int|
            0 <= k < components@.len() ==> summarizes(
                #[trigger] components@[k],
                component_cells(mask@, width as int, height as int, component_starts(mask@, width as int, height as int)[k]),
            ),
        forall|k: int|
            0 <= k < components@.len() ==> {
                let b = (#[trigger] components@[k]).bounds;
                &&& b.fits()
                &&& b.x >= 0 && b.y >= 0 && b.width >= 1 && b.height >= 1
                &&& b.x + b.width <= width && b.y + b.height <= height
            },
{
    let ghost m = mask@;
    let ghost w = width as int;
    let ghost h = height as int;
    let n = width * height;
    let mut visited: Vec<bool> = vec![false; n];
    let mut components: Vec<Component> = Vec::new();
    let ghost mut starts: Seq<(int, int)> = Seq::empty();
    proof {
        lemma_scan_start(m, w, h, visited@);
    }
    let mut y: usize = 0;
    while y < height
        invariant
            mask@ == m,
            m.len() == n,
            n == width * height,
            n <= u32::MAX,
            w == width,
            h == height,
            w <= i32::MAX,
            h <= i32::MAX,
            0 <= y <= height,
            scan_state(m, w, h, (0, y as int), visited@, starts, components@),
            starts == first_cells_upto(m, w, h, y as int),
        decreases height - y,
    {
        let mut x: usize = 0;
        proof {
            assert(starts + first_cells_in_row(m, w, h, y as int, 0) =~= starts);
        }
        while x < width
            invariant
                mask@ == m,
                m.len() == n,
                n == width * height,
                n <= u32::MAX,
                w == width,
                h == height,
                w <= i32::MAX,
                h <= i32::MAX,
                0 <= y < height,
                0 <= x <= width,
                scan_state(m, w, h, (x as int, y as int), visited@, starts, components@),
                starts == first_cells_upto(m, w, h, y as int) + first_cells_in_row(m, w, h, y as int, x as int),
            decreases width - x,
        {
            let first = scan_cell(mask, &mut visited, &mut components, width, height, x, y, Ghost(starts));
            proof {
                if first {
                    starts = starts.push((x as int, y as int));
                }
                assert(starts =~= first_cells_upto(m, w, h, y as int) + first_cells_in_row(m, w, h, y as int, x + 1));
            }
            x += 1;
        }
        proof {
            lemma_scan_next_row(m, w, h, y as int, visited@, starts, components@);
        }
        y += 1;
    }
    proof {
        reveal(scan_state);
    }
    components
}

/// The components of a row-major `width × height` mask in the scan order of their first
/// cells.
pub fn mask_components_of(mask: &Vec<bool>, width: usize, height: usize) -> (components: Vec<Component>)
    requires
        mask@.len() == width * height,
        width * height <= u32::MAX,
        width <= i32::MAX,
        height <= i32::MAX,
    ensures
        components@ == mask_components(mask@, width as int, height as int),
        forall|k: int|
            0 <= k < components@.len() ==> {
                let b = (#[trigger] components@[k]).bounds;
                &&& b.fits()
                &&& b.x >= 0 && b.y >= 0 && b.width >= 1 && b.height >= 1
                &&& b.x + b.width <= width && b.y + b.height <= height
            },
{
    let components = components_of_mask(mask, width, height);
    proof {
        lemma_summaries_are_mask_components(components@, mask@, width as int, height as int);
    }
    components
}

} // verus!
