//! The playfield: ten columns by twenty-two rows of slots (the top two rows are
//! the staging area where pieces enter), the active piece that the player
//! moves, and the ghost piece that shows where the active piece would land.
use vstd::prelude::*;

use crate::util::{variants_equal, Variant};
use crate::rustomino::{
    iv, ivec2, lemma_moved_cells, lemma_shift_twice, lemma_shift_zero, lemma_turned_cells, shift,
    translated, IVec2, Rotation, Rustomino, RustominoState, RustominoType,
};

verus! {

/// Columns and rows of slots, the staging rows included.
pub const PLAYFIELD_SLOTS: [usize; 2] = [10, 22];

/// Columns and rows of the visible playfield.
pub const PLAYFIELD_SIZE: [i32; 2] = [10, 20];

/// What a slot of the playfield holds.
#[derive(Debug, Clone, Copy, PartialEq, Eq, Structural)]
pub enum SlotState {
    Empty,
    Occupied(RustominoType),
    Locked(RustominoType),
    GhostBlock(RustominoType),
}

impl Variant for SlotState {
    open spec fn variant(&self) -> nat {
        match self {
            SlotState::Empty => 0,
            SlotState::Occupied(_) => 1,
            SlotState::Locked(_) => 2,
            SlotState::GhostBlock(_) => 3,
        }
    }

    fn variant_index(&self) -> (r: u8) {
        match self {
            SlotState::Empty => 0,
            SlotState::Occupied(_) => 1,
            SlotState::Locked(_) => 2,
            SlotState::GhostBlock(_) => 3,
        }
    }
}

/// The slot lies inside the ten columns and twenty-two rows.
pub open spec fn in_bounds(c: IVec2) -> bool {
    0 <= c.x < 10 && 0 <= c.y < 22
}

/// All four cells lie inside the playfield.
pub open spec fn within(cs: [IVec2; 4]) -> bool {
    in_bounds(cs[0]) && in_bounds(cs[1]) && in_bounds(cs[2]) && in_bounds(cs[3])
}

/// Where slot `c` is kept: rows of ten, the bottom row first.
pub open spec fn index_of(c: IVec2) -> int {
    c.y * 10 + c.x
}

/// A piece may not occupy `c`: it is outside the playfield or locked.
pub open spec fn blocked(cells: Seq<SlotState>, c: IVec2) -> bool {
    !in_bounds(c) || cells[index_of(c)] is Locked
}

/// One of the four cells is outside the playfield or on a locked slot.
pub open spec fn collides(cells: Seq<SlotState>, cs: [IVec2; 4]) -> bool {
    blocked(cells, cs[0]) || blocked(cells, cs[1]) || blocked(cells, cs[2]) || blocked(cells, cs[3])
}

/// The four slots set to `st`.
pub open spec fn paint(cells: Seq<SlotState>, cs: [IVec2; 4], st: SlotState) -> Seq<SlotState> {
    cells.update(index_of(cs[0]), st).update(index_of(cs[1]), st).update(index_of(cs[2]), st).update(
        index_of(cs[3]),
        st,
    )
}

/// Slot `c` set to `st` unless the active piece occupies it.
pub open spec fn mark(cells: Seq<SlotState>, c: IVec2, st: SlotState) -> Seq<SlotState> {
    if cells[index_of(c)] is Occupied {
        cells
    } else {
        cells.update(index_of(c), st)
    }
}

/// The four slots marked with `st` in turn, skipping those the active piece occupies.
pub open spec fn mark_all(cells: Seq<SlotState>, cs: [IVec2; 4], st: SlotState) -> Seq<SlotState> {
    mark(mark(mark(mark(cells, cs[0], st), cs[1], st), cs[2], st), cs[3], st)
}

/// The vector `k` rows down.
pub open spec fn down(k: int) -> IVec2 {
    iv(0, (0 - k) as i32)
}

/// The cells moved `k` rows down collide with nothing.
pub open spec fn fits_lower(cells: Seq<SlotState>, cs: [IVec2; 4], k: int) -> bool {
    !collides(cells, shift(cs, down(k)))
}

/// `d` is how far the cells can drop: every drop of one to `d` rows fits and
/// a drop of `d + 1` rows does not.
pub open spec fn is_drop(cells: Seq<SlotState>, cs: [IVec2; 4], d: int) -> bool {
    &&& 0 <= d
    &&& forall|j: int| 1 <= j <= d ==> #[trigger] fits_lower(cells, cs, j)
    &&& !fits_lower(cells, cs, d + 1)
}

/// How far the cells can drop.
pub open spec fn drop_distance(cells: Seq<SlotState>, cs: [IVec2; 4]) -> int {
    choose|d: int| is_drop(cells, cs, d)
}

/// The first of the wall kick tests, from the `i`-th on, that moves the turned
/// cells clear of any collision.
pub open spec fn first_fit(cells: Seq<SlotState>, turned: [IVec2; 4], tests: [IVec2; 5], i: int) -> Option<
    IVec2,
>
    decreases 5 - i,
{
    if i < 0 || i >= 5 {
        None
    } else if !collides(cells, shift(turned, tests[i])) {
        Some(tests[i])
    } else {
        first_fit(cells, turned, tests, i + 1)
    }
}

/// The slot in column `x` and row `y` is locked.
pub open spec fn locked_at(cells: Seq<SlotState>, x: int, y: int) -> bool {
    cells[y * 10 + x] is Locked
}

/// Row `y` is full of locked slots.
pub open spec fn row_complete(cells: Seq<SlotState>, y: int) -> bool {
    forall|x: int| 0 <= x < 10 ==> #[trigger] locked_at(cells, x, y)
}

/// The complete rows below row `n`, bottom up.
pub open spec fn complete_rows_below(cells: Seq<SlotState>, n: int) -> Seq<int>
    decreases n,
{
    if n <= 0 {
        Seq::empty()
    } else if row_complete(cells, n - 1) {
        complete_rows_below(cells, n - 1).push(n - 1)
    } else {
        complete_rows_below(cells, n - 1)
    }
}

/// The complete rows, bottom up.
pub open spec fn complete_rows(cells: Seq<SlotState>) -> Seq<int> {
    complete_rows_below(cells, 22)
}

/// The rows below row `n` that are not among `removed`, bottom up.
pub open spec fn kept_rows(n: int, removed: Seq<int>) -> Seq<int>
    decreases n,
{
    if n <= 0 {
        Seq::empty()
    } else if removed.contains(n - 1) {
        kept_rows(n - 1, removed)
    } else {
        kept_rows(n - 1, removed).push(n - 1)
    }
}

/// The rows `rows` of `cells` stacked from the bottom up, then empty rows.
pub open spec fn stacked(cells: Seq<SlotState>, rows: Seq<int>) -> Seq<SlotState> {
    Seq::new(
        220,
        |i: int|
            if i / 10 < rows.len() {
                cells[rows[i / 10] * 10 + i % 10]
            } else {
                SlotState::Empty
            },
    )
}

/// The slots after the complete rows are cleared: the other rows move down,
/// keeping their order, and empty rows fill the top.
pub open spec fn cleared_cells(cells: Seq<SlotState>) -> Seq<SlotState> {
    stacked(cells, kept_rows(22, complete_rows(cells)))
}

/// Row `l` removed: the rows above it move down one, the top row empties.
pub open spec fn row_removed(cells: Seq<SlotState>, l: int) -> Seq<SlotState> {
    Seq::new(
        220,
        |i: int|
            if i < l * 10 {
                cells[i]
            } else if i < 210 {
                cells[i + 10]
            } else {
                SlotState::Empty
            },
    )
}

/// The rows `lines[j..]` removed, the last of them first.
pub open spec fn rows_removed(cells: Seq<SlotState>, lines: Seq<int>, j: int) -> Seq<SlotState>
    decreases lines.len() - j,
{
    if j < 0 || j >= lines.len() {
        cells
    } else {
        row_removed(rows_removed(cells, lines, j + 1), lines[j])
    }
}

/// The rows among `lines` emptied.
pub open spec fn rows_emptied(cells: Seq<SlotState>, lines: Seq<int>) -> Seq<SlotState> {
    Seq::new(220, |i: int| if lines.contains(i / 10) { SlotState::Empty } else { cells[i] })
}

/// The slots of row `y` are those from `y * 10` on, column by column.
proof fn lemma_row_col(i: int)
    requires
        0 <= i,
    ensures
        i == (i / 10) * 10 + i % 10,
        0 <= i % 10 < 10,
        (i + 10) / 10 == i / 10 + 1,
        (i + 10) % 10 == i % 10,
{
}

proof fn lemma_row_col_inverse(x: int, y: int)
    requires
        0 <= x < 10,
        0 <= y,
    ensures
        (y * 10 + x) / 10 == y,
        (y * 10 + x) % 10 == x,
{
}

/// The complete rows below `n` are increasing, lie below `n`, and are exactly
/// the complete ones.
proof fn lemma_complete_rows_below(cells: Seq<SlotState>, n: int)
    requires
        0 <= n,
    ensures
        forall|i: int, j: int|
            0 <= i < j < complete_rows_below(cells, n).len() ==> complete_rows_below(cells, n)[i]
                < complete_rows_below(cells, n)[j],
        forall|i: int|
            0 <= i < complete_rows_below(cells, n).len() ==> 0 <= #[trigger] complete_rows_below(
                cells,
                n,
            )[i] < n,
        forall|r: int|
            complete_rows_below(cells, n).contains(r) <==> (0 <= r < n && row_complete(cells, r)),
        complete_rows_below(cells, n).len() <= n,
    decreases n,
{
    if n > 0 {
        lemma_complete_rows_below(cells, n - 1);
        let s = complete_rows_below(cells, n - 1);
        if row_complete(cells, n - 1) {
            assert forall|r: int|
                complete_rows_below(cells, n).contains(r) <==> (0 <= r < n && row_complete(
                    cells,
                    r,
                )) by {
                if complete_rows_below(cells, n).contains(r) {
                    let k = choose|k: int|
                        0 <= k < complete_rows_below(cells, n).len() && complete_rows_below(
                            cells,
                            n,
                        )[k] == r;
                    if k < s.len() {
                        assert(s[k] == r);
                        assert(s.contains(r));
                    }
                }
                if 0 <= r < n && row_complete(cells, r) {
                    if r < n - 1 {
                        assert(s.contains(r));
                        let k = choose|k: int| 0 <= k < s.len() && s[k] == r;
                        assert(complete_rows_below(cells, n)[k] == r);
                    } else {
                        assert(complete_rows_below(cells, n)[s.len() as int] == r);
                    }
                }
            }
        } else {
            assert forall|r: int|
                complete_rows_below(cells, n).contains(r) <==> (0 <= r < n && row_complete(
                    cells,
                    r,
                )) by {
                if 0 <= r < n && row_complete(cells, r) {
                    assert(r != n - 1);
                }
            }
        }
    }
}

/// The kept rows below `n` lie below `n`, are not removed, and number at most `n`.
proof fn lemma_kept_rows(n: int, removed: Seq<int>)
    requires
        0 <= n,
    ensures
        forall|i: int|
            0 <= i < kept_rows(n, removed).len() ==> 0 <= #[trigger] kept_rows(n, removed)[i] < n
                && !removed.contains(kept_rows(n, removed)[i]),
        kept_rows(n, removed).len() <= n,
    decreases n,
{
    if n > 0 {
        lemma_kept_rows(n - 1, removed);
    }
}

/// With nothing removed at or below row `l`, the kept rows below `n <= l + 1`
/// are all the rows below `n`.
proof fn lemma_kept_rows_all(n: int, removed: Seq<int>, l: int)
    requires
        0 <= n <= l + 1,
        forall|i: int| 0 <= i < removed.len() ==> removed[i] > l,
    ensures
        kept_rows(n, removed) == Seq::new(n as nat, |i: int| i),
    decreases n,
{
    if n > 0 {
        lemma_kept_rows_all(n - 1, removed, l);
        assert(!removed.contains(n - 1));
        assert(kept_rows(n, removed) =~= Seq::new(n as nat, |i: int| i));
    } else {
        assert(kept_rows(n, removed) =~= Seq::new(n as nat, |i: int| i));
    }
}

/// The kept rows below `m` begin the kept rows below `n >= m`.
proof fn lemma_kept_rows_prefix(m: int, n: int, removed: Seq<int>)
    requires
        0 <= m <= n,
    ensures
        kept_rows(m, removed).len() <= kept_rows(n, removed).len(),
        forall|i: int|
            0 <= i < kept_rows(m, removed).len() ==> #[trigger] kept_rows(n, removed)[i] == kept_rows(
                m,
                removed,
            )[i],
    decreases n - m,
{
    if m < n {
        lemma_kept_rows_prefix(m, n - 1, removed);
    }
}

/// Removing one more row `l`, below all those already removed, removes it from
/// the kept rows.
proof fn lemma_kept_rows_remove(n: int, removed: Seq<int>, l: int)
    requires
        0 <= l < n,
        forall|i: int| 0 <= i < removed.len() ==> removed[i] > l,
    ensures
        l < kept_rows(n, removed).len(),
        kept_rows(n, seq![l] + removed) == kept_rows(n, removed).remove(l),
    decreases n,
{
    let more = seq![l] + removed;
    assert(!removed.contains(l));
    assert(more.contains(l)) by {
        assert(more[0] == l);
    }
    assert forall|r: int| r != l implies (more.contains(r) <==> removed.contains(r)) by {
        if more.contains(r) {
            let k = choose|k: int| 0 <= k < more.len() && more[k] == r;
            assert(removed[k - 1] == r);
        }
        if removed.contains(r) {
            let k = choose|k: int| 0 <= k < removed.len() && removed[k] == r;
            assert(more[k + 1] == r);
        }
    }
    if n == l + 1 {
        lemma_kept_rows_all(n, removed, l);
        lemma_kept_rows_all(l, more, l - 1);
        lemma_kept_rows_all(l, removed, l);
        assert(kept_rows(n, more) == kept_rows(l, more));
        assert(kept_rows(n, more) =~= kept_rows(n, removed).remove(l));
    } else {
        lemma_kept_rows_remove(n - 1, removed, l);
        assert(kept_rows(n, more) =~= kept_rows(n, removed).remove(l));
    }
}

/// Removing row `l` from rows stacked in the order `kept`, where the first
/// `l + 1` kept rows are rows `0` to `l`, stacks the same rows without `l`.
proof fn lemma_stacked_row_removed(cells: Seq<SlotState>, kept: Seq<int>, l: int)
    requires
        0 <= l < kept.len() <= 22,
        forall|y: int| 0 <= y <= l ==> kept[y] == y,
    ensures
        row_removed(stacked(cells, kept), l) == stacked(cells, kept.remove(l)),
{
    let lhs = row_removed(stacked(cells, kept), l);
    let rhs = stacked(cells, kept.remove(l));
    assert forall|i: int| 0 <= i < 220 implies lhs[i] == rhs[i] by {
        lemma_row_col(i);
        if i < l * 10 {
            assert(i / 10 < l);
        } else if i < 210 {
            assert(i / 10 >= l);
        }
    }
    assert(lhs =~= rhs);
}

/// Stacking all rows in order gives the slots back.
proof fn lemma_stacked_all(cells: Seq<SlotState>)
    requires
        cells.len() == 220,
    ensures
        stacked(cells, Seq::new(22, |i: int| i)) == cells,
{
    let s = stacked(cells, Seq::new(22, |i: int| i));
    assert forall|i: int| 0 <= i < 220 implies s[i] == cells[i] by {
        lemma_row_col(i);
    }
    assert(s =~= cells);
}

/// Removing the rows `lines[j..]`, the last first, from slots in which those
/// rows may have been changed, stacks the other rows.
proof fn lemma_rows_removed(cells: Seq<SlotState>, lines: Seq<int>, j: int)
    requires
        cells.len() == 220,
        0 <= j <= lines.len(),
        forall|a: int, b: int| 0 <= a < b < lines.len() ==> lines[a] < lines[b],
        forall|a: int| 0 <= a < lines.len() ==> 0 <= #[trigger] lines[a] < 22,
    ensures
        rows_removed(cells, lines, j) == stacked(cells, kept_rows(22, lines.subrange(j, lines.len() as int))),
    decreases lines.len() - j,
{
    let n = lines.len() as int;
    if j == n {
        assert(lines.subrange(j, n) =~= Seq::<int>::empty());
        lemma_kept_rows_all(22, lines.subrange(j, n), 21);
        lemma_stacked_all(cells);
    } else {
        lemma_rows_removed(cells, lines, j + 1);
        let l = lines[j];
        let rest = lines.subrange(j + 1, n);
        assert(lines.subrange(j, n) =~= seq![l] + rest);
        assert forall|i: int| 0 <= i < rest.len() implies rest[i] > l by {
            assert(rest[i] == lines[j + 1 + i]);
        }
        let kept = kept_rows(22, rest);
        lemma_kept_rows_remove(22, rest, l);
        lemma_kept_rows(22, rest);
        lemma_kept_rows_all(l + 1, rest, l);
        lemma_kept_rows_prefix(l + 1, 22, rest);
        assert forall|y: int| 0 <= y <= l implies kept[y] == y by {
            assert(kept_rows(l + 1, rest)[y] == y);
        }
        lemma_stacked_row_removed(cells, kept, l);
    }
}

/// Stacking rows that `rows_emptied` left alone reads the slots as they were.
proof fn lemma_stacked_emptied(cells: Seq<SlotState>, lines: Seq<int>, kept: Seq<int>)
    requires
        cells.len() == 220,
        forall|i: int| 0 <= i < kept.len() ==> 0 <= #[trigger] kept[i] < 22 && !lines.contains(kept[i]),
    ensures
        stacked(rows_emptied(cells, lines), kept) == stacked(cells, kept),
{
    let a = stacked(rows_emptied(cells, lines), kept);
    let b = stacked(cells, kept);
    assert forall|i: int| 0 <= i < 220 implies a[i] == b[i] by {
        lemma_row_col(i);
        if i / 10 < kept.len() {
            let r = kept[i / 10];
            lemma_row_col_inverse(i % 10, r);
        }
    }
    assert(a =~= b);
}

/// Every slot locked in `after` is locked in `before`.
pub open spec fn locks_kept_from(after: Seq<SlotState>, before: Seq<SlotState>) -> bool {
    &&& after.len() == before.len()
    &&& forall|i: int| 0 <= i < after.len() && #[trigger] after[i] is Locked ==> before[i] is Locked
}

/// A playfield in which no row is complete keeps none when no slot becomes locked.
pub proof fn lemma_no_new_complete_rows(before: Seq<SlotState>, after: Seq<SlotState>)
    requires
        before.len() == 220,
        locks_kept_from(after, before),
        complete_rows(before).len() == 0,
    ensures
        complete_rows(after).len() == 0,
{
    lemma_complete_rows_below(before, 22);
    lemma_complete_rows_below(after, 22);
    if complete_rows(after).len() > 0 {
        let r = complete_rows(after)[0];
        assert(complete_rows(after).contains(r));
        assert(row_complete(after, r));
        assert(0 <= r < 22);
        assert forall|x: int| 0 <= x < 10 implies #[trigger] locked_at(before, x, r) by {
            assert(locked_at(after, x, r));
        }
        assert(row_complete(before, r));
        assert(complete_rows(before).contains(r));
    }
}

/// Slots painted or marked with a state that is not locked lock nothing new.
proof fn lemma_paint_keeps_locks(cells: Seq<SlotState>, cs: [IVec2; 4], st: SlotState)
    requires
        cells.len() == 220,
        within(cs),
        !(st is Locked),
    ensures
        locks_kept_from(paint(cells, cs, st), cells),
        locks_kept_from(mark_all(cells, cs, st), cells),
{
}

proof fn lemma_locks_kept_trans(a: Seq<SlotState>, b: Seq<SlotState>, c: Seq<SlotState>)
    requires
        locks_kept_from(a, b),
        locks_kept_from(b, c),
    ensures
        locks_kept_from(a, c),
{
}

impl PlayfieldView {
    /// Bringing the ghost up to date locks no slot and keeps the playfield
    /// well-formed.
    pub proof fn lemma_refresh_ghost(self, translating: bool)
        requires
            self.wf(),
        ensures
            self.refresh_ghost(translating).wf(),
            locks_kept_from(self.refresh_ghost(translating).cells, self.cells),
            self.refresh_ghost(translating).active == self.active,
    {
        match self.active {
            None => {
                if let Some(g) = self.ghost_piece {
                    lemma_paint_keeps_locks(self.cells, g.cells(), SlotState::Empty);
                }
            },
            Some(a) => {
                if let Some(g) = self.ghost_piece {
                    lemma_drop_exists(self.cells, a.cells());
                    let d = drop_distance(self.cells, a.cells());
                    lemma_drop_within(self.cells, a.cells(), d);
                    lemma_shift_twice(a.blocks, a.translation, down(d));
                    let cleared = if translating {
                        mark_all(self.cells, g.cells(), SlotState::Empty)
                    } else {
                        self.cells
                    };
                    lemma_paint_keeps_locks(self.cells, g.cells(), SlotState::Empty);
                    let g2 = Rustomino { blocks: a.blocks, translation: a.translation.plus(down(d)), ..g };
                    assert(g2.cells() == shift(a.cells(), down(d)));
                    lemma_paint_keeps_locks(cleared, g2.cells(), SlotState::GhostBlock(g.rtype));
                    lemma_locks_kept_trans(
                        mark_all(cleared, g2.cells(), SlotState::GhostBlock(g.rtype)),
                        cleared,
                        self.cells,
                    );
                }
            },
        }
    }
}

/// A drop exists for cells inside the playfield.
pub proof fn lemma_drop_exists(cells: Seq<SlotState>, cs: [IVec2; 4])
    requires
        cells.len() == 220,
        within(cs),
    ensures
        is_drop(cells, cs, drop_distance(cells, cs)),
        0 <= drop_distance(cells, cs) <= 21,
{
    lemma_drop_from(cells, cs, 0);
}

proof fn lemma_drop_from(cells: Seq<SlotState>, cs: [IVec2; 4], k: int)
    requires
        cells.len() == 220,
        within(cs),
        0 <= k <= 21,
        forall|j: int| 1 <= j <= k ==> #[trigger] fits_lower(cells, cs, j),
    ensures
        is_drop(cells, cs, drop_distance(cells, cs)),
        0 <= drop_distance(cells, cs) <= 21,
    decreases 21 - k,
{
    if !fits_lower(cells, cs, k + 1) {
        assert(is_drop(cells, cs, k));
        lemma_drop_unique(cells, cs, k);
    } else {
        assert(in_bounds(shift(cs, down(k + 1))[0]));
        lemma_drop_from(cells, cs, k + 1);
    }
}

/// No row is complete once the complete rows are cleared.
pub proof fn lemma_cleared_has_no_complete_rows(cells: Seq<SlotState>)
    requires
        cells.len() == 220,
    ensures
        complete_rows(cleared_cells(cells)).len() == 0,
{
    let c2 = cleared_cells(cells);
    let kept = kept_rows(22, complete_rows(cells));
    lemma_complete_rows_below(cells, 22);
    lemma_complete_rows_below(c2, 22);
    lemma_kept_rows(22, complete_rows(cells));
    if complete_rows(c2).len() > 0 {
        let y = complete_rows(c2)[0];
        assert(complete_rows(c2).contains(y));
        assert(row_complete(c2, y));
        lemma_row_col_inverse(0, y);
        if y < kept.len() {
            let r = kept[y];
            assert(!row_complete(cells, r));
            let x = choose|x: int| 0 <= x < 10 && !#[trigger] locked_at(cells, x, r);
            lemma_row_col_inverse(x, y);
            assert(c2[y * 10 + x] == cells[r * 10 + x]);
            assert(!locked_at(c2, x, y));
        } else {
            assert(c2[y * 10 + 0] == SlotState::Empty);
            assert(!locked_at(c2, 0, y));
        }
    }
}

/// Locking a piece into a playfield with no complete row completes at most
/// four rows: a row it completes holds one of its four blocks.
pub proof fn lemma_lock_completes_at_most_four(cells: Seq<SlotState>, cs: [IVec2; 4], t: RustominoType)
    requires
        cells.len() == 220,
        within(cs),
        complete_rows(cells).len() == 0,
    ensures
        complete_rows(paint(cells, cs, SlotState::Locked(t))).len() <= 4,
{
    let p = paint(cells, cs, SlotState::Locked(t));
    let rows = complete_rows(p);
    lemma_complete_rows_below(cells, 22);
    lemma_complete_rows_below(p, 22);
    let ys = Set::<int>::empty().insert(cs[0].y as int).insert(cs[1].y as int).insert(
        cs[2].y as int,
    ).insert(cs[3].y as int);
    assert forall|r: int| rows.to_set().contains(r) implies ys.contains(r) by {
        assert(rows.contains(r));
        assert(row_complete(p, r));
        if !ys.contains(r) {
            assert forall|x: int| 0 <= x < 10 implies #[trigger] locked_at(cells, x, r) by {
                assert(locked_at(p, x, r));
                assert(p[r * 10 + x] == cells[r * 10 + x]);
            }
            assert(row_complete(cells, r));
            assert(complete_rows(cells).contains(r));
        }
    }
    assert(rows.no_duplicates()) by {
        assert forall|i: int, j: int| 0 <= i < rows.len() && 0 <= j < rows.len() && i != j implies rows[i]
            != rows[j] by {
            if i < j {
                assert(rows[i] < rows[j]);
            } else {
                assert(rows[j] < rows[i]);
            }
        }
    }
    rows.unique_seq_to_set();
    assert(ys.len() <= 4) by {
        broadcast use vstd::set::group_set_axioms;
    }
    assert(ys.finite()) by {
        broadcast use vstd::set::group_set_axioms;
    }
    vstd::set_lib::lemma_len_subset(rows.to_set(), ys);
}

impl PlayfieldView {
    /// Placing a piece inside the playfield locks no slot.
    pub proof fn lemma_placed_keeps_locks(self, r: Rustomino)
        requires
            self.wf(),
            within(r.cells()),
        ensures
            self.placed(r).wf(),
            locks_kept_from(self.placed(r).cells, self.cells),
    {
        let v = PlayfieldView {
            cells: paint(self.cells, r.cells(), SlotState::Occupied(r.rtype)),
            active: Some(r),
            ghost_piece: Some(r),
        };
        lemma_paint_keeps_locks(self.cells, r.cells(), SlotState::Occupied(r.rtype));
        v.lemma_refresh_ghost(false);
        lemma_locks_kept_trans(v.refresh_ghost(false).cells, v.cells, self.cells);
    }

    /// Taking the active piece off locks no slot.
    pub proof fn lemma_taken_keeps_locks(self)
        requires
            self.wf(),
        ensures
            self.taken().wf(),
            locks_kept_from(self.taken().cells, self.cells),
    {
        if let Some(a) = self.active {
            let v = PlayfieldView {
                cells: paint(self.cells, a.cells(), SlotState::Empty),
                active: None,
                ghost_piece: self.ghost_piece,
            };
            lemma_paint_keeps_locks(self.cells, a.cells(), SlotState::Empty);
            v.lemma_refresh_ghost(false);
            lemma_locks_kept_trans(v.refresh_ghost(false).cells, v.cells, self.cells);
        }
    }

    /// Relocating the active piece inside the playfield locks no slot.
    pub proof fn lemma_relocated_keeps_locks(self, a2: Rustomino)
        requires
            self.wf(),
            self.active is Some,
            within(a2.cells()),
        ensures
            self.relocated(self.active.unwrap(), a2).wf(),
            locks_kept_from(self.relocated(self.active.unwrap(), a2).cells, self.cells),
    {
        let a = self.active.unwrap();
        let c1 = paint(self.cells, a.cells(), SlotState::Empty);
        lemma_paint_keeps_locks(self.cells, a.cells(), SlotState::Empty);
        lemma_paint_keeps_locks(c1, a2.cells(), SlotState::Occupied(a.rtype));
        lemma_locks_kept_trans(self.relocated(a, a2).cells, c1, self.cells);
    }

    /// A move that fits locks no slot.
    pub proof fn lemma_shifted_keeps_locks(self, d: IVec2)
        requires
            self.wf(),
            self.can_move(d),
        ensures
            self.shifted(d).wf(),
            locks_kept_from(self.shifted(d).cells, self.cells),
    {
        let a = self.active.unwrap();
        lemma_moved_cells(a, d);
        self.lemma_relocated_keeps_locks(a.moved(d));
        let v = self.relocated(a, a.moved(d));
        v.lemma_refresh_ghost(true);
        lemma_locks_kept_trans(v.refresh_ghost(true).cells, v.cells, self.cells);
    }

    /// A turn that fits locks no slot.
    pub proof fn lemma_turned_keeps_locks(self, rotation: Rotation)
        requires
            self.wf(),
            self.kick(rotation) is Some,
        ensures
            self.turned(rotation).wf(),
            locks_kept_from(self.turned(rotation).cells, self.cells),
    {
        let a = self.active.unwrap();
        let k = self.kick(rotation).unwrap();
        lemma_first_fit_fits(self.cells, a.turned_cells(rotation), a.kicks(rotation), 0);
        lemma_turned_cells(a, rotation, k);
        self.lemma_relocated_keeps_locks(a.turned(rotation, k));
        let v = self.relocated(a, a.turned(rotation, k));
        v.lemma_refresh_ghost(true);
        lemma_locks_kept_trans(v.refresh_ghost(true).cells, v.cells, self.cells);
    }

    /// A hard drop locks no slot.
    pub proof fn lemma_dropped_keeps_locks(self)
        requires
            self.wf(),
        ensures
            self.dropped().wf(),
            locks_kept_from(self.dropped().cells, self.cells),
    {
        if let Some(a) = self.active {
            lemma_drop_exists(self.cells, a.cells());
            lemma_drop_within(self.cells, a.cells(), drop_distance(self.cells, a.cells()));
            lemma_moved_cells(a, down(drop_distance(self.cells, a.cells())));
            lemma_paint_keeps_locks(self.cells, a.cells(), SlotState::Empty);
        }
    }

    /// A fall of one row locks no slot.
    pub proof fn lemma_fallen_keeps_locks(self)
        requires
            self.wf(),
            self.can_fall(),
        ensures
            self.fallen().wf(),
            locks_kept_from(self.fallen().cells, self.cells),
    {
        let a = self.active.unwrap();
        lemma_moved_cells(a, down(1));
        self.lemma_relocated_keeps_locks(a.moved(down(1)));
    }
}

/// An empty playfield has no complete row.
pub proof fn lemma_empty_has_no_complete_rows()
    ensures
        complete_rows(Seq::new(220, |i: int| SlotState::Empty)).len() == 0,
{
    let cells = Seq::new(220, |i: int| SlotState::Empty);
    lemma_complete_rows_below(cells, 22);
    if complete_rows(cells).len() > 0 {
        let r = complete_rows(cells)[0];
        assert(complete_rows(cells).contains(r));
        assert(row_complete(cells, r));
        assert(locked_at(cells, 0, r));
    }
}

/// A drop of `d` is unique.
pub proof fn lemma_drop_unique(cells: Seq<SlotState>, cs: [IVec2; 4], d: int)
    requires
        is_drop(cells, cs, d),
    ensures
        drop_distance(cells, cs) == d,
{
    let e = drop_distance(cells, cs);
    assert(is_drop(cells, cs, e));
    if e < d {
        assert(fits_lower(cells, cs, e + 1));
    } else if e > d {
        assert(fits_lower(cells, cs, d + 1));
    }
}

/// Cells inside the playfield dropped as far as they go stay inside it.
pub proof fn lemma_drop_within(cells: Seq<SlotState>, cs: [IVec2; 4], d: int)
    requires
        within(cs),
        is_drop(cells, cs, d),
    ensures
        within(shift(cs, down(d))),
{
    if d == 0 {
        lemma_shift_zero(cs);
    } else {
        assert(fits_lower(cells, cs, d));
    }
}

/// The two playfields have the same locked slots.
pub open spec fn same_locks(a: Seq<SlotState>, b: Seq<SlotState>) -> bool {
    &&& a.len() == b.len()
    &&& forall|i: int| 0 <= i < a.len() ==> (#[trigger] a[i] is Locked <==> b[i] is Locked)
}

/// How far cells drop depends on the locked slots alone.
pub proof fn lemma_same_locks_same_drop(c1: Seq<SlotState>, c2: Seq<SlotState>, cs: [IVec2; 4])
    requires
        c1.len() == 220,
        same_locks(c1, c2),
        within(cs),
    ensures
        drop_distance(c1, cs) == drop_distance(c2, cs),
{
    let d = drop_distance(c1, cs);
    lemma_drop_exists(c1, cs);
    assert forall|c: IVec2| #[trigger] blocked(c1, c) == blocked(c2, c) by {
        if in_bounds(c) {
            assert(0 <= index_of(c) < 220);
        }
    }
    assert forall|j: int|
        #![trigger fits_lower(c1, cs, j)]
        #![trigger fits_lower(c2, cs, j)]
        fits_lower(c1, cs, j) == fits_lower(c2, cs, j) by {
        let m = shift(cs, down(j));
        assert(blocked(c1, m[0]) == blocked(c2, m[0]));
        assert(blocked(c1, m[1]) == blocked(c2, m[1]));
        assert(blocked(c1, m[2]) == blocked(c2, m[2]));
        assert(blocked(c1, m[3]) == blocked(c2, m[3]));
    }
    assert(is_drop(c2, cs, d));
    lemma_drop_unique(c2, cs, d);
}

/// Marking four slots that are not locked, with a state that is not locked,
/// keeps the locked slots.
proof fn lemma_mark_keeps_locks(cells: Seq<SlotState>, cs: [IVec2; 4], st: SlotState)
    requires
        cells.len() == 220,
        !collides(cells, cs),
        !(st is Locked),
    ensures
        same_locks(mark_all(cells, cs, st), cells),
{
    assert(0 <= index_of(cs[0]) < 220);
    assert(0 <= index_of(cs[1]) < 220);
    assert(0 <= index_of(cs[2]) < 220);
    assert(0 <= index_of(cs[3]) < 220);
}

/// The ghost piece shows where a hard drop puts the active piece: once the
/// ghost is brought up to date, it covers exactly the slots on which the
/// active piece lands when dropped as far as it goes. This holds while the
/// active piece, and the previous ghost that a move clears, lie on no locked
/// slot.
pub proof fn lemma_ghost_shows_landing(p: PlayfieldView, translating: bool)
    requires
        p.wf(),
        p.active is Some,
        p.ghost_piece is Some,
        !collides(p.cells, p.active.unwrap().cells()),
        translating ==> !collides(p.cells, p.ghost_piece.unwrap().cells()),
    ensures
        p.refresh_ghost(translating).ghost_piece.unwrap().cells() == p.refresh_ghost(
            translating,
        ).dropped().active.unwrap().cells(),
{
    let a = p.active.unwrap();
    let g = p.ghost_piece.unwrap();
    let d = drop_distance(p.cells, a.cells());
    lemma_drop_exists(p.cells, a.cells());
    let cleared = if translating {
        mark_all(p.cells, g.cells(), SlotState::Empty)
    } else {
        p.cells
    };
    if translating {
        lemma_mark_keeps_locks(p.cells, g.cells(), SlotState::Empty);
    }
    assert(same_locks(cleared, p.cells));
    let g2 = Rustomino { blocks: a.blocks, translation: a.translation.plus(down(d)), ..g };
    lemma_shift_twice(a.blocks, a.translation, down(d));
    assert(g2.cells() == shift(a.cells(), down(d)));
    if d == 0 {
        lemma_shift_zero(a.cells());
        assert(down(0) == iv(0, 0));
    } else {
        assert(fits_lower(p.cells, a.cells(), d));
    }
    assert(!collides(p.cells, g2.cells()));
    assert forall|c: IVec2| #[trigger] blocked(cleared, c) == blocked(p.cells, c) by {
        if in_bounds(c) {
            assert(0 <= index_of(c) < 220);
        }
    }
    assert(!collides(cleared, g2.cells())) by {
        assert(blocked(cleared, g2.cells()[0]) == blocked(p.cells, g2.cells()[0]));
        assert(blocked(cleared, g2.cells()[1]) == blocked(p.cells, g2.cells()[1]));
        assert(blocked(cleared, g2.cells()[2]) == blocked(p.cells, g2.cells()[2]));
        assert(blocked(cleared, g2.cells()[3]) == blocked(p.cells, g2.cells()[3]));
    }
    let q = p.refresh_ghost(translating);
    lemma_mark_keeps_locks(cleared, g2.cells(), SlotState::GhostBlock(g.rtype));
    assert(q.cells == mark_all(cleared, g2.cells(), SlotState::GhostBlock(g.rtype)));
    assert(same_locks(q.cells, p.cells));
    lemma_same_locks_same_drop(q.cells, p.cells, a.cells());
    assert(q.dropped().active.unwrap() == a.moved(down(d)));
}

/// The two playfields hold the same locked blocks: a slot locked in either
/// is the same in both.
pub open spec fn same_locked_blocks(a: Seq<SlotState>, b: Seq<SlotState>) -> bool {
    &&& a.len() == b.len()
    &&& forall|i: int|
        #![trigger a[i]]
        #![trigger b[i]]
        0 <= i < a.len() && (a[i] is Locked || b[i] is Locked) ==> a[i] == b[i]
}

/// Setting four slots that are not locked to a state that is not locked
/// keeps every locked block.
proof fn lemma_free_slots_keep_blocks(cells: Seq<SlotState>, cs: [IVec2; 4], st: SlotState)
    requires
        cells.len() == 220,
        !collides(cells, cs),
        !(st is Locked),
    ensures
        same_locked_blocks(paint(cells, cs, st), cells),
        same_locked_blocks(mark_all(cells, cs, st), cells),
{
    assert(0 <= index_of(cs[0]) < 220);
    assert(0 <= index_of(cs[1]) < 220);
    assert(0 <= index_of(cs[2]) < 220);
    assert(0 <= index_of(cs[3]) < 220);
}

proof fn lemma_same_blocks_trans(a: Seq<SlotState>, b: Seq<SlotState>, c: Seq<SlotState>)
    requires
        same_locked_blocks(a, b),
        same_locked_blocks(b, c),
    ensures
        same_locked_blocks(a, c),
{
    assert forall|i: int|
        #![trigger a[i]]
        #![trigger c[i]]
        0 <= i < a.len() && (a[i] is Locked || c[i] is Locked) implies a[i] == c[i] by {
        assert(b[i] == b[i]);
    }
}

/// Cells collide alike on two playfields with the same locked blocks.
proof fn lemma_same_blocks_collide(a: Seq<SlotState>, b: Seq<SlotState>, cs: [IVec2; 4])
    requires
        a.len() == 220,
        same_locked_blocks(a, b),
    ensures
        collides(a, cs) == collides(b, cs),
{
    assert forall|c: IVec2| #[trigger] blocked(a, c) == blocked(b, c) by {
        if in_bounds(c) {
            assert(0 <= index_of(c) < 220);
            assert(a[index_of(c)] == a[index_of(c)]);
        }
    }
    assert(blocked(a, cs[0]) == blocked(b, cs[0]));
    assert(blocked(a, cs[1]) == blocked(b, cs[1]));
    assert(blocked(a, cs[2]) == blocked(b, cs[2]));
    assert(blocked(a, cs[3]) == blocked(b, cs[3]));
}

impl PlayfieldView {
    /// Bringing the ghost up to date keeps every locked block, while the
    /// active piece and the previous ghost lie on no locked slot.
    pub proof fn lemma_refresh_keeps_locked_blocks(self, translating: bool)
        requires
            self.wf(),
            (self.active matches Some(a) ==> !collides(self.cells, a.cells())),
            (self.ghost_piece matches Some(g) ==> !collides(self.cells, g.cells())),
        ensures
            same_locked_blocks(self.refresh_ghost(translating).cells, self.cells),
    {
        let q = self.refresh_ghost(translating);
        match self.active {
            None => {
                if let Some(g) = self.ghost_piece {
                    if !translating {
                        lemma_free_slots_keep_blocks(self.cells, g.cells(), SlotState::Empty);
                    }
                }
            },
            Some(a) => {
                if let Some(g) = self.ghost_piece {
                    let d = drop_distance(self.cells, a.cells());
                    lemma_drop_exists(self.cells, a.cells());
                    let cleared = if translating {
                        mark_all(self.cells, g.cells(), SlotState::Empty)
                    } else {
                        self.cells
                    };
                    if translating {
                        lemma_free_slots_keep_blocks(self.cells, g.cells(), SlotState::Empty);
                    }
                    assert(same_locked_blocks(cleared, self.cells));
                    let g2 = Rustomino { blocks: a.blocks, translation: a.translation.plus(down(d)), ..g };
                    lemma_shift_twice(a.blocks, a.translation, down(d));
                    assert(g2.cells() == shift(a.cells(), down(d)));
                    if d == 0 {
                        lemma_shift_zero(a.cells());
                        assert(down(0) == iv(0, 0));
                    } else {
                        assert(fits_lower(self.cells, a.cells(), d));
                    }
                    assert(!collides(self.cells, g2.cells()));
                    lemma_same_blocks_collide(cleared, self.cells, g2.cells());
                    lemma_free_slots_keep_blocks(cleared, g2.cells(), SlotState::GhostBlock(g.rtype));
                    assert(q.cells == mark_all(cleared, g2.cells(), SlotState::GhostBlock(g.rtype)));
                    lemma_same_blocks_trans(q.cells, cleared, self.cells);
                }
            },
        }
    }

    /// Replacing the active piece `a` by `a2` keeps every locked block, while
    /// both lie on no locked slot.
    proof fn lemma_relocated_keeps_blocks(self, a2: Rustomino)
        requires
            self.wf(),
            (self.active matches Some(a) && !collides(self.cells, a.cells())),
            !collides(self.cells, a2.cells()),
        ensures
            same_locked_blocks(self.relocated(self.active.unwrap(), a2).cells, self.cells),
            self.relocated(self.active.unwrap(), a2).wf(),
    {
        let a = self.active.unwrap();
        let c1 = paint(self.cells, a.cells(), SlotState::Empty);
        lemma_free_slots_keep_blocks(self.cells, a.cells(), SlotState::Empty);
        lemma_same_blocks_collide(c1, self.cells, a2.cells());
        lemma_free_slots_keep_blocks(c1, a2.cells(), SlotState::Occupied(a.rtype));
        lemma_same_blocks_trans(self.relocated(a, a2).cells, c1, self.cells);
    }

    /// A turn never creates, moves, frees or changes a locked block, while the
    /// active piece and the ghost lie on no locked slot.
    pub proof fn lemma_turn_keeps_locked_blocks(self, rotation: Rotation)
        requires
            self.wf(),
            self.kick(rotation) is Some,
            !collides(self.cells, self.active.unwrap().cells()),
            (self.ghost_piece matches Some(g) ==> !collides(self.cells, g.cells())),
        ensures
            same_locked_blocks(self.turned(rotation).cells, self.cells),
    {
        let a = self.active.unwrap();
        let k = self.kick(rotation).unwrap();
        let a2 = a.turned(rotation, k);
        lemma_first_fit_fits(self.cells, a.turned_cells(rotation), a.kicks(rotation), 0);
        lemma_turned_cells(a, rotation, k);
        self.lemma_relocated_keeps_blocks(a2);
        let v = self.relocated(a, a2);
        lemma_same_blocks_collide(v.cells, self.cells, a2.cells());
        if let Some(g) = self.ghost_piece {
            lemma_same_blocks_collide(v.cells, self.cells, g.cells());
        }
        v.lemma_refresh_keeps_locked_blocks(true);
        lemma_same_blocks_trans(v.refresh_ghost(true).cells, v.cells, self.cells);
    }

    /// A move never creates, moves, frees or changes a locked block, while the
    /// active piece and the ghost lie on no locked slot.
    pub proof fn lemma_move_keeps_locked_blocks(self, d: IVec2)
        requires
            self.wf(),
            self.can_move(d),
            !collides(self.cells, self.active.unwrap().cells()),
            (self.ghost_piece matches Some(g) ==> !collides(self.cells, g.cells())),
        ensures
            same_locked_blocks(self.shifted(d).cells, self.cells),
    {
        let a = self.active.unwrap();
        let a2 = a.moved(d);
        lemma_moved_cells(a, d);
        self.lemma_relocated_keeps_blocks(a2);
        let v = self.relocated(a, a2);
        lemma_same_blocks_collide(v.cells, self.cells, a2.cells());
        if let Some(g) = self.ghost_piece {
            lemma_same_blocks_collide(v.cells, self.cells, g.cells());
        }
        v.lemma_refresh_keeps_locked_blocks(true);
        lemma_same_blocks_trans(v.refresh_ghost(true).cells, v.cells, self.cells);
    }
}

/// Slot `i` is one of the four cells.
pub open spec fn covers(cs: [IVec2; 4], i: int) -> bool {
    i == index_of(cs[0]) || i == index_of(cs[1]) || i == index_of(cs[2]) || i == index_of(cs[3])
}

/// The four cells hold `st`.
pub open spec fn holds(cells: Seq<SlotState>, cs: [IVec2; 4], st: SlotState) -> bool {
    &&& cells[index_of(cs[0])] == st
    &&& cells[index_of(cs[1])] == st
    &&& cells[index_of(cs[2])] == st
    &&& cells[index_of(cs[3])] == st
}

/// Every occupied slot is one of the four cells.
pub open spec fn occupied_within(cells: Seq<SlotState>, cs: [IVec2; 4]) -> bool {
    forall|i: int| 0 <= i < cells.len() && (#[trigger] cells[i] is Occupied) ==> covers(cs, i)
}

/// No slot is occupied.
pub open spec fn none_occupied(cells: Seq<SlotState>) -> bool {
    forall|i: int| 0 <= i < cells.len() ==> !(#[trigger] cells[i] is Occupied)
}

/// Painting four cells inside the playfield sets exactly their slots.
proof fn lemma_paint_at(cells: Seq<SlotState>, cs: [IVec2; 4], st: SlotState)
    requires
        cells.len() == 220,
        within(cs),
    ensures
        paint(cells, cs, st).len() == 220,
        forall|i: int|
            0 <= i < 220 ==> #[trigger] paint(cells, cs, st)[i] == if covers(cs, i) {
                st
            } else {
                cells[i]
            },
{
    assert(0 <= index_of(cs[0]) < 220);
    assert(0 <= index_of(cs[1]) < 220);
    assert(0 <= index_of(cs[2]) < 220);
    assert(0 <= index_of(cs[3]) < 220);
}

/// Marking four cells inside the playfield with a state that is not occupied
/// sets some of their slots and leaves the occupied slots as they are.
proof fn lemma_mark_at(cells: Seq<SlotState>, cs: [IVec2; 4], st: SlotState)
    requires
        cells.len() == 220,
        within(cs),
        !(st is Occupied),
    ensures
        mark_all(cells, cs, st).len() == 220,
        forall|i: int|
            0 <= i < 220 ==> {
                &&& (#[trigger] mark_all(cells, cs, st)[i] is Occupied) == (cells[i] is Occupied)
                &&& (cells[i] is Occupied || !covers(cs, i)) ==> mark_all(cells, cs, st)[i] == cells[i]
                &&& (covers(cs, i) && !(cells[i] is Occupied)) ==> mark_all(cells, cs, st)[i] == st
            },
{
    assert(0 <= index_of(cs[0]) < 220);
    assert(0 <= index_of(cs[1]) < 220);
    assert(0 <= index_of(cs[2]) < 220);
    assert(0 <= index_of(cs[3]) < 220);
}

impl PlayfieldView {
    /// The slots agree with the pieces: there is a ghost piece exactly when
    /// there is an active piece; the active piece's four slots are occupied by
    /// its type and no other slot is occupied (none is, with no active piece);
    /// and the ghost lies on no locked slot.
    pub open spec fn consistent(self) -> bool {
        &&& (self.ghost_piece is Some) == (self.active is Some)
        &&& match self.active {
            None => none_occupied(self.cells),
            Some(a) => holds(self.cells, a.cells(), SlotState::Occupied(a.rtype))
                && occupied_within(self.cells, a.cells()),
        }
        &&& (self.ghost_piece matches Some(g) ==> !collides(self.cells, g.cells()))
    }

    /// Bringing the ghost up to date keeps the slots in agreement with the
    /// pieces, where the active piece's slots are occupied by it alone.
    pub proof fn lemma_refresh_consistent(self, translating: bool)
        requires
            self.wf(),
            self.active is Some,
            self.ghost_piece is Some,
            holds(self.cells, self.active.unwrap().cells(), SlotState::Occupied(self.active.unwrap().rtype)),
            occupied_within(self.cells, self.active.unwrap().cells()),
        ensures
            self.refresh_ghost(translating).consistent(),
    {
        let a = self.active.unwrap();
        let g = self.ghost_piece.unwrap();
        let d = drop_distance(self.cells, a.cells());
        lemma_drop_exists(self.cells, a.cells());
        lemma_drop_within(self.cells, a.cells(), d);
        let cleared = if translating {
            mark_all(self.cells, g.cells(), SlotState::Empty)
        } else {
            self.cells
        };
        if translating {
            lemma_mark_at(self.cells, g.cells(), SlotState::Empty);
            lemma_paint_keeps_locks(self.cells, g.cells(), SlotState::Empty);
        }
        assert(locks_kept_from(cleared, self.cells));
        let g2 = Rustomino { blocks: a.blocks, translation: a.translation.plus(down(d)), ..g };
        lemma_shift_twice(a.blocks, a.translation, down(d));
        assert(g2.cells() == shift(a.cells(), down(d)));
        let q = self.refresh_ghost(translating);
        let st = SlotState::GhostBlock(g.rtype);
        assert(q.cells == mark_all(cleared, g2.cells(), st));
        lemma_mark_at(cleared, g2.cells(), st);
        lemma_paint_keeps_locks(cleared, g2.cells(), st);
        lemma_locks_kept_trans(q.cells, cleared, self.cells);
        // the active piece's slots stay occupied and no other slot becomes so
        assert(holds(q.cells, a.cells(), SlotState::Occupied(a.rtype))) by {
            assert(0 <= index_of(a.cells()[0]) < 220);
            assert(0 <= index_of(a.cells()[1]) < 220);
            assert(0 <= index_of(a.cells()[2]) < 220);
            assert(0 <= index_of(a.cells()[3]) < 220);
        }
        assert forall|i: int| 0 <= i < q.cells.len() && (#[trigger] q.cells[i] is Occupied) implies covers(
            a.cells(),
            i,
        ) by {
            assert(cleared[i] is Occupied);
            assert(self.cells[i] is Occupied);
        }
        // the new ghost lies where the active piece can drop, on no locked slot
        if d == 0 {
            lemma_shift_zero(a.cells());
            assert(down(0) == iv(0, 0));
            assert(g2.cells() == a.cells());
        } else {
            assert(fits_lower(self.cells, a.cells(), d));
        }
        assert(!collides(self.cells, g2.cells()));
        assert forall|c: IVec2| in_bounds(c) && #[trigger] blocked(q.cells, c) implies blocked(self.cells, c) by {
            assert(0 <= index_of(c) < 220);
        }
        assert(!collides(q.cells, g2.cells()));
    }

    /// Placing a piece on a playfield with no active piece keeps the slots in
    /// agreement with the pieces.
    pub proof fn lemma_placed_consistent(self, r: Rustomino)
        requires
            self.wf(),
            self.consistent(),
            self.active is None,
            within(r.cells()),
        ensures
            self.placed(r).consistent(),
    {
        let v = PlayfieldView {
            cells: paint(self.cells, r.cells(), SlotState::Occupied(r.rtype)),
            active: Some(r),
            ghost_piece: Some(r),
        };
        lemma_paint_at(self.cells, r.cells(), SlotState::Occupied(r.rtype));
        assert(holds(v.cells, r.cells(), SlotState::Occupied(r.rtype))) by {
            assert(covers(r.cells(), index_of(r.cells()[0])));
            assert(covers(r.cells(), index_of(r.cells()[1])));
            assert(covers(r.cells(), index_of(r.cells()[2])));
            assert(covers(r.cells(), index_of(r.cells()[3])));
            assert(0 <= index_of(r.cells()[0]) < 220);
            assert(0 <= index_of(r.cells()[1]) < 220);
            assert(0 <= index_of(r.cells()[2]) < 220);
            assert(0 <= index_of(r.cells()[3]) < 220);
        }
        assert(occupied_within(v.cells, r.cells())) by {
            assert forall|i: int| 0 <= i < v.cells.len() && (#[trigger] v.cells[i] is Occupied) implies covers(
                r.cells(),
                i,
            ) by {
                if !covers(r.cells(), i) {
                    assert(v.cells[i] == self.cells[i]);
                }
            }
        }
        v.lemma_refresh_consistent(false);
    }

    /// Replacing the active piece `a` by `a2` of the same type, and bringing
    /// the ghost up to date, keeps the slots in agreement with the pieces.
    pub proof fn lemma_relocated_consistent(self, a2: Rustomino)
        requires
            self.wf(),
            self.consistent(),
            self.active is Some,
            within(a2.cells()),
            a2.rtype == self.active.unwrap().rtype,
        ensures
            holds(
                self.relocated(self.active.unwrap(), a2).cells,
                a2.cells(),
                SlotState::Occupied(a2.rtype),
            ),
            occupied_within(self.relocated(self.active.unwrap(), a2).cells, a2.cells()),
            self.relocated(self.active.unwrap(), a2).refresh_ghost(true).consistent(),
    {
        let a = self.active.unwrap();
        let c1 = paint(self.cells, a.cells(), SlotState::Empty);
        lemma_paint_at(self.cells, a.cells(), SlotState::Empty);
        lemma_paint_at(c1, a2.cells(), SlotState::Occupied(a.rtype));
        let v = self.relocated(a, a2);
        self.lemma_relocated_keeps_locks(a2);
        assert(holds(v.cells, a2.cells(), SlotState::Occupied(a2.rtype))) by {
            assert(covers(a2.cells(), index_of(a2.cells()[0])));
            assert(covers(a2.cells(), index_of(a2.cells()[1])));
            assert(covers(a2.cells(), index_of(a2.cells()[2])));
            assert(covers(a2.cells(), index_of(a2.cells()[3])));
            assert(0 <= index_of(a2.cells()[0]) < 220);
            assert(0 <= index_of(a2.cells()[1]) < 220);
            assert(0 <= index_of(a2.cells()[2]) < 220);
            assert(0 <= index_of(a2.cells()[3]) < 220);
        }
        assert forall|i: int| 0 <= i < v.cells.len() && (#[trigger] v.cells[i] is Occupied) implies covers(
            a2.cells(),
            i,
        ) by {
            if !covers(a2.cells(), i) {
                assert(v.cells[i] == c1[i]);
                if !covers(a.cells(), i) {
                    assert(c1[i] == self.cells[i]);
                }
            }
        }
        v.lemma_refresh_consistent(true);
    }

    /// Where the slots agree with the pieces, neither the active piece nor the
    /// ghost lies on a locked slot.
    pub proof fn lemma_consistent_clear_of_locks(self)
        requires
            self.wf(),
            self.consistent(),
        ensures
            (self.active matches Some(a) ==> !collides(self.cells, a.cells())),
            (self.ghost_piece matches Some(g) ==> !collides(self.cells, g.cells())),
    {
    }

    /// What a turn keeps, for `rotate_active`: a turn that fits keeps the
    /// slots in agreement with the pieces and keeps every locked block, and a
    /// playfield holds the same locked blocks as itself.
    proof fn lemma_turn_facts(self, rotation: Rotation)
        requires
            self.wf(),
        ensures
            self.consistent() && self.kick(rotation) is Some ==> self.turned(rotation).consistent()
                && same_locked_blocks(self.turned(rotation).cells, self.cells),
            same_locked_blocks(self.cells, self.cells),
    {
        if self.consistent() && self.kick(rotation) is Some {
            self.lemma_turned_consistent(rotation);
            self.lemma_consistent_clear_of_locks();
            self.lemma_turn_keeps_locked_blocks(rotation);
        }
    }

    /// A turn that fits keeps the slots in agreement with the pieces.
    pub proof fn lemma_turned_consistent(self, rotation: Rotation)
        requires
            self.wf(),
            self.consistent(),
            self.kick(rotation) is Some,
        ensures
            self.turned(rotation).consistent(),
    {
        let a = self.active.unwrap();
        let k = self.kick(rotation).unwrap();
        lemma_first_fit_fits(self.cells, a.turned_cells(rotation), a.kicks(rotation), 0);
        lemma_turned_cells(a, rotation, k);
        self.lemma_relocated_consistent(a.turned(rotation, k));
    }

    /// A move that fits keeps the slots in agreement with the pieces.
    pub proof fn lemma_shifted_consistent(self, d: IVec2)
        requires
            self.wf(),
            self.consistent(),
            self.can_move(d),
        ensures
            self.shifted(d).consistent(),
    {
        let a = self.active.unwrap();
        lemma_moved_cells(a, d);
        self.lemma_relocated_consistent(a.moved(d));
    }

    /// Clearing complete rows, with no active piece, keeps the slots in
    /// agreement with the pieces.
    pub proof fn lemma_cleared_consistent(self)
        requires
            self.wf(),
            self.consistent(),
            self.active is None,
        ensures
            (PlayfieldView { cells: cleared_cells(self.cells), ..self }).refresh_ghost(false).consistent(),
    {
        lemma_cleared_none_occupied(self.cells);
    }

    /// Taking the active piece off keeps the slots in agreement with the pieces.
    pub proof fn lemma_taken_consistent(self)
        requires
            self.wf(),
            self.consistent(),
        ensures
            self.taken().consistent(),
    {
        if let Some(a) = self.active {
            let g = self.ghost_piece.unwrap();
            let c1 = paint(self.cells, a.cells(), SlotState::Empty);
            lemma_paint_at(self.cells, a.cells(), SlotState::Empty);
            lemma_paint_at(c1, g.cells(), SlotState::Empty);
            let q = self.taken();
            assert forall|i: int| 0 <= i < q.cells.len() implies !(#[trigger] q.cells[i] is Occupied) by {
                if !covers(g.cells(), i) {
                    assert(q.cells[i] == c1[i]);
                    if !covers(a.cells(), i) {
                        assert(c1[i] == self.cells[i]);
                    }
                }
            }
        }
    }

    /// Locking the active piece keeps the slots in agreement with the pieces.
    pub proof fn lemma_locked_consistent(self)
        requires
            self.wf(),
            self.consistent(),
        ensures
            self.locked().consistent(),
    {
        if let Some(a) = self.active {
            lemma_paint_at(self.cells, a.cells(), SlotState::Locked(a.rtype));
            let q = self.locked();
            assert forall|i: int| 0 <= i < q.cells.len() implies !(#[trigger] q.cells[i] is Occupied) by {
                if !covers(a.cells(), i) {
                    assert(q.cells[i] == self.cells[i]);
                }
            }
        }
    }

    /// A hard drop followed by the lock keeps the slots in agreement with the
    /// pieces.
    pub proof fn lemma_dropped_locked_consistent(self)
        requires
            self.wf(),
            self.consistent(),
        ensures
            self.dropped().locked().consistent(),
    {
        if let Some(a) = self.active {
            self.lemma_dropped_keeps_locks();
            let p = self.dropped();
            let a2 = p.active.unwrap();
            lemma_paint_at(self.cells, a.cells(), SlotState::Empty);
            lemma_paint_at(p.cells, a2.cells(), SlotState::Locked(a.rtype));
            let q = p.locked();
            assert forall|i: int| 0 <= i < q.cells.len() implies !(#[trigger] q.cells[i] is Occupied) by {
                if !covers(a2.cells(), i) {
                    assert(q.cells[i] == p.cells[i]);
                    if !covers(a.cells(), i) {
                        assert(p.cells[i] == self.cells[i]);
                    }
                }
            }
        }
    }

    /// A change of the active piece's state keeps the slots in agreement with
    /// the pieces.
    pub proof fn lemma_with_state_consistent(self, s: RustominoState)
        requires
            self.consistent(),
        ensures
            self.with_state(s).consistent(),
    {
        if let Some(a) = self.active {
            let a2 = Rustomino { state: s, ..a };
            assert(a2.cells() == a.cells());
        }
    }

    /// Moving the active piece one row down, when it fits, keeps the slots in
    /// agreement with the pieces.
    pub proof fn lemma_fallen_consistent(self)
        requires
            self.wf(),
            self.consistent(),
            self.can_fall(),
        ensures
            self.fallen().consistent(),
    {
        let a = self.active.unwrap();
        let a2 = a.moved(down(1));
        lemma_moved_cells(a, down(1));
        self.lemma_relocated_consistent(a2);
        self.lemma_relocated_keeps_locks(a2);
        let v = self.fallen();
        let g = self.ghost_piece.unwrap();
        assert forall|c: IVec2| in_bounds(c) && #[trigger] blocked(v.cells, c) implies blocked(self.cells, c) by {
            assert(0 <= index_of(c) < 220);
        }
        assert(!collides(v.cells, g.cells()));
    }
}

/// Clearing complete rows from a playfield with no occupied slot leaves none.
pub proof fn lemma_cleared_none_occupied(cells: Seq<SlotState>)
    requires
        cells.len() == 220,
        none_occupied(cells),
    ensures
        none_occupied(cleared_cells(cells)),
{
    let rows = kept_rows(22, complete_rows(cells));
    lemma_kept_rows(22, complete_rows(cells));
    let c = cleared_cells(cells);
    assert forall|i: int| 0 <= i < c.len() implies !(#[trigger] c[i] is Occupied) by {
        if i / 10 < rows.len() {
            let r = rows[i / 10];
            assert(0 <= r < 22);
            assert(0 <= r * 10 + i % 10 < 220);
            assert(!(cells[r * 10 + i % 10] is Occupied));
        }
    }
}

/// Between rows `a` and `b`, the count of complete rows below grows by at
/// most the number of rows, and by less where row `a` is not complete.
proof fn lemma_below_growth(cells: Seq<SlotState>, a: int, b: int)
    requires
        0 <= a <= b,
    ensures
        complete_rows_below(cells, a).len() <= complete_rows_below(cells, b).len(),
        complete_rows_below(cells, b).len() <= complete_rows_below(cells, a).len() + (b - a),
        a < b && !row_complete(cells, a) ==> complete_rows_below(cells, b).len()
            <= complete_rows_below(cells, a).len() + (b - a) - 1,
    decreases b - a,
{
    if a < b {
        lemma_below_growth(cells, a, b - 1);
    }
}

/// The rows kept below `n` are the rows below `n` that are not complete, in
/// order: the one `y` stands at place `y` less the number of complete rows
/// below it.
proof fn lemma_kept_row_places(cells: Seq<SlotState>, n: int)
    requires
        0 <= n <= 22,
    ensures
        kept_rows(n, complete_rows(cells)).len() == n - complete_rows_below(cells, n).len(),
        forall|y: int|
            0 <= y < n && !row_complete(cells, y) ==> kept_rows(n, complete_rows(cells))[y
                - #[trigger] complete_rows_below(cells, y).len()] == y,
    decreases n,
{
    lemma_complete_rows_below(cells, 22);
    if n > 0 {
        lemma_kept_row_places(cells, n - 1);
        lemma_complete_rows_below(cells, n - 1);
        let k = kept_rows(n, complete_rows(cells));
        let k1 = kept_rows(n - 1, complete_rows(cells));
        assert(complete_rows(cells).contains(n - 1) == row_complete(cells, n - 1));
        assert forall|y: int|
            0 <= y < n && !row_complete(cells, y) implies k[y - #[trigger] complete_rows_below(
                cells,
                y,
            ).len()] == y by {
            if y < n - 1 {
                lemma_complete_rows_below(cells, y);
                lemma_below_growth(cells, y, n - 1);
                assert(k[y - complete_rows_below(cells, y).len()] == k1[y - complete_rows_below(
                    cells,
                    y,
                ).len()]);
            }
        }
    }
}

/// The slot in column `x` and row `y`.
pub open spec fn slot_at(cells: Seq<SlotState>, x: int, y: int) -> SlotState {
    cells[y * 10 + x]
}

/// Clearing moves every row that is not complete down by the number of
/// complete rows below it, keeping its slots, and empties the rows at the
/// top, one for each complete row.
pub proof fn lemma_clearing_moves_rows_down(cells: Seq<SlotState>)
    requires
        cells.len() == 220,
    ensures
        forall|x: int, y: int|
            #![trigger slot_at(cells, x, y)]
            0 <= x < 10 && 0 <= y < 22 && !row_complete(cells, y) ==> slot_at(
                cleared_cells(cells),
                x,
                y - complete_rows_below(cells, y).len(),
            ) == slot_at(cells, x, y),
        forall|i: int|
            (22 - complete_rows(cells).len()) * 10 <= i < 220 ==> #[trigger] cleared_cells(cells)[i]
                == SlotState::Empty,
{
    lemma_kept_row_places(cells, 22);
    lemma_complete_rows_below(cells, 22);
    let rows = kept_rows(22, complete_rows(cells));
    assert forall|x: int, y: int|
        #![trigger slot_at(cells, x, y)]
        0 <= x < 10 && 0 <= y < 22 && !row_complete(cells, y) implies slot_at(
            cleared_cells(cells),
            x,
            y - complete_rows_below(cells, y).len(),
        ) == slot_at(cells, x, y) by {
        lemma_complete_rows_below(cells, y);
        let p = y - complete_rows_below(cells, y).len();
        lemma_below_growth(cells, y, 22);
        assert(0 <= p < rows.len());
        assert(rows[p] == y);
        let i = p * 10 + x;
        assert(i / 10 == p && i % 10 == x) by (nonlinear_arith)
            requires
                i == p * 10 + x,
                0 <= x < 10,
                0 <= p,
        ;
        assert(0 <= i < 220) by (nonlinear_arith)
            requires
                i == p * 10 + x,
                0 <= x < 10,
                0 <= p < 22,
        ;
    }
    assert forall|i: int|
        (22 - complete_rows(cells).len()) * 10 <= i < 220 implies #[trigger] cleared_cells(cells)[i]
        == SlotState::Empty by {
        assert(i / 10 >= rows.len()) by (nonlinear_arith)
            requires
                (22 - complete_rows(cells).len()) * 10 <= i,
                rows.len() == 22 - complete_rows(cells).len(),
        ;
    }
}

/// The three directions in which the player can move a piece.
#[derive(Debug, Clone, Copy, PartialEq, Eq, Structural)]
pub enum TranslationDirection {
    Left,
    Right,
    Down,
}

impl TranslationDirection {
    /// The vector of a one-slot move.
    pub open spec fn delta(self) -> IVec2 {
        match self {
            TranslationDirection::Left => iv(-1i32, 0),
            TranslationDirection::Right => iv(1, 0),
            TranslationDirection::Down => iv(0, -1i32),
        }
    }

    /// The vector of a one-slot move in this direction.
    pub fn get_translation(&self) -> (r: IVec2)
        ensures
            r == self.delta(),
    {
        match self {
            TranslationDirection::Left => ivec2(-1, 0),
            TranslationDirection::Right => ivec2(1, 0),
            TranslationDirection::Down => ivec2(0, -1),
        }
    }
}

/// The abstract playfield: its 220 slots (row by row from the bottom), the
/// active piece and the ghost piece.
pub struct PlayfieldView {
    pub cells: Seq<SlotState>,
    pub active: Option<Rustomino>,
    pub ghost_piece: Option<Rustomino>,
}

impl PlayfieldView {
    /// 220 slots, and the active and ghost pieces lie inside the playfield.
    pub open spec fn wf(self) -> bool {
        &&& self.cells.len() == 220
        &&& (self.active matches Some(a) ==> within(a.cells()))
        &&& (self.ghost_piece matches Some(g) ==> within(g.cells()))
    }

    /// The ghost piece brought up to date with the active piece: it takes the
    /// active piece's blocks dropped as far as they go, and marks its slots
    /// except those the active piece occupies. When `translating`, the slots of
    /// the previous ghost are first cleared the same way; with no active piece
    /// the ghost goes, its slots cleared unless `translating`.
    pub open spec fn refresh_ghost(self, translating: bool) -> PlayfieldView {
        match self.active {
            None => PlayfieldView {
                cells: match self.ghost_piece {
                    Some(g) => if translating {
                        self.cells
                    } else {
                        paint(self.cells, g.cells(), SlotState::Empty)
                    },
                    None => self.cells,
                },
                active: None,
                ghost_piece: None,
            },
            Some(a) => match self.ghost_piece {
                None => self,
                Some(g) => {
                    let d = drop_distance(self.cells, a.cells());
                    let cleared = if translating {
                        mark_all(self.cells, g.cells(), SlotState::Empty)
                    } else {
                        self.cells
                    };
                    let g2 = Rustomino { blocks: a.blocks, translation: a.translation.plus(down(d)), ..g };
                    PlayfieldView {
                        cells: mark_all(cleared, g2.cells(), SlotState::GhostBlock(g.rtype)),
                        active: Some(a),
                        ghost_piece: Some(g2),
                    }
                },
            },
        }
    }

    /// `r` placed as the active piece: its slots occupied, the ghost a copy of
    /// it brought up to date.
    pub open spec fn placed(self, r: Rustomino) -> PlayfieldView {
        PlayfieldView {
            cells: paint(self.cells, r.cells(), SlotState::Occupied(r.rtype)),
            active: Some(r),
            ghost_piece: Some(r),
        }.refresh_ghost(false)
    }

    /// The active piece taken off: its slots emptied, the ghost removed.
    pub open spec fn taken(self) -> PlayfieldView {
        match self.active {
            None => self,
            Some(a) => PlayfieldView {
                cells: paint(self.cells, a.cells(), SlotState::Empty),
                active: None,
                ghost_piece: self.ghost_piece,
            }.refresh_ghost(false),
        }
    }

    /// The active piece can move one row down.
    pub open spec fn can_fall(self) -> bool {
        match self.active {
            None => false,
            Some(a) => !collides(self.cells, shift(a.cells(), down(1))),
        }
    }

    /// The active piece's state replaced.
    pub open spec fn with_state(self, s: RustominoState) -> PlayfieldView {
        match self.active {
            None => self,
            Some(a) => PlayfieldView { active: Some(Rustomino { state: s, ..a }), ..self },
        }
    }

    /// The active piece `a` replaced by `a2`: the slots of `a` emptied, those of
    /// `a2` occupied.
    pub open spec fn relocated(self, a: Rustomino, a2: Rustomino) -> PlayfieldView {
        PlayfieldView {
            cells: paint(
                paint(self.cells, a.cells(), SlotState::Empty),
                a2.cells(),
                SlotState::Occupied(a.rtype),
            ),
            active: Some(a2),
            ghost_piece: self.ghost_piece,
        }
    }

    /// The kick that lets the active piece turn, if one does.
    pub open spec fn kick(self, rotation: Rotation) -> Option<IVec2> {
        match self.active {
            None => None,
            Some(a) => first_fit(self.cells, a.turned_cells(rotation), a.kicks(rotation), 0),
        }
    }

    /// The active piece turned with its kick, the ghost brought up to date.
    pub open spec fn turned(self, rotation: Rotation) -> PlayfieldView {
        let a = self.active.unwrap();
        self.relocated(a, a.turned(rotation, self.kick(rotation).unwrap())).refresh_ghost(true)
    }

    /// The active piece can move by `d`.
    pub open spec fn can_move(self, d: IVec2) -> bool {
        match self.active {
            None => false,
            Some(a) => !collides(self.cells, shift(a.cells(), d)),
        }
    }

    /// The active piece moved by `d`, the ghost brought up to date.
    pub open spec fn shifted(self, d: IVec2) -> PlayfieldView {
        let a = self.active.unwrap();
        self.relocated(a, a.moved(d)).refresh_ghost(true)
    }

    /// The active piece dropped as far as it goes, its old slots emptied and
    /// its new ones not yet marked.
    pub open spec fn dropped(self) -> PlayfieldView {
        match self.active {
            None => self,
            Some(a) => PlayfieldView {
                cells: paint(self.cells, a.cells(), SlotState::Empty),
                active: Some(a.moved(down(drop_distance(self.cells, a.cells())))),
                ghost_piece: self.ghost_piece,
            },
        }
    }

    /// The active piece locked in place: its slots locked, no active or ghost piece.
    pub open spec fn locked(self) -> PlayfieldView {
        match self.active {
            None => self,
            Some(a) => PlayfieldView {
                cells: paint(self.cells, a.cells(), SlotState::Locked(a.rtype)),
                active: None,
                ghost_piece: None,
            },
        }
    }

    /// The active piece moved one row down; the ghost is left as it is.
    pub open spec fn fallen(self) -> PlayfieldView {
        match self.active {
            None => self,
            Some(a) => self.relocated(a, a.moved(down(1))),
        }
    }
}

/// Where slot `c` is kept.
fn slot_index(c: IVec2) -> (i: usize)
    requires
        in_bounds(c),
    ensures
        i == index_of(c),
{
    (c.y as usize) * 10 + (c.x as usize)
}

/// check to see if the provided block locations collide with other locked blocks
/// or with walls
fn check_collision(playfield_slots: &Vec<SlotState>, block_locations: [IVec2; 4]) -> (r: bool)
    requires
        playfield_slots@.len() == 220,
    ensures
        r == collides(playfield_slots@, block_locations),
{
    let mut i: usize = 0;
    while i < 4
        invariant
            i <= 4,
            playfield_slots@.len() == 220,
            forall|j: int| 0 <= j < i ==> !#[trigger] blocked(playfield_slots@, block_locations[j]),
        decreases 4 - i,
    {
        let location = block_locations[i];
        // check for left and right wall collisions
        if location.x < 0 || location.x >= 10 {
            return true;
        }
        if location.y >= 22 {
            return true;
        }
        // check for bottom wall collision
        if location.y < 0 {
            return true;
        }
        // slots[y][x] compare variant ignoring value
        if variants_equal(&playfield_slots[slot_index(location)], &SlotState::Locked(RustominoType::I)) {
            return true;
        }
        i = i + 1;
    }
    assert(!blocked(playfield_slots@, block_locations[0]));
    assert(!blocked(playfield_slots@, block_locations[1]));
    assert(!blocked(playfield_slots@, block_locations[2]));
    assert(!blocked(playfield_slots@, block_locations[3]));
    false
}

fn set_playfield_slot_states(
    playfield_slots: &mut Vec<SlotState>,
    block_slots: &[IVec2; 4],
    new_state: SlotState,
)
    requires
        old(playfield_slots)@.len() == 220,
        within(*block_slots),
    ensures
        final(playfield_slots)@ == paint(old(playfield_slots)@, *block_slots, new_state),
{
    playfield_slots.set(slot_index(block_slots[0]), new_state);
    playfield_slots.set(slot_index(block_slots[1]), new_state);
    playfield_slots.set(slot_index(block_slots[2]), new_state);
    playfield_slots.set(slot_index(block_slots[3]), new_state);
}

/// Sets slot `c` to `new_state` unless the active piece occupies it.
fn mark_slot(playfield_slots: &mut Vec<SlotState>, c: IVec2, new_state: SlotState)
    requires
        old(playfield_slots)@.len() == 220,
        in_bounds(c),
    ensures
        final(playfield_slots)@ == mark(old(playfield_slots)@, c, new_state),
{
    let i = slot_index(c);
    if !variants_equal(&playfield_slots[i], &SlotState::Occupied(RustominoType::I)) {
        playfield_slots.set(i, new_state);
    }
}

fn get_hard_drop_translation(playfield_slots: &Vec<SlotState>, rustomino: &Rustomino) -> (r: IVec2)
    requires
        playfield_slots@.len() == 220,
        within(rustomino.cells()),
    ensures
        is_drop(playfield_slots@, rustomino.cells(), drop_distance(playfield_slots@, rustomino.cells())),
        0 <= drop_distance(playfield_slots@, rustomino.cells()) <= 21,
        r == down(drop_distance(playfield_slots@, rustomino.cells())),
{
    let ghost cells = playfield_slots@;
    let ghost cs = rustomino.cells();
    let mut translation = ivec2(0, -1);

    // if we can't move it down without colliding the delta is 0
    if check_collision(playfield_slots, rustomino.translated(&translation)) {
        proof {
            assert(is_drop(cells, cs, 0));
            lemma_drop_unique(cells, cs, 0);
        }
        return IVec2::zero();
    }
    let ghost mut k: int = 1;
    // keep attempting to move the rustomino down until it collides and return
    // the last non-colliding translation
    loop
        invariant
            playfield_slots@ == cells,
            cs == rustomino.cells(),
            cells.len() == 220,
            within(cs),
            1 <= k <= 21,
            translation == down(k),
            forall|j: int| 1 <= j <= k ==> #[trigger] fits_lower(cells, cs, j),
        decreases 21 - k,
    {
        let good_translation = translation;
        translation = translation.plus(ivec2(0, -1));
        proof {
            assert(fits_lower(cells, cs, k));
            assert(in_bounds(shift(cs, down(k))[0]));
            k = k + 1;
        }
        if check_collision(playfield_slots, rustomino.translated(&translation)) {
            proof {
                assert(is_drop(cells, cs, k - 1));
                lemma_drop_unique(cells, cs, k - 1);
            }
            return good_translation;
        }
        proof {
            assert(fits_lower(cells, cs, k));
            assert(in_bounds(shift(cs, down(k))[0]));
        }
    }
}

fn check_rotation(playfield_slots: &Vec<SlotState>, rustomino: &Rustomino, rotation: &Rotation) -> (r:
    Option<IVec2>)
    requires
        playfield_slots@.len() == 220,
    ensures
        r == first_fit(playfield_slots@, rustomino.turned_cells(*rotation), rustomino.kicks(*rotation), 0),
{
    let wall_kick_tests = rustomino.wall_kick_tests(rotation);
    let rotated_blocks = rustomino.rotated(rotation);
    let mut i: usize = 0;
    while i < 5
        invariant
            i <= 5,
            playfield_slots@.len() == 220,
            wall_kick_tests == rustomino.kicks(*rotation),
            rotated_blocks == rustomino.turned_cells(*rotation),
            first_fit(playfield_slots@, rotated_blocks, wall_kick_tests, 0) == first_fit(
                playfield_slots@,
                rotated_blocks,
                wall_kick_tests,
                i as int,
            ),
        decreases 5 - i,
    {
        if !check_collision(playfield_slots, translated(&rotated_blocks, &wall_kick_tests[i])) {
            assert(first_fit(playfield_slots@, rotated_blocks, wall_kick_tests, i as int) == Some(
                wall_kick_tests[i as int],
            ));
            return Some(wall_kick_tests[i]);
        }
        i = i + 1;
    }
    assert(first_fit(playfield_slots@, rotated_blocks, wall_kick_tests, 5) is None);
    None
}

fn translate_rustomino(
    playfield_slots: &mut Vec<SlotState>,
    new_state: SlotState,
    rustomino: &mut Rustomino,
    translation: IVec2,
)
    requires
        old(playfield_slots)@.len() == 220,
        within(old(rustomino).cells()),
        within(shift(old(rustomino).cells(), translation)),
    ensures
        *final(rustomino) == old(rustomino).moved(translation),
        final(playfield_slots)@ == paint(
            paint(old(playfield_slots)@, old(rustomino).cells(), SlotState::Empty),
            old(rustomino).moved(translation).cells(),
            new_state,
        ),
{
    proof {
        lemma_moved_cells(*rustomino, translation);
    }
    // clear the current slot states
    set_playfield_slot_states(playfield_slots, &rustomino.playfield_slots(), SlotState::Empty);
    // perform the translation
    rustomino.translate(translation);
    // set the new slot states to occupied
    set_playfield_slot_states(playfield_slots, &rustomino.playfield_slots(), new_state);
}

/// The playfield's slots and pieces.
pub struct Playfield {
    slots: Vec<SlotState>,
    active_rustomino: Option<Rustomino>,
    ghost_rustomino: Option<Rustomino>,
}

impl View for Playfield {
    type V = PlayfieldView;

    closed spec fn view(&self) -> PlayfieldView {
        PlayfieldView {
            cells: self.slots@,
            active: self.active_rustomino,
            ghost_piece: self.ghost_rustomino,
        }
    }
}

impl Playfield {
    /// The slots number 220 and both pieces lie inside the playfield.
    pub open spec fn wf(&self) -> bool {
        self@.wf()
    }

    /// An empty playfield with no pieces.
    pub fn new() -> (r: Self)
        ensures
            r.wf(),
            r@.cells == Seq::new(220, |i: int| SlotState::Empty),
            r@.active is None,
            r@.ghost_piece is None,
            r@.consistent(),
    {
        let mut slots: Vec<SlotState> = Vec::new();
        let mut i: usize = 0;
        while i < 220
            invariant
                i <= 220,
                slots@ == Seq::new(i as nat, |j: int| SlotState::Empty),
            decreases 220 - i,
        {
            slots.push(SlotState::Empty);
            i = i + 1;
            assert(slots@ =~= Seq::new(i as nat, |j: int| SlotState::Empty));
        }
        Playfield { slots, active_rustomino: None, ghost_rustomino: None }
    }

    /// The state of the slot in column `x` and row `y` (row 0 at the bottom).
    pub fn slot(&self, x: usize, y: usize) -> (r: SlotState)
        requires
            self.wf(),
            x < 10,
            y < 22,
        ensures
            r == self@.cells[y * 10 + x],
    {
        self.slots[y * 10 + x]
    }

    /// The active piece.
    pub fn active_rustomino(&self) -> (r: Option<Rustomino>)
        ensures
            r == self@.active,
    {
        self.active_rustomino
    }

    /// The ghost piece.
    pub fn ghost_rustomino(&self) -> (r: Option<Rustomino>)
        ensures
            r == self@.ghost_piece,
    {
        self.ghost_rustomino
    }

    /// Adds a new rustomino to the playfield
    /// returns false if there was a collision
    /// while adding the block (game over)
    pub fn set_active(&mut self, rustomino: Rustomino) -> (ok: bool)
        requires
            old(self).wf(),
            within(rustomino.cells()),
        ensures
            final(self).wf(),
            ok == !collides(old(self)@.cells, rustomino.cells()),
            final(self)@ == old(self)@.placed(rustomino),
            old(self)@.consistent() && old(self)@.active is None ==> final(self)@.consistent(),
    {
        proof {
            if self@.consistent() && self@.active is None {
                self@.lemma_placed_consistent(rustomino);
            }
        }
        let ok = !check_collision(&self.slots, rustomino.playfield_slots());
        set_playfield_slot_states(
            &mut self.slots,
            &rustomino.playfield_slots(),
            SlotState::Occupied(rustomino.rtype),
        );
        self.ghost_rustomino = Some(rustomino);
        self.active_rustomino = Some(rustomino);
        self.update_ghost_rustomino(false);
        ok
    }

    /// Takes the active piece off the playfield and hands back a fresh piece of
    /// its type.
    pub fn take_active(&mut self) -> (r: Option<Rustomino>)
        requires
            old(self).wf(),
        ensures
            final(self).wf(),
            final(self)@ == old(self)@.taken(),
            match old(self)@.active {
                None => r is None,
                Some(a) => r == Some(Rustomino::spec_new(a.rtype)),
            },
            old(self)@.consistent() ==> final(self)@.consistent(),
    {
        proof {
            if self@.consistent() {
                self@.lemma_taken_consistent();
            }
        }
        let active_rustomino = match self.active_rustomino {
            Some(a) => a,
            None => {
                return None;
            },
        };
        self.active_rustomino = None;
        set_playfield_slot_states(
            &mut self.slots,
            &active_rustomino.playfield_slots(),
            SlotState::Empty,
        );
        self.update_ghost_rustomino(false);
        Some(active_rustomino.reset())
    }

    /// checks to see if the playfield needs the next rustomino
    pub fn ready_for_next(&self) -> (r: bool)
        ensures
            r == self@.active is None,
    {
        self.active_rustomino.is_none()
    }

    /// Whether the active piece can move one row down.
    pub fn active_can_fall(&self) -> (r: bool)
        requires
            self.wf(),
        ensures
            r == self@.can_fall(),
    {
        // get the active rustomino
        let rustomino = match &self.active_rustomino {
            Some(r) => r,
            None => {
                return false;
            },
        };

        // check if moving would cause a collision
        if check_collision(&self.slots, rustomino.translated(&TranslationDirection::Down.get_translation())) {
            return false;
        }

        true
    }

    /// The state of the active piece.
    pub fn get_active_state(&self) -> (r: Option<RustominoState>)
        ensures
            r == match self@.active {
                None => None,
                Some(a) => Some(a.state),
            },
    {
        match &self.active_rustomino {
            Some(active_rustomino) => Some(active_rustomino.state),
            None => None,
        }
    }

    /// Replaces the state of the active piece, if there is one.
    pub fn set_active_state(&mut self, new_state: RustominoState)
        requires
            old(self).wf(),
        ensures
            final(self).wf(),
            final(self)@ == old(self)@.with_state(new_state),
            old(self)@.consistent() ==> final(self)@.consistent(),
    {
        proof {
            if self@.consistent() {
                self@.lemma_with_state_consistent(new_state);
            }
        }
        if let Some(mut active_rustomino) = self.active_rustomino {
            active_rustomino.set_state(new_state);
            self.active_rustomino = Some(active_rustomino);
        }
    }

    /// Attempt to rotate the active rustomino
    #[verifier::spinoff_prover]
    #[verifier::rlimit(60)]
    pub fn rotate_active(&mut self, rotation: Rotation) -> (r: bool)
        requires
            old(self).wf(),
        ensures
            final(self).wf(),
            r == old(self)@.kick(rotation) is Some,
            r ==> final(self)@ == old(self)@.turned(rotation),
            !r ==> final(self)@ == old(self)@,
            old(self)@.consistent() ==> final(self)@.consistent(),
            old(self)@.consistent() ==> same_locked_blocks(final(self)@.cells, old(self)@.cells),
    {
        proof {
            self@.lemma_turn_facts(rotation);
        }
        let mut active_rustomino = match self.active_rustomino {
            Some(a) => a,
            None => {
                return false;
            },
        };

        // check to see if the block can be rotated with or without a wall kick
        let wall_kick_trans = match check_rotation(&self.slots, &active_rustomino, &rotation) {
            Some(t) => t,
            None => {
                return false;
            },
        };
        proof {
            lemma_first_fit_fits(
                self.slots@,
                active_rustomino.turned_cells(rotation),
                active_rustomino.kicks(rotation),
                0,
            );
            lemma_turned_cells(active_rustomino, rotation, wall_kick_trans);
        }

        // clear the current slot states
        set_playfield_slot_states(
            &mut self.slots,
            &active_rustomino.playfield_slots(),
            SlotState::Empty,
        );

        // perform the translation
        active_rustomino.rotate(&rotation, &wall_kick_trans);

        // set the new slot states to occupied
        set_playfield_slot_states(
            &mut self.slots,
            &active_rustomino.playfield_slots(),
            SlotState::Occupied(active_rustomino.rtype),
        );
        self.active_rustomino = Some(active_rustomino);
        assert(self@ == old(self)@.relocated(
            old(self)@.active.unwrap(),
            old(self)@.active.unwrap().turned(rotation, wall_kick_trans),
        ));

        self.update_ghost_rustomino(true);

        true
    }

    /// Attempt to translate the active rustomino.
    /// Return true if possible
    pub fn translate_active(&mut self, direction: TranslationDirection) -> (r: bool)
        requires
            old(self).wf(),
        ensures
            final(self).wf(),
            r == old(self)@.can_move(direction.delta()),
            r ==> final(self)@ == old(self)@.shifted(direction.delta()),
            !r ==> final(self)@ == old(self)@,
            old(self)@.consistent() ==> final(self)@.consistent(),
    {
        proof {
            if self@.consistent() && self@.can_move(direction.delta()) {
                self@.lemma_shifted_consistent(direction.delta());
            }
        }
        let mut active_rustomino = match self.active_rustomino {
            Some(a) => a,
            None => {
                return false;
            },
        };

        // check to see if the translation would cause a collision with a locked block
        let translated_blocks = active_rustomino.translated(&direction.get_translation());
        if check_collision(&self.slots, translated_blocks) {
            return false;
        }

        translate_rustomino(
            &mut self.slots,
            SlotState::Occupied(active_rustomino.rtype),
            &mut active_rustomino,
            direction.get_translation(),
        );
        self.active_rustomino = Some(active_rustomino);
        proof {
            lemma_moved_cells(old(self)@.active.unwrap(), direction.delta());
        }

        self.update_ghost_rustomino(true);

        true
    }

    /// Drops the active piece as far as it goes, emptying the slots it leaves.
    pub fn hard_drop_active(&mut self)
        requires
            old(self).wf(),
        ensures
            final(self).wf(),
            final(self)@ == old(self)@.dropped(),
            old(self)@.consistent() ==> final(self)@.locked().consistent(),
    {
        proof {
            if self@.consistent() {
                self@.lemma_dropped_locked_consistent();
            }
        }
        let mut active_rustomino = match self.active_rustomino {
            Some(a) => a,
            None => {
                return;
            },
        };
        let delta = get_hard_drop_translation(&self.slots, &active_rustomino);
        proof {
            lemma_drop_within(
                self.slots@,
                active_rustomino.cells(),
                drop_distance(self.slots@, active_rustomino.cells()),
            );
            lemma_moved_cells(active_rustomino, delta);
        }
        set_playfield_slot_states(
            &mut self.slots,
            &active_rustomino.playfield_slots(),
            SlotState::Empty,
        );
        active_rustomino.translate(delta);
        self.active_rustomino = Some(active_rustomino);
    }

    /// lock the active rustomino
    pub fn lock_active(&mut self)
        requires
            old(self).wf(),
        ensures
            final(self).wf(),
            final(self)@ == old(self)@.locked(),
            old(self)@.consistent() ==> final(self)@.consistent(),
    {
        proof {
            if self@.consistent() {
                self@.lemma_locked_consistent();
            }
        }
        // get the active rustomino
        if let Some(active_rustomino) = self.active_rustomino {
            set_playfield_slot_states(
                &mut self.slots,
                &active_rustomino.playfield_slots(),
                SlotState::Locked(active_rustomino.rtype),
            );

            // prepare for the next rustomino
            self.active_rustomino = None;
            self.update_ghost_rustomino(true);
        }
    }

    /// apply gravity to the active rustomino
    pub fn apply_gravity(&mut self)
        requires
            old(self).wf(),
            old(self)@.active matches Some(a) ==> within(shift(a.cells(), down(1))),
        ensures
            final(self).wf(),
            final(self)@ == old(self)@.fallen(),
            old(self)@.consistent() && old(self)@.can_fall() ==> final(self)@.consistent(),
    {
        proof {
            if self@.consistent() && self@.can_fall() {
                self@.lemma_fallen_consistent();
            }
        }
        // apply the gravity translation rustomino
        if let Some(mut active_rustomino) = self.active_rustomino {
            proof {
                lemma_moved_cells(active_rustomino, down(1));
            }
            translate_rustomino(
                &mut self.slots,
                SlotState::Occupied(active_rustomino.rtype),
                &mut active_rustomino,
                TranslationDirection::Down.get_translation(),
            );
            self.active_rustomino = Some(active_rustomino);
        }
    }

    /// Removes the complete rows, moving the rows above them down, and returns
    /// the rows removed, bottom up.
    pub fn clear_completed_lines(&mut self) -> (r: Vec<usize>)
        requires
            old(self).wf(),
        ensures
            final(self).wf(),
            r@.map_values(|y: usize| y as int) == complete_rows(old(self)@.cells),
            complete_rows(old(self)@.cells).len() == 0 ==> final(self)@ == old(self)@,
            complete_rows(old(self)@.cells).len() > 0 ==> final(self)@ == (PlayfieldView {
                cells: cleared_cells(old(self)@.cells),
                ..old(self)@
            }).refresh_ghost(false),
            old(self)@.consistent() && old(self)@.active is None ==> final(self)@.consistent(),
    {
        proof {
            if self@.consistent() && self@.active is None {
                self@.lemma_cleared_consistent();
            }
        }
        let completed_lines = self.get_complete_lines();
        let num_completed_lines = completed_lines.len();
        if num_completed_lines == 0 {
            return completed_lines;
        }
        let ghost c0 = self.slots@;
        let ghost lines = complete_rows(c0);
        proof {
            lemma_complete_rows_below(c0, 22);
            assert forall|k: int| 0 <= k < num_completed_lines implies completed_lines@[k] as int
                == lines[k] by {
                assert(completed_lines@.map_values(|y: usize| y as int)[k] == lines[k]);
            }
        }

        // clear the completed lines
        let mut k: usize = 0;
        while k < num_completed_lines
            invariant
                k <= num_completed_lines == completed_lines@.len() == lines.len(),
                forall|a: int| 0 <= a < lines.len() ==> completed_lines@[a] as int == lines[a],
                forall|a: int| 0 <= a < lines.len() ==> 0 <= #[trigger] lines[a] < 22,
                self.slots@ == rows_emptied(c0, lines.take(k as int)),
                c0.len() == 220,
                self.active_rustomino == old(self).active_rustomino,
                self.ghost_rustomino == old(self).ghost_rustomino,
            decreases num_completed_lines - k,
        {
            let y = completed_lines[k];
            assert(lines[k as int] < 22);
            let ghost before = self.slots@;
            let mut x: usize = 0;
            while x < 10
                invariant
                    x <= 10,
                    y < 22,
                    before.len() == 220,
                    self.active_rustomino == old(self).active_rustomino,
                    self.ghost_rustomino == old(self).ghost_rustomino,
                    self.slots@ == Seq::new(
                        220,
                        |i: int|
                            if y * 10 <= i < y * 10 + x {
                                SlotState::Empty
                            } else {
                                before[i]
                            },
                    ),
                decreases 10 - x,
            {
                self.slots.set(y * 10 + x, SlotState::Empty);
                x = x + 1;
                assert(self.slots@ =~= Seq::new(
                    220,
                    |i: int|
                        if y * 10 <= i < y * 10 + x {
                            SlotState::Empty
                        } else {
                            before[i]
                        },
                ));
            }
            k = k + 1;
            proof {
                let now = rows_emptied(c0, lines.take(k as int));
                let cur = lines.take(k as int);
                let prev = lines.take(k - 1);
                assert forall|i: int| 0 <= i < 220 implies self.slots@[i] == now[i] by {
                    lemma_row_col(i);
                    let row = i / 10;
                    assert(cur.contains(row) <==> (prev.contains(row) || row == y)) by {
                        if cur.contains(row) {
                            let a = choose|a: int| 0 <= a < cur.len() && cur[a] == row;
                            if a < k - 1 {
                                assert(prev[a] == row);
                            }
                        }
                        if prev.contains(row) {
                            let a = choose|a: int| 0 <= a < prev.len() && prev[a] == row;
                            assert(cur[a] == row);
                        }
                        if row == y {
                            assert(cur[k - 1] == row);
                        }
                    }
                }
                assert(self.slots@ =~= now);
            }
        }
        assert(lines.take(num_completed_lines as int) =~= lines);
        let ghost emptied = self.slots@;

        // then "move" the states of the slots above cleared lines down
        // starts at the highest cleared line, and moves block states down
        let mut j: usize = num_completed_lines;
        while j > 0
            invariant
                j <= num_completed_lines == completed_lines@.len() == lines.len(),
                forall|a: int| 0 <= a < lines.len() ==> completed_lines@[a] as int == lines[a],
                forall|a: int| 0 <= a < lines.len() ==> 0 <= #[trigger] lines[a] < 22,
                emptied.len() == 220,
                self.slots@ == rows_removed(emptied, lines, j as int),
                self.slots@.len() == 220,
                self.active_rustomino == old(self).active_rustomino,
                self.ghost_rustomino == old(self).ghost_rustomino,
            decreases j,
        {
            j = j - 1;
            let line = completed_lines[j];
            assert(lines[j as int] < 22);
            let ghost g = self.slots@;
            let mut y: usize = line;
            while y < 22
                invariant
                    line <= y <= 22,
                    line < 22,
                    g.len() == 220,
                    self.active_rustomino == old(self).active_rustomino,
                    self.ghost_rustomino == old(self).ghost_rustomino,
                    self.slots@ == Seq::new(
                        220,
                        |i: int|
                            if line * 10 <= i < y * 10 {
                                if i < 210 {
                                    g[i + 10]
                                } else {
                                    SlotState::Empty
                                }
                            } else {
                                g[i]
                            },
                    ),
                decreases 22 - y,
            {
                let mut x: usize = 0;
                while x < 10
                    invariant
                        x <= 10,
                        line <= y < 22,
                        g.len() == 220,
                        self.active_rustomino == old(self).active_rustomino,
                        self.ghost_rustomino == old(self).ghost_rustomino,
                        self.slots@ == Seq::new(
                            220,
                            |i: int|
                                if line * 10 <= i < y * 10 + x {
                                    if i < 210 {
                                        g[i + 10]
                                    } else {
                                        SlotState::Empty
                                    }
                                } else {
                                    g[i]
                                },
                        ),
                    decreases 10 - x,
                {
                    // is this line is the very top row
                    if y + 1 >= 22 {
                        self.slots.set(y * 10 + x, SlotState::Empty);
                    } else {
                        let above = self.slots[(y + 1) * 10 + x];
                        self.slots.set(y * 10 + x, above);
                    }
                    x = x + 1;
                    assert(self.slots@ =~= Seq::new(
                        220,
                        |i: int|
                            if line * 10 <= i < y * 10 + x {
                                if i < 210 {
                                    g[i + 10]
                                } else {
                                    SlotState::Empty
                                }
                            } else {
                                g[i]
                            },
                    ));
                }
                y = y + 1;
            }
            assert(self.slots@ =~= row_removed(g, line as int));
        }
        proof {
            lemma_rows_removed(emptied, lines, 0);
            assert(lines.subrange(0, lines.len() as int) =~= lines);
            lemma_kept_rows(22, lines);
            lemma_stacked_emptied(c0, lines, kept_rows(22, lines));
        }
        self.update_ghost_rustomino(false);
        completed_lines
    }

    /// The complete rows, bottom up.
    fn get_complete_lines(&self) -> (r: Vec<usize>)
        requires
            self.wf(),
        ensures
            r@.map_values(|y: usize| y as int) == complete_rows(self@.cells),
    {
        let mut complete_lines: Vec<usize> = Vec::new();
        let mut i: usize = 0;
        while i < 22
            invariant
                i <= 22,
                self.wf(),
                complete_lines@.map_values(|y: usize| y as int) == complete_rows_below(self@.cells, i as int),
            decreases 22 - i,
        {
            let mut full = true;
            let mut x: usize = 0;
            while x < 10
                invariant
                    x <= 10,
                    i < 22,
                    self.wf(),
                    full == forall|x2: int| 0 <= x2 < x ==> #[trigger] locked_at(self@.cells, x2, i as int),
                decreases 10 - x,
            {
                // compare variant ignoring the value
                if !variants_equal(&self.slots[i * 10 + x], &SlotState::Locked(RustominoType::I)) {
                    full = false;
                }
                assert(locked_at(self@.cells, x as int, i as int) == (self.slots@[i * 10 + x] is Locked));
                x = x + 1;
            }
            if full {
                complete_lines.push(i);
            }
            i = i + 1;
            assert(complete_lines@.map_values(|y: usize| y as int) =~= complete_rows_below(
                self@.cells,
                i as int,
            ));
        }
        complete_lines
    }

    fn update_ghost_rustomino(&mut self, translating: bool)
        requires
            old(self).wf(),
        ensures
            final(self).wf(),
            final(self)@ == old(self)@.refresh_ghost(translating),
    {
        let active_rustomino = match self.active_rustomino {
            Some(a) => a,
            None => {
                if !translating {
                    if let Some(ghost_rustomino) = self.ghost_rustomino {
                        set_playfield_slot_states(
                            &mut self.slots,
                            &ghost_rustomino.playfield_slots(),
                            SlotState::Empty,
                        );
                    }
                }
                self.ghost_rustomino = None;
                return;
            },
        };

        let drop_translation = get_hard_drop_translation(&self.slots, &active_rustomino);
        if let Some(mut ghost_rustomino) = self.ghost_rustomino {
            let ghost old_cells = self.slots@;
            if translating {
                let old_ghost_slots = ghost_rustomino.playfield_slots();
                mark_slot(&mut self.slots, old_ghost_slots[0], SlotState::Empty);
                mark_slot(&mut self.slots, old_ghost_slots[1], SlotState::Empty);
                mark_slot(&mut self.slots, old_ghost_slots[2], SlotState::Empty);
                mark_slot(&mut self.slots, old_ghost_slots[3], SlotState::Empty);
            }
            ghost_rustomino.blocks = active_rustomino.blocks;
            ghost_rustomino.translation = active_rustomino.translation;

            // perform the translation
            ghost_rustomino.translate(drop_translation);
            proof {
                let d = drop_distance(old_cells, active_rustomino.cells());
                lemma_drop_within(old_cells, active_rustomino.cells(), d);
                lemma_shift_twice(active_rustomino.blocks, active_rustomino.translation, down(d));
            }

            // set the new slot states to occupied
            let new_ghost_slots = ghost_rustomino.playfield_slots();
            mark_slot(&mut self.slots, new_ghost_slots[0], SlotState::GhostBlock(ghost_rustomino.rtype));
            mark_slot(&mut self.slots, new_ghost_slots[1], SlotState::GhostBlock(ghost_rustomino.rtype));
            mark_slot(&mut self.slots, new_ghost_slots[2], SlotState::GhostBlock(ghost_rustomino.rtype));
            mark_slot(&mut self.slots, new_ghost_slots[3], SlotState::GhostBlock(ghost_rustomino.rtype));
            self.ghost_rustomino = Some(ghost_rustomino);
        }
    }
}

/// The kick that `first_fit` finds moves the turned cells clear of collisions.
pub proof fn lemma_first_fit_fits(cells: Seq<SlotState>, turned: [IVec2; 4], tests: [IVec2; 5], i: int)
    requires
        first_fit(cells, turned, tests, i) is Some,
    ensures
        !collides(cells, shift(turned, first_fit(cells, turned, tests, i).unwrap())),
    decreases 5 - i,
{
    if 0 <= i < 5 && collides(cells, shift(turned, tests[i])) {
        lemma_first_fit_fits(cells, turned, tests, i + 1);
    }
}

} // verus!
