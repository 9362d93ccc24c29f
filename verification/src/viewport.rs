//! The viewport: the visible rectangle's origin, the edit cursor, the mode,
//! and the queue of live cells that the search has still to visit.
//!
//! Origin and cursor are `i32` coordinates. An operation that moves one of
//! them asks of its caller that the result is a coordinate again; nothing
//! wraps around or saturates.

use vstd::prelude::*;
use crate::board::{ascending, point, precedes, LiveSet};

verus! {

/// `p` lies in the rectangle of `w` by `h` cells whose top-left cell is `(ox, oy)`.
pub open spec fn visible(p: (int, int), ox: int, oy: int, w: int, h: int) -> bool {
    ox <= p.0 < ox + w && oy <= p.1 < oy + h
}

/// The origin that puts `p` at the centre of a rectangle of `w` by `h` cells.
pub open spec fn centred_origin(p: (int, int), w: int, h: int) -> (int, int) {
    (p.0 - w / 2, p.1 - h / 2)
}

/// The origin on one axis after an edge-clamp: moved by the least amount that
/// brings `cursor` into the `extent` cells from it on.
pub open spec fn clamped(origin: int, cursor: int, extent: int) -> int {
    if cursor < origin {
        cursor
    } else if cursor >= origin + extent {
        cursor - extent + 1
    } else {
        origin
    }
}

/// The queue that a search works on: the one it has, or, where that is empty,
/// a fresh listing of the board.
pub open spec fn seeded(queue: Seq<(i32, i32)>, listing: Seq<(i32, i32)>) -> Seq<(i32, i32)> {
    if queue.len() == 0 {
        listing
    } else {
        queue
    }
}

/// The elements of `q`, in their order, that the rectangle does not show.
pub open spec fn off_screen(q: Seq<(i32, i32)>, ox: int, oy: int, w: int, h: int) -> Seq<
    (i32, i32),
>
    decreases q.len(),
{
    if q.len() == 0 {
        Seq::empty()
    } else if visible(point(q.last()), ox, oy, w, h) {
        off_screen(q.drop_last(), ox, oy, w, h)
    } else {
        off_screen(q.drop_last(), ox, oy, w, h).push(q.last())
    }
}

/// The queue after a visit to its front element: the camera is centred on
/// that element, and whatever it then shows leaves the queue.
pub open spec fn after_visit(q: Seq<(i32, i32)>, w: int, h: int) -> Seq<(i32, i32)>
    recommends
        q.len() > 0,
{
    let o = centred_origin(point(q[0]), w, h);
    off_screen(q, o.0, o.1, w, h)
}

/// The queue after `n` visits in a row, as long as it is not empty.
pub open spec fn after_visits(q: Seq<(i32, i32)>, w: int, h: int, n: nat) -> Seq<(i32, i32)>
    decreases n,
{
    if n == 0 {
        q
    } else {
        let before = after_visits(q, w, h, (n - 1) as nat);
        if before.len() == 0 {
            before
        } else {
            after_visit(before, w, h)
        }
    }
}

/// What `off_screen` keeps: exactly the hidden elements, in their order.
pub proof fn lemma_off_screen(q: Seq<(i32, i32)>, ox: int, oy: int, w: int, h: int)
    ensures
        off_screen(q, ox, oy, w, h).len() <= q.len(),
        forall|c: (i32, i32)|
            #[trigger] off_screen(q, ox, oy, w, h).contains(c) <==> (q.contains(c) && !visible(
                point(c),
                ox,
                oy,
                w,
                h,
            )),
        ascending(q) ==> ascending(off_screen(q, ox, oy, w, h)),
    decreases q.len(),
{
    let r = off_screen(q, ox, oy, w, h);
    if q.len() > 0 {
        let front = q.drop_last();
        let rest = off_screen(front, ox, oy, w, h);
        lemma_off_screen(front, ox, oy, w, h);
        let last = q.last();
        assert forall|c: (i32, i32)| #[trigger] r.contains(c) <==> (q.contains(c) && !visible(
            point(c),
            ox,
            oy,
            w,
            h,
        )) by {
            if r.contains(c) {
                let k = choose|k: int| 0 <= k < r.len() && r[k] == c;
                if k < rest.len() {
                    assert(rest[k] == c);
                    assert(rest.contains(c));
                    let m = choose|m: int| 0 <= m < front.len() && front[m] == c;
                    assert(q[m] == c);
                } else {
                    assert(c == last);
                    assert(q[q.len() - 1] == c);
                }
            }
            if q.contains(c) && !visible(point(c), ox, oy, w, h) {
                let m = choose|m: int| 0 <= m < q.len() && q[m] == c;
                if m < front.len() {
                    assert(front[m] == c);
                    assert(front.contains(c));
                    assert(rest.contains(c));
                    let k = choose|k: int| 0 <= k < rest.len() && rest[k] == c;
                    assert(r[k] == c);
                } else {
                    assert(r[r.len() - 1] == c);
                }
            }
        }
        if ascending(q) {
            assert(ascending(front));
            assert forall|a: int, b: int| 0 <= a < b < r.len() implies precedes(
                #[trigger] r[a],
                #[trigger] r[b],
            ) by {
                if b < rest.len() {
                    assert(r[a] == rest[a] && r[b] == rest[b]);
                } else {
                    assert(r[b] == last);
                    assert(rest[a] == r[a]);
                    assert(rest.contains(r[a]));
                    assert(front.contains(r[a]));
                    let m = choose|m: int| 0 <= m < front.len() && front[m] == r[a];
                    assert(precedes(q[m], q[q.len() - 1]));
                }
            }
        }
    }
}

/// A visit takes the visited element out of the queue, and with it at least
/// one element.
pub proof fn lemma_after_visit(q: Seq<(i32, i32)>, w: int, h: int)
    requires
        q.len() > 0,
        w >= 1,
        h >= 1,
    ensures
        !after_visit(q, w, h).contains(q[0]),
        after_visit(q, w, h).len() < q.len(),
        forall|c: (i32, i32)| #[trigger] after_visit(q, w, h).contains(c) ==> q.contains(c),
        ascending(q) ==> ascending(after_visit(q, w, h)),
{
    let o = centred_origin(point(q[0]), w, h);
    lemma_off_screen(q, o.0, o.1, w, h);
    assert(visible(point(q[0]), o.0, o.1, w, h));
    lemma_shorter(q, o.0, o.1, w, h, 0);
}

/// Where one element is on screen, `off_screen` is shorter than its argument.
proof fn lemma_shorter(q: Seq<(i32, i32)>, ox: int, oy: int, w: int, h: int, i: int)
    requires
        0 <= i < q.len(),
        visible(point(q[i]), ox, oy, w, h),
    ensures
        off_screen(q, ox, oy, w, h).len() < q.len(),
    decreases q.len(),
{
    lemma_off_screen(q.drop_last(), ox, oy, w, h);
    if i < q.len() - 1 {
        lemma_shorter(q.drop_last(), ox, oy, w, h, i);
    }
}

/// From one visit to a later one the queue only loses elements.
proof fn lemma_visits_shrink(q: Seq<(i32, i32)>, w: int, h: int, i: nat, j: nat)
    requires
        w >= 1,
        h >= 1,
        i <= j,
    ensures
        forall|c: (i32, i32)| #[trigger]
            after_visits(q, w, h, j).contains(c) ==> after_visits(q, w, h, i).contains(c),
    decreases j,
{
    if i < j {
        let before = after_visits(q, w, h, (j - 1) as nat);
        lemma_visits_shrink(q, w, h, i, (j - 1) as nat);
        if before.len() > 0 {
            lemma_after_visit(before, w, h);
        }
    }
}

/// Within one pass over the queue no cell is visited twice: two different
/// calls that both find the queue non-empty visit different cells.
pub proof fn search_visits_are_distinct(q: Seq<(i32, i32)>, w: int, h: int, i: nat, j: nat)
    requires
        w >= 1,
        h >= 1,
        i < j,
        after_visits(q, w, h, i).len() > 0,
        after_visits(q, w, h, j).len() > 0,
    ensures
        after_visits(q, w, h, i)[0] != after_visits(q, w, h, j)[0],
{
    let qi = after_visits(q, w, h, i);
    let qj = after_visits(q, w, h, j);
    lemma_after_visit(qi, w, h);
    assert(after_visits(q, w, h, i + 1) == after_visit(qi, w, h));
    lemma_visits_shrink(q, w, h, i + 1, j);
    assert(qj.contains(qj[0]));
}

/// A pass ends: each visit shortens the queue, so after as many visits as the
/// queue is long it is empty.
pub proof fn search_pass_ends(q: Seq<(i32, i32)>, w: int, h: int, n: nat)
    requires
        w >= 1,
        h >= 1,
    ensures
        after_visits(q, w, h, n).len() + n <= q.len() || after_visits(q, w, h, n).len() == 0,
    decreases n,
{
    if n > 0 {
        let before = after_visits(q, w, h, (n - 1) as nat);
        search_pass_ends(q, w, h, (n - 1) as nat);
        if before.len() > 0 {
            lemma_after_visit(before, w, h);
        }
    }
}

/// No camera centred on one element of `q` shows another element of `q`.
pub open spec fn spread(q: Seq<(i32, i32)>, w: int, h: int) -> bool {
    forall|i: int, j: int|
        0 <= i < q.len() && 0 <= j < q.len() && i != j ==> !visible(
            point(#[trigger] q[j]),
            centred_origin(point(#[trigger] q[i]), w, h).0,
            centred_origin(point(q[i]), w, h).1,
            w,
            h,
        )
}

/// Where the rectangle shows the first element and no other, `off_screen`
/// drops the first element and keeps the rest.
proof fn lemma_only_first_shown(q: Seq<(i32, i32)>, ox: int, oy: int, w: int, h: int)
    requires
        q.len() > 0,
        visible(point(q[0]), ox, oy, w, h),
        forall|k: int| 1 <= k < q.len() ==> !visible(point(#[trigger] q[k]), ox, oy, w, h),
    ensures
        off_screen(q, ox, oy, w, h) == q.drop_first(),
    decreases q.len(),
{
    if q.len() == 1 {
        assert(off_screen(q.drop_last(), ox, oy, w, h) =~= q.drop_first());
    } else {
        let front = q.drop_last();
        assert(front[0] == q[0]);
        assert forall|k: int| 1 <= k < front.len() implies !visible(
            point(#[trigger] front[k]),
            ox,
            oy,
            w,
            h,
        ) by {
            assert(front[k] == q[k]);
        }
        lemma_only_first_shown(front, ox, oy, w, h);
        assert(!visible(point(q[q.len() - 1]), ox, oy, w, h));
        assert(front.drop_first().push(q.last()) =~= q.drop_first());
    }
}

/// The search is complete on a queue whose cells lie apart: the first `n`
/// visits go to its first `n` cells, one each and in order, and leave the
/// rest waiting. So a queue of `n` such cells is empty after `n` visits and
/// not before, and no cell was visited twice.
pub proof fn search_is_complete(q: Seq<(i32, i32)>, w: int, h: int, n: nat)
    requires
        w >= 1,
        h >= 1,
        spread(q, w, h),
        n <= q.len(),
    ensures
        after_visits(q, w, h, n) == q.skip(n as int),
        n < q.len() ==> after_visits(q, w, h, n)[0] == q[n as int],
    decreases n,
{
    if n == 0 {
        assert(q.skip(0) =~= q);
    } else {
        search_is_complete(q, w, h, (n - 1) as nat);
        let before = q.skip(n - 1);
        let o = centred_origin(point(before[0]), w, h);
        assert(before[0] == q[n - 1]);
        assert forall|k: int| 1 <= k < before.len() implies !visible(
            point(#[trigger] before[k]),
            o.0,
            o.1,
            w,
            h,
        ) by {
            assert(before[k] == q[n - 1 + k]);
        }
        lemma_only_first_shown(before, o.0, o.1, w, h);
        assert(before.drop_first() =~= q.skip(n as int));
    }
}

/// The origin that centres a rectangle of `w` by `h` cells on `c` is a
/// coordinate.
pub open spec fn centrable(c: (i32, i32), w: int, h: int) -> bool {
    c.0 - w / 2 >= i32::MIN && c.1 - h / 2 >= i32::MIN
}

/// The queue after `n` searches in a row on a board that lists `listing`,
/// begun with `queue`: each search fills an empty queue from the listing and
/// then visits its front cell.
pub open spec fn after_searches(
    queue: Seq<(i32, i32)>,
    listing: Seq<(i32, i32)>,
    w: int,
    h: int,
    n: nat,
) -> Seq<(i32, i32)>
    decreases n,
{
    if n == 0 {
        queue
    } else {
        let q = seeded(after_searches(queue, listing, w, h, (n - 1) as nat), listing);
        if q.len() == 0 {
            q
        } else {
            after_visit(q, w, h)
        }
    }
}

/// The cell that search number `n`, counted from 0, goes to on a board that
/// is not empty.
pub open spec fn visited_by(
    queue: Seq<(i32, i32)>,
    listing: Seq<(i32, i32)>,
    w: int,
    h: int,
    n: nat,
) -> (i32, i32) {
    seeded(after_searches(queue, listing, w, h, n), listing)[0]
}

/// A full round of the search. On a board of `N` cells that lie apart, and
/// from an empty queue: search number `k < N` goes to cell `k` of the
/// listing, so the `N` searches go to the `N` cells, each once; after `k`
/// searches, `1 <= k <= N`, the cells from `k` on are waiting, so the queue
/// is empty after `N` searches and not before; and search number `N` fills
/// it again and goes to the first cell, as search number 0 did.
pub proof fn search_round_is_complete(listing: Seq<(i32, i32)>, w: int, h: int, k: nat)
    requires
        w >= 1,
        h >= 1,
        spread(listing, w, h),
        listing.len() > 0,
        k <= listing.len(),
    ensures
        k >= 1 ==> after_searches(Seq::empty(), listing, w, h, k) == listing.skip(k as int),
        k < listing.len() ==> visited_by(Seq::empty(), listing, w, h, k) == listing[k as int],
        k < listing.len() ==> seeded(after_searches(Seq::empty(), listing, w, h, k), listing).len()
            > 0,
        k == listing.len() ==> after_searches(Seq::empty(), listing, w, h, k).len() == 0
            && visited_by(Seq::empty(), listing, w, h, k) == listing[0],
        forall|i: int, j: int|
            0 <= i < j < listing.len() ==> #[trigger] listing[i] != #[trigger] listing[j],
    decreases k,
{
    let none = Seq::<(i32, i32)>::empty();
    assert forall|i: int, j: int| 0 <= i < j < listing.len() implies #[trigger] listing[i]
        != #[trigger] listing[j] by {
        let o = centred_origin(point(listing[i]), w, h);
        assert(visible(point(listing[i]), o.0, o.1, w, h));
    }
    if k >= 1 {
        search_round_is_complete(listing, w, h, (k - 1) as nat);
        search_is_complete(listing, w, h, (k - 1) as nat);
        search_is_complete(listing, w, h, k);
        let before = after_searches(none, listing, w, h, (k - 1) as nat);
        assert(listing.skip(0) =~= listing);
        assert(seeded(before, listing) == listing.skip(k - 1));
        assert(seeded(before, listing) == after_visits(listing, w, h, (k - 1) as nat));
        assert(after_searches(none, listing, w, h, k) == after_visits(listing, w, h, k));
        if k < listing.len() {
            assert(listing.skip(k as int)[0] == listing[k as int]);
        }
    }
}

/// After an edge-clamp on both axes the rectangle shows the cursor, wherever
/// origin and cursor were.
pub proof fn clamp_shows_cursor(origin: (int, int), cursor: (int, int), w: int, h: int)
    requires
        w >= 1,
        h >= 1,
    ensures
        visible(cursor, clamped(origin.0, cursor.0, w), clamped(origin.1, cursor.1, h), w, h),
{
}

/// The size of the visible rectangle in cells on a terminal of `columns` by
/// `rows`: a cell takes two columns, and the last row is kept for the status
/// line.
pub fn visible_size(columns: u16, rows: u16) -> (r: (i32, i32))
    ensures
        r.0 == (columns + 1) / 2,
        r.1 == if rows == 0 { 0int } else { rows - 1 },
{
    let c: i32 = columns as i32;
    let w: i32 = (c + 1) / 2;
    let h: i32 = if rows == 0 {
        0
    } else {
        rows as i32 - 1
    };
    (w, h)
}

/// Camera, cursor, mode and search state.
pub struct Viewport {
    /// Column of the visible rectangle's left edge.
    pub start_x: i32,
    /// Row of the visible rectangle's top edge.
    pub start_y: i32,
    /// Column of the edit cursor.
    pub edit_x: i32,
    /// Row of the edit cursor.
    pub edit_y: i32,
    /// `true` in edit mode, `false` in play mode.
    pub edit_mode: bool,
    /// A request to centre the camera on the cursor is pending.
    pub do_center: bool,
    /// A request to go to the next live cell is pending.
    pub do_search: bool,
    /// The live cells that the search has still to visit, next one first.
    pub search: Vec<(i32, i32)>,
}

impl Viewport {
    /// The live cells that the search has still to visit, next one first.
    pub open spec fn queue(&self) -> Seq<(i32, i32)> {
        self.search@
    }

    /// The queue is in ascending order, so no cell stands in it twice.
    pub open spec fn wf(&self) -> bool {
        ascending(self.queue())
    }

    /// The cursor as a point.
    pub open spec fn cursor(&self) -> (int, int) {
        (self.edit_x as int, self.edit_y as int)
    }

    /// Everything but the origin is as in `other`.
    pub open spec fn same_but_origin(&self, other: &Viewport) -> bool {
        &&& self.edit_x == other.edit_x
        &&& self.edit_y == other.edit_y
        &&& self.edit_mode == other.edit_mode
        &&& self.do_center == other.do_center
        &&& self.do_search == other.do_search
        &&& self.queue() == other.queue()
    }

    /// Whether the rectangle of `w` by `h` cells at the origin shows the cursor.
    pub open spec fn shows_cursor(&self, w: int, h: int) -> bool {
        visible(self.cursor(), self.start_x as int, self.start_y as int, w, h)
    }

    /// The viewport at the start: origin and cursor at `(0, 0)`, edit mode,
    /// nothing pending, an empty queue.
    pub open spec fn is_fresh(&self) -> bool {
        &&& self.start_x == 0 && self.start_y == 0 && self.edit_x == 0 && self.edit_y == 0
        &&& self.edit_mode && !self.do_center && !self.do_search
        &&& self.queue() == Seq::<(i32, i32)>::empty()
    }

    /// Origin and cursor at `(0, 0)`, edit mode, nothing pending, empty queue.
    pub fn new() -> (r: Viewport)
        ensures
            r.wf(),
            r.is_fresh(),
    {
        Viewport {
            start_x: 0,
            start_y: 0,
            edit_x: 0,
            edit_y: 0,
            edit_mode: true,
            do_center: false,
            do_search: false,
            search: Vec::new(),
        }
    }

    /// How many cells the search has still to visit in this pass.
    pub fn queue_len(&self) -> (n: usize)
        ensures
            n == self.queue().len(),
    {
        self.search.len()
    }

    /// Forgets the search queue, so that the next search lists the board anew.
    pub fn reset_search(&mut self)
        ensures
            final(self).wf(),
            final(self).queue() == Seq::<(i32, i32)>::empty(),
            final(self).start_x == old(self).start_x,
            final(self).start_y == old(self).start_y,
            final(self).edit_x == old(self).edit_x,
            final(self).edit_y == old(self).edit_y,
            final(self).edit_mode == old(self).edit_mode,
            final(self).do_center == old(self).do_center,
            final(self).do_search == old(self).do_search,
    {
        self.search.clear();
    }

    /// Switches between edit and play mode and changes nothing else.
    pub fn toggle_mode(&mut self)
        ensures
            final(self).edit_mode == !old(self).edit_mode,
            final(self).start_x == old(self).start_x,
            final(self).start_y == old(self).start_y,
            final(self).same_but_origin(
                &(Viewport { edit_mode: !old(self).edit_mode, ..*old(self) }),
            ),
    {
        self.edit_mode = !self.edit_mode;
    }

    /// In edit mode, moves the cursor by `(dx, dy)`. In play mode, moves the
    /// origin by `(dx, dy)` and puts the cursor on the origin.
    pub fn move_cursor(&mut self, dx: i32, dy: i32)
        requires
            old(self).edit_mode ==> i32::MIN <= old(self).edit_x + dx <= i32::MAX && i32::MIN
                <= old(self).edit_y + dy <= i32::MAX,
            !old(self).edit_mode ==> i32::MIN <= old(self).start_x + dx <= i32::MAX && i32::MIN
                <= old(self).start_y + dy <= i32::MAX,
        ensures
            final(self).edit_mode == old(self).edit_mode,
            final(self).do_center == old(self).do_center,
            final(self).do_search == old(self).do_search,
            final(self).queue() == old(self).queue(),
            old(self).edit_mode ==> {
                &&& final(self).edit_x == old(self).edit_x + dx
                &&& final(self).edit_y == old(self).edit_y + dy
                &&& final(self).start_x == old(self).start_x
                &&& final(self).start_y == old(self).start_y
            },
            !old(self).edit_mode ==> {
                &&& final(self).start_x == old(self).start_x + dx
                &&& final(self).start_y == old(self).start_y + dy
                &&& final(self).edit_x == final(self).start_x
                &&& final(self).edit_y == final(self).start_y
            },
    {
        if self.edit_mode {
            self.edit_x = self.edit_x + dx;
            self.edit_y = self.edit_y + dy;
        } else {
            self.start_x = self.start_x + dx;
            self.start_y = self.start_y + dy;
            self.edit_x = self.start_x;
            self.edit_y = self.start_y;
        }
    }

    /// Asks for the camera to be centred on `(x, y)`: the cursor goes there
    /// (in play mode it stays on the origin) and the request is noted.
    pub fn request_center(&mut self, x: i32, y: i32)
        ensures
            final(self).do_center,
            final(self).edit_x == if old(self).edit_mode { x } else { old(self).start_x },
            final(self).edit_y == if old(self).edit_mode { y } else { old(self).start_y },
            final(self).start_x == old(self).start_x,
            final(self).start_y == old(self).start_y,
            final(self).edit_mode == old(self).edit_mode,
            final(self).do_search == old(self).do_search,
            final(self).queue() == old(self).queue(),
    {
        if self.edit_mode {
            self.edit_x = x;
            self.edit_y = y;
        } else {
            self.edit_x = self.start_x;
            self.edit_y = self.start_y;
        }
        self.do_center = true;
    }

    /// Asks for the next search step.
    pub fn request_search(&mut self)
        ensures
            final(self).do_search,
            final(self).start_x == old(self).start_x,
            final(self).start_y == old(self).start_y,
            final(self).same_but_origin(&(Viewport { do_search: true, ..*old(self) })),
    {
        self.do_search = true;
    }

    /// Puts the origin where the cursor is the centre cell of a rectangle of
    /// `w` by `h` cells.
    pub fn recentre(&mut self, w: i32, h: i32)
        requires
            w >= 0,
            h >= 0,
            old(self).edit_x - w / 2 >= i32::MIN,
            old(self).edit_y - h / 2 >= i32::MIN,
        ensures
            (final(self).start_x as int, final(self).start_y as int) == centred_origin(
                old(self).cursor(),
                w as int,
                h as int,
            ),
            final(self).same_but_origin(old(self)),
            w >= 1 && h >= 1 ==> final(self).shows_cursor(w as int, h as int),
    {
        self.start_x = self.edit_x - w / 2;
        self.start_y = self.edit_y - h / 2;
    }

    /// Edge-clamp: on each axis on which the cursor is outside the rectangle
    /// of `w` by `h` cells, moves the origin just far enough for the cursor to
    /// be the cell at that edge. Afterwards the rectangle shows the cursor.
    pub fn auto_clamp(&mut self, w: i32, h: i32)
        requires
            w >= 1,
            h >= 1,
        ensures
            final(self).start_x == clamped(
                old(self).start_x as int,
                old(self).edit_x as int,
                w as int,
            ),
            final(self).start_y == clamped(
                old(self).start_y as int,
                old(self).edit_y as int,
                h as int,
            ),
            final(self).same_but_origin(old(self)),
            final(self).shows_cursor(w as int, h as int),
    {
        if self.edit_x < self.start_x {
            self.start_x = self.edit_x;
        } else if self.edit_x as i64 >= self.start_x as i64 + w as i64 {
            self.start_x = self.edit_x - w + 1;
        }
        if self.edit_y < self.start_y {
            self.start_y = self.edit_y;
        } else if self.edit_y as i64 >= self.start_y as i64 + h as i64 {
            self.start_y = self.edit_y - h + 1;
        }
    }

    /// Goes to the next live cell. An empty queue is first filled with the
    /// board's cells in ascending order. Then the front cell becomes the
    /// cursor, the camera is centred on it, and every cell that the rectangle
    /// of `w` by `h` cells now shows leaves the queue, the front cell among
    /// them. On an empty board nothing changes.
    pub fn advance_search(&mut self, live: &LiveSet, w: i32, h: i32)
        requires
            old(self).wf(),
            live.wf(),
            w >= 1,
            h >= 1,
            ({
                let q = seeded(old(self).queue(), live.listing());
                q.len() > 0 ==> q[0].0 - w / 2 >= i32::MIN && q[0].1 - h / 2 >= i32::MIN
            }),
        ensures
            final(self).wf(),
            final(self).edit_mode == old(self).edit_mode,
            final(self).do_center == old(self).do_center,
            final(self).do_search == old(self).do_search,
            ({
                let q = seeded(old(self).queue(), live.listing());
                if q.len() == 0 {
                    &&& final(self).queue() == q
                    &&& final(self).start_x == old(self).start_x
                    &&& final(self).start_y == old(self).start_y
                    &&& final(self).edit_x == old(self).edit_x
                    &&& final(self).edit_y == old(self).edit_y
                } else {
                    &&& final(self).edit_x == q[0].0
                    &&& final(self).edit_y == q[0].1
                    &&& (final(self).start_x as int, final(self).start_y as int) == centred_origin(
                        point(q[0]),
                        w as int,
                        h as int,
                    )
                    &&& final(self).queue() == after_visit(q, w as int, h as int)
                    &&& final(self).queue().len() < q.len()
                    &&& !final(self).queue().contains(q[0])
                    &&& final(self).shows_cursor(w as int, h as int)
                }
            }),
    {
        if self.search.len() == 0 {
            self.search = live.live_cells();
        }
        if self.search.len() == 0 {
            return ;
        }
        let ghost q = self.search@;
        let front = self.search[0];
        self.edit_x = front.0;
        self.edit_y = front.1;
        self.start_x = front.0 - w / 2;
        self.start_y = front.1 - h / 2;
        let ox: i64 = self.start_x as i64;
        let oy: i64 = self.start_y as i64;
        let mut rest: Vec<(i32, i32)> = Vec::new();
        let mut i: usize = 0;
        while i < self.search.len()
            invariant
                i <= self.search.len(),
                self.search@ == q,
                w >= 1,
                h >= 1,
                ox == self.start_x,
                oy == self.start_y,
                rest@ == off_screen(q.take(i as int), ox as int, oy as int, w as int, h as int),
            decreases self.search.len() - i,
        {
            let c = self.search[i];
            let x: i64 = c.0 as i64;
            let y: i64 = c.1 as i64;
            proof {
                let t = q.take(i + 1);
                assert(t.drop_last() == q.take(i as int));
                assert(t.last() == c);
            }
            if !(ox <= x && x < ox + w as i64 && oy <= y && y < oy + h as i64) {
                rest.push(c);
            }
            i += 1;
        }
        proof {
            assert(q.take(i as int) == q);
            lemma_after_visit(q, w as int, h as int);
        }
        self.search = rest;
    }

    /// Carries out `n` searches in a row on an unchanged board and lists the
    /// cells that they went to, in turn. Flags and mode stay as they are. A
    /// search that finds queue and board empty goes nowhere, and so do those
    /// after it.
    pub fn search_many(&mut self, live: &LiveSet, w: i32, h: i32, n: usize) -> (visited: Vec<
        (i32, i32),
    >)
        requires
            old(self).wf(),
            live.wf(),
            w >= 1,
            h >= 1,
            forall|c: (i32, i32)|
                #[trigger] live.listing().contains(c) ==> centrable(c, w as int, h as int),
            forall|c: (i32, i32)|
                #[trigger] old(self).queue().contains(c) ==> centrable(c, w as int, h as int),
        ensures
            final(self).wf(),
            final(self).edit_mode == old(self).edit_mode,
            final(self).do_center == old(self).do_center,
            final(self).do_search == old(self).do_search,
            final(self).queue() == after_searches(
                old(self).queue(),
                live.listing(),
                w as int,
                h as int,
                n as nat,
            ),
            visited@.len() <= n,
            live.listing().len() > 0 ==> visited@.len() == n,
            forall|k: int|
                0 <= k < visited@.len() ==> #[trigger] visited@[k] == visited_by(
                    old(self).queue(),
                    live.listing(),
                    w as int,
                    h as int,
                    k as nat,
                ),
            visited@.len() == 0 ==> {
                &&& final(self).start_x == old(self).start_x
                &&& final(self).start_y == old(self).start_y
                &&& final(self).edit_x == old(self).edit_x
                &&& final(self).edit_y == old(self).edit_y
            },
            visited@.len() > 0 ==> {
                &&& (final(self).edit_x, final(self).edit_y) == visited@.last()
                &&& (final(self).start_x as int, final(self).start_y as int) == centred_origin(
                    point(visited@.last()),
                    w as int,
                    h as int,
                )
            },
    {
        let mut visited: Vec<(i32, i32)> = Vec::new();
        let ghost start = self.search@;
        let ghost listing = live.listing();
        let mut i: usize = 0;
        while i < n
            invariant
                i <= n,
                self.wf(),
                live.wf(),
                listing == live.listing(),
                w >= 1,
                h >= 1,
                self.edit_mode == old(self).edit_mode,
                self.do_center == old(self).do_center,
                self.do_search == old(self).do_search,
                forall|c: (i32, i32)|
                    #[trigger] listing.contains(c) ==> centrable(c, w as int, h as int),
                forall|c: (i32, i32)|
                    #[trigger] self.queue().contains(c) ==> centrable(c, w as int, h as int),
                self.queue() == after_searches(start, listing, w as int, h as int, i as nat),
                visited@.len() <= i,
                visited@.len() < i ==> self.queue().len() == 0 && listing.len() == 0,
                forall|k: int|
                    0 <= k < visited@.len() ==> #[trigger] visited@[k] == visited_by(
                        start,
                        listing,
                        w as int,
                        h as int,
                        k as nat,
                    ),
                visited@.len() == 0 ==> {
                    &&& self.start_x == old(self).start_x
                    &&& self.start_y == old(self).start_y
                    &&& self.edit_x == old(self).edit_x
                    &&& self.edit_y == old(self).edit_y
                },
                visited@.len() > 0 ==> {
                    &&& (self.edit_x, self.edit_y) == visited@.last()
                    &&& (self.start_x as int, self.start_y as int) == centred_origin(
                        point(visited@.last()),
                        w as int,
                        h as int,
                    )
                },
            decreases n - i,
        {
            let ghost q = seeded(self.search@, listing);
            proof {
                if q.len() > 0 {
                    assert(q.contains(q[0]));
                    lemma_after_visit(q, w as int, h as int);
                }
            }
            let waiting = self.search.len() > 0 || live.len() > 0;
            self.advance_search(live, w, h);
            if waiting {
                visited.push((self.edit_x, self.edit_y));
            }
            i += 1;
        }
        visited
    }

    /// Spends the pending requests without acting on them, as a frame on an
    /// empty rectangle does: there is no cell to centre on or to show.
    pub fn dismiss_requests(&mut self)
        ensures
            !final(self).do_search,
            !final(self).do_center,
            final(self).start_x == old(self).start_x,
            final(self).start_y == old(self).start_y,
            final(self).edit_x == old(self).edit_x,
            final(self).edit_y == old(self).edit_y,
            final(self).edit_mode == old(self).edit_mode,
            final(self).search == old(self).search,
    {
        self.do_search = false;
        self.do_center = false;
    }

    /// Brings the camera up to date before a frame is drawn on a rectangle of
    /// `w` by `h` cells: a pending search is carried out, then a pending
    /// centring, each once; then the origin is edge-clamped to the cursor.
    pub fn settle(&mut self, live: &LiveSet, w: i32, h: i32)
        requires
            old(self).wf(),
            live.wf(),
            w >= 1,
            h >= 1,
            old(self).do_search ==> ({
                let q = seeded(old(self).queue(), live.listing());
                q.len() > 0 ==> q[0].0 - w / 2 >= i32::MIN && q[0].1 - h / 2 >= i32::MIN
            }),
            old(self).do_center ==> old(self).edit_x - w / 2 >= i32::MIN && old(self).edit_y - h
                / 2 >= i32::MIN,
        ensures
            final(self).wf(),
            !final(self).do_search,
            !final(self).do_center,
            final(self).edit_mode == old(self).edit_mode,
            final(self).shows_cursor(w as int, h as int),
            ({
                let q = seeded(old(self).queue(), live.listing());
                let found = old(self).do_search && q.len() > 0;
                let target = if found { point(q[0]) } else { old(self).cursor() };
                let centre = centred_origin(target, w as int, h as int);
                &&& final(self).cursor() == target
                &&& final(self).queue() == if found {
                    after_visit(q, w as int, h as int)
                } else if old(self).do_search {
                    q
                } else {
                    old(self).queue()
                }
                &&& final(self).start_x == if found || old(self).do_center {
                    centre.0
                } else {
                    clamped(old(self).start_x as int, target.0, w as int)
                }
                &&& final(self).start_y == if found || old(self).do_center {
                    centre.1
                } else {
                    clamped(old(self).start_y as int, target.1, h as int)
                }
            }),
    {
        if self.do_search {
            self.advance_search(live, w, h);
        }
        self.do_search = false;
        if self.do_center {
            self.recentre(w, h);
        }
        self.do_center = false;
        self.auto_clamp(w, h);
    }
}

} // verus!
