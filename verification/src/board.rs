//! The board: a finite set of live cells on the plane of `i32` coordinates,
//! kept as a vector in ascending order (by row, then by column).
//!
//! The plane ends where `i32` ends: a cell at its edge has fewer neighbours,
//! and nothing is born beyond it. So every operation of the board is total.

use vstd::prelude::*;

verus! {

/// `a` comes before `b`: in an earlier row, or in the same row and further left.
pub open spec fn precedes(a: (i32, i32), b: (i32, i32)) -> bool {
    a.1 < b.1 || (a.1 == b.1 && a.0 < b.0)
}

/// Every element comes before all later ones; so nothing occurs twice.
pub open spec fn ascending(s: Seq<(i32, i32)>) -> bool {
    forall|i: int, j: int| 0 <= i < j < s.len() ==> precedes(#[trigger] s[i], #[trigger] s[j])
}

/// A stored coordinate as a point of the mathematical plane.
pub open spec fn point(c: (i32, i32)) -> (int, int) {
    (c.0 as int, c.1 as int)
}

/// The points that a sequence of coordinates lists.
pub open spec fn points_of(s: Seq<(i32, i32)>) -> Set<(int, int)> {
    Set::new(|p: (int, int)| exists|i: int| 0 <= i < s.len() && point(#[trigger] s[i]) == p)
}

/// Both coordinates of `p` fit the coordinate type.
pub open spec fn on_plane(p: (int, int)) -> bool {
    i32::MIN <= p.0 <= i32::MAX && i32::MIN <= p.1 <= i32::MAX
}

/// 1 where `(x, y)` is live in `s`, else 0.
pub open spec fn occupied(s: Set<(int, int)>, x: int, y: int) -> int {
    if s.contains((x, y)) {
        1
    } else {
        0
    }
}

/// How many of the eight cells around `p` are live in `s`.
pub open spec fn neighbours(s: Set<(int, int)>, p: (int, int)) -> int {
    occupied(s, p.0 - 1, p.1 - 1) + occupied(s, p.0, p.1 - 1) + occupied(s, p.0 + 1, p.1 - 1)
        + occupied(s, p.0 - 1, p.1) + occupied(s, p.0 + 1, p.1) + occupied(s, p.0 - 1, p.1 + 1)
        + occupied(s, p.0, p.1 + 1) + occupied(s, p.0 + 1, p.1 + 1)
}

/// The rule: a live cell stays with two or three live neighbours, a dead cell
/// is born with exactly three.
pub open spec fn lives_on(s: Set<(int, int)>, p: (int, int)) -> bool {
    if s.contains(p) {
        neighbours(s, p) == 2 || neighbours(s, p) == 3
    } else {
        neighbours(s, p) == 3
    }
}

/// The generation after `s`. Cells beyond the coordinate type's range do not exist.
pub open spec fn next_generation(s: Set<(int, int)>) -> Set<(int, int)> {
    Set::new(|p: (int, int)| on_plane(p) && lives_on(s, p))
}

/// `s` with the membership of `p` flipped.
pub open spec fn flipped(s: Set<(int, int)>, p: (int, int)) -> Set<(int, int)> {
    if s.contains(p) {
        s.remove(p)
    } else {
        s.insert(p)
    }
}

/// `p` is `c` or one of the eight cells around it.
pub open spec fn near(c: (i32, i32), p: (int, int)) -> bool {
    c.0 - 1 <= p.0 <= c.0 + 1 && c.1 - 1 <= p.1 <= c.1 + 1
}

/// An ascending sequence lists `c` exactly where the sequence holds it at the
/// place where `c` would stand.
proof fn lemma_listed_at(s: Seq<(i32, i32)>, c: (i32, i32), i: int)
    requires
        ascending(s),
        0 <= i <= s.len(),
        forall|j: int| 0 <= j < i ==> precedes(#[trigger] s[j], c),
        i < s.len() ==> !precedes(s[i], c),
    ensures
        points_of(s).contains(point(c)) <==> (i < s.len() && s[i] == c),
{
    if points_of(s).contains(point(c)) {
        let j = choose|j: int| 0 <= j < s.len() && point(#[trigger] s[j]) == point(c);
        assert(s[j] == c);
        if j < i {
            assert(precedes(s[j], c));
        } else if j > i {
            assert(precedes(s[i], s[j]));
        }
    }
    if i < s.len() && s[i] == c {
        assert(point(s[i]) == point(c));
    }
}

/// Inserting `c` where it belongs keeps the order and adds its point.
proof fn lemma_insert(s: Seq<(i32, i32)>, c: (i32, i32), i: int)
    requires
        ascending(s),
        0 <= i <= s.len(),
        forall|j: int| 0 <= j < i ==> precedes(#[trigger] s[j], c),
        i < s.len() ==> precedes(c, s[i]),
    ensures
        ascending(s.insert(i, c)),
        points_of(s.insert(i, c)) == points_of(s).insert(point(c)),
{
    let t = s.insert(i, c);
    assert forall|a: int, b: int| 0 <= a < b < t.len() implies precedes(
        #[trigger] t[a],
        #[trigger] t[b],
    ) by {
        if b < i {
            assert(t[a] == s[a] && t[b] == s[b]);
        } else if b == i {
            assert(t[a] == s[a]);
        } else if a < i {
            assert(t[a] == s[a] && t[b] == s[b - 1]);
            if b - 1 > i {
                assert(precedes(s[i], s[b - 1]));
            }
        } else if a == i {
            assert(t[b] == s[b - 1]);
            if b - 1 > i {
                assert(precedes(s[i], s[b - 1]));
            }
        } else {
            assert(t[a] == s[a - 1] && t[b] == s[b - 1]);
        }
    }
    assert forall|p: (int, int)| points_of(t).contains(p) <==> points_of(s).insert(
        point(c),
    ).contains(p) by {
        if points_of(t).contains(p) {
            let k = choose|k: int| 0 <= k < t.len() && point(#[trigger] t[k]) == p;
            if k < i {
                assert(point(s[k]) == p);
            } else if k > i {
                assert(point(s[k - 1]) == p);
            }
        }
        if points_of(s).contains(p) {
            let k = choose|k: int| 0 <= k < s.len() && point(#[trigger] s[k]) == p;
            if k < i {
                assert(point(t[k]) == p);
            } else {
                assert(point(t[k + 1]) == p);
            }
        }
        if p == point(c) {
            assert(point(t[i]) == p);
        }
    }
    assert(points_of(t) =~= points_of(s).insert(point(c)));
}

/// Removing an element keeps the order and takes its point out.
proof fn lemma_remove(s: Seq<(i32, i32)>, i: int)
    requires
        ascending(s),
        0 <= i < s.len(),
    ensures
        ascending(s.remove(i)),
        points_of(s.remove(i)) == points_of(s).remove(point(s[i])),
{
    let t = s.remove(i);
    assert forall|a: int, b: int| 0 <= a < b < t.len() implies precedes(
        #[trigger] t[a],
        #[trigger] t[b],
    ) by {
        let a0 = if a < i { a } else { a + 1 };
        let b0 = if b < i { b } else { b + 1 };
        assert(t[a] == s[a0] && t[b] == s[b0]);
    }
    assert forall|p: (int, int)| points_of(t).contains(p) <==> points_of(s).remove(
        point(s[i]),
    ).contains(p) by {
        if points_of(t).contains(p) {
            let k = choose|k: int| 0 <= k < t.len() && point(#[trigger] t[k]) == p;
            let k0 = if k < i { k } else { k + 1 };
            assert(point(s[k0]) == p);
            if k0 < i {
                assert(precedes(s[k0], s[i]));
            } else {
                assert(precedes(s[i], s[k0]));
            }
        }
        if points_of(s).contains(p) && p != point(s[i]) {
            let k = choose|k: int| 0 <= k < s.len() && point(#[trigger] s[k]) == p;
            if k < i {
                assert(point(t[k]) == p);
            } else {
                assert(point(t[k - 1]) == p);
            }
        }
    }
    assert(points_of(t) =~= points_of(s).remove(point(s[i])));
}

/// An ascending sequence lists as many points as it is long.
proof fn lemma_count(s: Seq<(i32, i32)>)
    requires
        ascending(s),
    ensures
        points_of(s).finite(),
        points_of(s).len() == s.len(),
    decreases s.len(),
{
    if s.len() == 0 {
        assert(points_of(s) =~= Set::<(int, int)>::empty());
    } else {
        let front = s.drop_last();
        let last = s.last();
        lemma_count(front);
        assert forall|j: int| 0 <= j < front.len() implies precedes(#[trigger] front[j], last) by {
            assert(precedes(s[j], s[s.len() - 1]));
        }
        lemma_listed_at(front, last, front.len() as int);
        lemma_insert(front, last, front.len() as int);
        assert(front.insert(front.len() as int, last) =~= s);
    }
}

/// A cell with a live neighbour lies next to a listed coordinate.
proof fn lemma_neighbour_listed(s: Seq<(i32, i32)>, p: (int, int)) -> (j: int)
    requires
        neighbours(points_of(s), p) >= 1,
    ensures
        0 <= j < s.len(),
        near(s[j], p),
{
    let live = points_of(s);
    let q = if live.contains((p.0 - 1, p.1 - 1)) {
        (p.0 - 1, p.1 - 1)
    } else if live.contains((p.0, p.1 - 1)) {
        (p.0, p.1 - 1)
    } else if live.contains((p.0 + 1, p.1 - 1)) {
        (p.0 + 1, p.1 - 1)
    } else if live.contains((p.0 - 1, p.1)) {
        (p.0 - 1, p.1)
    } else if live.contains((p.0 + 1, p.1)) {
        (p.0 + 1, p.1)
    } else if live.contains((p.0 - 1, p.1 + 1)) {
        (p.0 - 1, p.1 + 1)
    } else if live.contains((p.0, p.1 + 1)) {
        (p.0, p.1 + 1)
    } else {
        (p.0 + 1, p.1 + 1)
    };
    assert(live.contains(q));
    choose|j: int| 0 <= j < s.len() && point(#[trigger] s[j]) == q
}

/// Where `c` stands, or would stand, in an ascending vector: found by
/// halving the range that can hold it.
fn position(v: &Vec<(i32, i32)>, c: (i32, i32)) -> (i: usize)
    requires
        ascending(v@),
    ensures
        i <= v.len(),
        forall|j: int| 0 <= j < i ==> precedes(#[trigger] v@[j], c),
        i < v.len() ==> !precedes(v@[i as int], c),
{
    let mut lo: usize = 0;
    let mut hi: usize = v.len();
    while lo < hi
        invariant
            lo <= hi <= v.len(),
            ascending(v@),
            forall|j: int| 0 <= j < lo ==> precedes(#[trigger] v@[j], c),
            forall|j: int| hi <= j < v.len() ==> !precedes(#[trigger] v@[j], c),
        decreases hi - lo,
    {
        let mid = lo + (hi - lo) / 2;
        let e = v[mid];
        if e.1 < c.1 || (e.1 == c.1 && e.0 < c.0) {
            assert forall|j: int| 0 <= j < mid + 1 implies precedes(#[trigger] v@[j], c) by {
                if j < mid {
                    assert(precedes(v@[j], v@[mid as int]));
                }
            }
            lo = mid + 1;
        } else {
            assert forall|j: int| mid <= j < v.len() implies !precedes(#[trigger] v@[j], c) by {
                if j > mid {
                    assert(precedes(v@[mid as int], v@[j]));
                }
            }
            hi = mid;
        }
    }
    lo
}

/// Puts `c` into an ascending vector, unless it is there.
fn put(v: &mut Vec<(i32, i32)>, c: (i32, i32))
    requires
        ascending(old(v)@),
    ensures
        ascending(final(v)@),
        points_of(final(v)@) == points_of(old(v)@).insert(point(c)),
{
    let i = position(v, c);
    proof {
        lemma_listed_at(v@, c, i as int);
    }
    if i < v.len() && v[i].0 == c.0 && v[i].1 == c.1 {
        assert(points_of(v@).insert(point(c)) =~= points_of(v@));
    } else {
        proof {
            lemma_insert(v@, c, i as int);
        }
        v.insert(i, c);
    }
}

/// The live cells of a board.
pub struct LiveSet {
    cells: Vec<(i32, i32)>,
}

impl LiveSet {
    /// The live cells in ascending order: by row, then by column.
    pub closed spec fn listing(&self) -> Seq<(i32, i32)> {
        self.cells@
    }

    /// The set of live points.
    pub open spec fn view(&self) -> Set<(int, int)> {
        points_of(self.listing())
    }

    /// The listing is in order, so no cell stands in it twice.
    pub open spec fn wf(&self) -> bool {
        ascending(self.listing())
    }

    /// The empty board.
    pub fn new() -> (r: LiveSet)
        ensures
            r.wf(),
            r.listing() == Seq::<(i32, i32)>::empty(),
            r@ == Set::<(int, int)>::empty(),
    {
        let r = LiveSet { cells: Vec::new() };
        assert(r@ =~= Set::<(int, int)>::empty());
        r
    }

    /// The board whose live cells are those that `cells` names, in any order
    /// and however often.
    pub fn from_cells(cells: &Vec<(i32, i32)>) -> (r: LiveSet)
        ensures
            r.wf(),
            r@ == points_of(cells@),
    {
        let mut v: Vec<(i32, i32)> = Vec::new();
        let mut i: usize = 0;
        assert(points_of(v@) =~= points_of(cells@.take(0)));
        while i < cells.len()
            invariant
                i <= cells.len(),
                ascending(v@),
                points_of(v@) == points_of(cells@.take(i as int)),
            decreases cells.len() - i,
        {
            let c = cells[i];
            put(&mut v, c);
            proof {
                let a = cells@.take(i as int);
                let b = cells@.take(i + 1);
                assert(b == a.push(c));
                assert forall|p: (int, int)| points_of(b).contains(p) <==> points_of(a).insert(
                    point(c),
                ).contains(p) by {
                    if points_of(b).contains(p) {
                        let k = choose|k: int| 0 <= k < b.len() && point(#[trigger] b[k]) == p;
                        if k < i {
                            assert(point(a[k]) == p);
                        }
                    }
                    if points_of(a).contains(p) {
                        let k = choose|k: int| 0 <= k < a.len() && point(#[trigger] a[k]) == p;
                        assert(point(b[k]) == p);
                    }
                    if p == point(c) {
                        assert(point(b[i as int]) == p);
                    }
                }
                assert(points_of(b) =~= points_of(a).insert(point(c)));
            }
            i += 1;
        }
        assert(cells@.take(i as int) == cells@);
        LiveSet { cells: v }
    }

    /// The board is finite, and its listing is as long as it has live cells.
    pub proof fn lemma_finite(&self)
        requires
            self.wf(),
        ensures
            self@.finite(),
            self@.len() == self.listing().len(),
    {
        lemma_count(self.cells@);
    }

    /// How many cells are live.
    pub fn len(&self) -> (n: usize)
        requires
            self.wf(),
        ensures
            self@.finite(),
            n == self@.len(),
            n == self.listing().len(),
    {
        proof {
            self.lemma_finite();
        }
        self.cells.len()
    }

    /// Whether no cell is live.
    pub fn is_empty(&self) -> (r: bool)
        requires
            self.wf(),
        ensures
            r == (self.listing().len() == 0),
            r == (self@ == Set::<(int, int)>::empty()),
    {
        proof {
            if self.cells@.len() == 0 {
                assert(self@ =~= Set::<(int, int)>::empty());
            } else {
                assert(self@.contains(point(self.cells@[0])));
            }
        }
        self.cells.len() == 0
    }

    /// Whether the cell at `(x, y)` is live.
    pub fn is_live(&self, x: i32, y: i32) -> (r: bool)
        requires
            self.wf(),
        ensures
            r == self@.contains((x as int, y as int)),
    {
        let i = position(&self.cells, (x, y));
        proof {
            lemma_listed_at(self.cells@, (x, y), i as int);
        }
        i < self.cells.len() && self.cells[i].0 == x && self.cells[i].1 == y
    }

    /// The live cells in ascending order: by row, then by column.
    pub fn live_cells(&self) -> (r: Vec<(i32, i32)>)
        requires
            self.wf(),
        ensures
            r@ == self.listing(),
            ascending(r@),
            points_of(r@) == self@,
    {
        let mut r: Vec<(i32, i32)> = Vec::new();
        let mut i: usize = 0;
        while i < self.cells.len()
            invariant
                i <= self.cells.len(),
                r@ == self.cells@.take(i as int),
            decreases self.cells.len() - i,
        {
            r.push(self.cells[i]);
            assert(self.cells@.take(i + 1) == self.cells@.take(i as int).push(self.cells@[i as int]));
            i += 1;
        }
        assert(self.cells@.take(i as int) == self.cells@);
        r
    }

    /// Which of the `w` cells of row `y` from column `x0` on are live, left to
    /// right. Columns beyond the plane hold no live cell.
    pub fn row(&self, y: i32, x0: i32, w: i32) -> (r: Vec<bool>)
        requires
            self.wf(),
            w >= 0,
        ensures
            r@.len() == w,
            forall|i: int| 0 <= i < w ==> #[trigger] r@[i] == self@.contains((x0 + i, y as int)),
    {
        let mut r: Vec<bool> = Vec::new();
        let mut i: i32 = 0;
        while i < w
            invariant
                0 <= i <= w,
                self.wf(),
                r@.len() == i,
                forall|k: int| 0 <= k < i ==> #[trigger] r@[k] == self@.contains((x0 + k, y as int)),
            decreases w - i,
        {
            let live = self.holds(x0 as i64 + i as i64, y as i64);
            r.push(live);
            i += 1;
        }
        r
    }

    /// Flips the cell at `(x, y)`: a live cell dies, a dead one comes alive.
    pub fn toggle(&mut self, x: i32, y: i32)
        requires
            old(self).wf(),
        ensures
            final(self).wf(),
            final(self)@ == flipped(old(self)@, (x as int, y as int)),
    {
        let i = position(&self.cells, (x, y));
        proof {
            lemma_listed_at(self.cells@, (x, y), i as int);
        }
        if i < self.cells.len() && self.cells[i].0 == x && self.cells[i].1 == y {
            proof {
                lemma_remove(self.cells@, i as int);
            }
            self.cells.remove(i);
        } else {
            proof {
                lemma_insert(self.cells@, (x, y), i as int);
            }
            self.cells.insert(i, (x, y));
        }
    }

    /// Makes every cell dead.
    pub fn clear(&mut self)
        ensures
            final(self).wf(),
            final(self)@ == Set::<(int, int)>::empty(),
    {
        self.cells.clear();
        assert(self@ =~= Set::<(int, int)>::empty());
    }

    /// Whether the point `(x, y)` is live; no point off the plane is.
    fn holds(&self, x: i64, y: i64) -> (r: bool)
        requires
            self.wf(),
        ensures
            r == self@.contains((x as int, y as int)),
    {
        if x < i32::MIN as i64 || x > i32::MAX as i64 || y < i32::MIN as i64 || y > i32::MAX as i64 {
            false
        } else {
            self.is_live(x as i32, y as i32)
        }
    }

    /// The number of live cells around `(x, y)`.
    fn count_around(&self, x: i64, y: i64) -> (n: u8)
        requires
            self.wf(),
            i32::MIN - 1 <= x <= i32::MAX + 1,
            i32::MIN - 1 <= y <= i32::MAX + 1,
        ensures
            n == neighbours(self@, (x as int, y as int)),
    {
        let mut n: u8 = 0;
        if self.holds(x - 1, y - 1) {
            n += 1;
        }
        if self.holds(x, y - 1) {
            n += 1;
        }
        if self.holds(x + 1, y - 1) {
            n += 1;
        }
        if self.holds(x - 1, y) {
            n += 1;
        }
        if self.holds(x + 1, y) {
            n += 1;
        }
        if self.holds(x - 1, y + 1) {
            n += 1;
        }
        if self.holds(x, y + 1) {
            n += 1;
        }
        if self.holds(x + 1, y + 1) {
            n += 1;
        }
        n
    }

    /// Adds `(x, y)` to `next` where the rule lets it live in the generation
    /// after this one.
    fn consider(&self, next: &mut Vec<(i32, i32)>, x: i64, y: i64)
        requires
            self.wf(),
            ascending(old(next)@),
            i32::MIN - 1 <= x <= i32::MAX + 1,
            i32::MIN - 1 <= y <= i32::MAX + 1,
        ensures
            ascending(final(next)@),
            points_of(final(next)@) == if next_generation(self@).contains((x as int, y as int)) {
                points_of(old(next)@).insert((x as int, y as int))
            } else {
                points_of(old(next)@)
            },
    {
        if x < i32::MIN as i64 || x > i32::MAX as i64 || y < i32::MIN as i64 || y > i32::MAX as i64 {
            return ;
        }
        let n = self.count_around(x, y);
        let stays = if self.holds(x, y) {
            n == 2 || n == 3
        } else {
            n == 3
        };
        if stays {
            put(next, (x as i32, y as i32));
        }
    }

    /// Adds to `next` those of `c` and the eight cells around it that live
    /// in the generation after this one.
    fn consider_around(&self, next: &mut Vec<(i32, i32)>, c: (i32, i32))
        requires
            self.wf(),
            ascending(old(next)@),
        ensures
            ascending(final(next)@),
            forall|p: (int, int)|
                #![trigger points_of(final(next)@).contains(p)]
                #![trigger near(c, p)]
                points_of(final(next)@).contains(p) <==> (points_of(old(next)@).contains(p) || (
                near(c, p) && next_generation(self@).contains(p))),
    {
        let x: i64 = c.0 as i64;
        let y: i64 = c.1 as i64;
        self.consider(next, x - 1, y - 1);
        self.consider(next, x, y - 1);
        self.consider(next, x + 1, y - 1);
        self.consider(next, x - 1, y);
        self.consider(next, x, y);
        self.consider(next, x + 1, y);
        self.consider(next, x - 1, y + 1);
        self.consider(next, x, y + 1);
        self.consider(next, x + 1, y + 1);
    }

    /// Replaces the board by its next generation. Births and deaths are all
    /// decided on the board as it was before the call.
    pub fn step(&mut self)
        requires
            old(self).wf(),
        ensures
            final(self).wf(),
            final(self)@ == next_generation(old(self)@),
    {
        let mut next: Vec<(i32, i32)> = Vec::new();
        let mut i: usize = 0;
        let ghost now = self@;
        while i < self.cells.len()
            invariant
                i <= self.cells.len(),
                self.wf(),
                self@ == now,
                ascending(next@),
                points_of(next@).subset_of(next_generation(now)),
                forall|j: int, p: (int, int)|
                    0 <= j < i && #[trigger] near(self.cells@[j], p) && next_generation(
                        now,
                    ).contains(p) ==> points_of(next@).contains(p),
            decreases self.cells.len() - i,
        {
            let c = self.cells[i];
            self.consider_around(&mut next, c);
            i += 1;
        }
        proof {
            assert forall|p: (int, int)| next_generation(now).contains(p) implies points_of(
                next@,
            ).contains(p) by {
                let j = lemma_neighbour_listed(self.cells@, p);
                assert(near(self.cells@[j], p));
            }
            assert(points_of(next@) =~= next_generation(now));
        }
        self.cells = next;
    }
}

/// The rule has no memory and no chance in it: equal boards have equal next
/// generations, listed in the same order.
pub proof fn step_is_deterministic(a: LiveSet, b: LiveSet)
    requires
        a.wf(),
        b.wf(),
        a@ == b@,
    ensures
        next_generation(a@) == next_generation(b@),
        a.listing() == b.listing(),
{
    lemma_same_points_same_listing(a.listing(), b.listing());
}

/// Two ascending sequences that list the same points are the same sequence.
pub proof fn lemma_same_points_same_listing(s: Seq<(i32, i32)>, t: Seq<(i32, i32)>)
    requires
        ascending(s),
        ascending(t),
        points_of(s) == points_of(t),
    ensures
        s == t,
    decreases s.len(),
{
    if s.len() == 0 {
        if t.len() > 0 {
            assert(points_of(t).contains(point(t[0])));
            assert(false);
        }
        assert(s =~= t);
    } else {
        assert(points_of(s).contains(point(s[0])));
        let k = choose|k: int| 0 <= k < t.len() && point(#[trigger] t[k]) == point(s[0]);
        assert(points_of(t).contains(point(t[0])));
        let m = choose|m: int| 0 <= m < s.len() && point(#[trigger] s[m]) == point(t[0]);
        if k > 0 {
            assert(precedes(t[0], t[k]));
            if m > 0 {
                assert(precedes(s[0], s[m]));
            }
        }
        assert(s[0] == t[0]);
        lemma_remove(s, 0);
        lemma_remove(t, 0);
        lemma_same_points_same_listing(s.remove(0), t.remove(0));
        assert forall|i: int| 0 <= i < s.len() implies s[i] == t[i] by {
            if i > 0 {
                assert(s.remove(0)[i - 1] == s[i]);
                assert(t.remove(0)[i - 1] == t[i]);
            }
        }
        assert(s.len() == s.remove(0).len() + 1);
        assert(t.len() == t.remove(0).len() + 1);
        assert(s =~= t);
    }
}

/// A board's cells, written down in any order and however often each, make
/// that board again.
pub proof fn board_from_own_cells(b: LiveSet, rows: Seq<(i32, i32)>)
    requires
        forall|c: (i32, i32)|
            #![trigger rows.contains(c)]
            #![trigger b.listing().contains(c)]
            rows.contains(c) <==> b.listing().contains(c),
    ensures
        points_of(rows) == b@,
{
    let own = b.listing();
    assert forall|p: (int, int)| points_of(rows).contains(p) <==> points_of(own).contains(p) by {
        if points_of(rows).contains(p) {
            let i = choose|i: int| 0 <= i < rows.len() && point(#[trigger] rows[i]) == p;
            assert(rows.contains(rows[i]));
            let j = choose|j: int| 0 <= j < own.len() && own[j] == rows[i];
            assert(point(own[j]) == p);
        }
        if points_of(own).contains(p) {
            let i = choose|i: int| 0 <= i < own.len() && point(#[trigger] own[i]) == p;
            assert(own.contains(own[i]));
            let j = choose|j: int| 0 <= j < rows.len() && rows[j] == own[i];
            assert(point(rows[j]) == p);
        }
    }
    assert(points_of(rows) =~= points_of(own));
}

/// Flipping the same cell twice gives the board back.
pub proof fn toggle_twice_restores(s: Set<(int, int)>, p: (int, int))
    ensures
        flipped(flipped(s, p), p) == s,
{
    assert(flipped(flipped(s, p), p) =~= s);
}

} // verus!
