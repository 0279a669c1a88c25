//! Moving rows of items inside one row-major buffer, in place.
//!
//! A scroll moves a rectangle of the screen onto another one that it usually
//! overlaps. The rows are copied one by one inside the buffer, in the order
//! that keeps a row from being overwritten before it was read.

use vstd::prelude::*;

verus! {

/// `s` after the `len` items at `from` were copied to `to`, as if through a
/// temporary buffer.
pub open spec fn copied<T>(s: Seq<T>, from: int, to: int, len: int) -> Seq<T> {
    Seq::new(s.len(), |i: int| if to <= i < to + len { s[from + (i - to)] } else { s[i] })
}

/// Copies `len` items from `from` to `to` inside `buf`. The two ranges may
/// overlap.
pub fn copy_within<T: Copy>(buf: &mut [T], from: usize, to: usize, len: usize)
    requires
        from + len <= old(buf)@.len(),
        to + len <= old(buf)@.len(),
    ensures
        final(buf)@ == copied(old(buf)@, from as int, to as int, len as int),
        final(buf)@.len() == old(buf)@.len(),
{
    let ghost before = buf@;
    let n = buf.len();
    if from > to {
        let mut k: usize = 0;
        while k < len
            invariant
                from > to,
                k <= len,
                from + len <= before.len(),
                to + len <= before.len(),
                buf@.len() == before.len(),
                n == before.len(),
                forall|i: int|
                    0 <= i < before.len() ==> buf@[i] == if to <= i < to + k {
                        before[from + (i - to)]
                    } else {
                        before[i]
                    },
            decreases len - k,
        {
            let item = buf[from + k];
            buf[to + k] = item;
            k += 1;
        }
    } else {
        let mut k: usize = len;
        while k > 0
            invariant
                from <= to,
                k <= len,
                from + len <= before.len(),
                to + len <= before.len(),
                buf@.len() == before.len(),
                n == before.len(),
                forall|i: int|
                    0 <= i < before.len() ==> buf@[i] == if to + k <= i < to + len {
                        before[from + (i - to)]
                    } else {
                        before[i]
                    },
            decreases k,
        {
            k -= 1;
            let item = buf[from + k];
            buf[to + k] = item;
        }
    }
    assert(buf@ =~= copied(before, from as int, to as int, len as int));
}


/// A rectangle of a row-major buffer and the place it is moved to.
///
/// The buffer has `stride` items in a line. The rectangle is `rows` bands
/// tall, each band `sub` lines, and `len` items wide. A band is a row of
/// character cells: one line of a cell grid, or as many pixel lines as a
/// cell is tall.
#[derive(Clone, Copy, Debug)]
pub struct RowMove {
    pub stride: usize,
    pub sub: usize,
    pub from_x: usize,
    pub from_y: usize,
    pub to_x: usize,
    pub to_y: usize,
    pub len: usize,
    pub rows: usize,
}

impl RowMove {
    /// Whether the source lies below the target, so that the content moves
    /// up and the bands are copied from the top one down.
    pub open spec fn upward(self) -> bool {
        self.from_y > self.to_y
    }

    /// The band that is copied as number `q`.
    pub open spec fn band(self, q: int) -> int {
        if self.upward() {
            q
        } else {
            self.rows - 1 - q
        }
    }

    /// The buffer line that line `l` of band `y` is read from.
    pub open spec fn from_line(self, y: int, l: int) -> int {
        (self.from_y + y) * self.sub + l
    }

    /// The buffer line that line `l` of band `y` is written to.
    pub open spec fn to_line(self, y: int, l: int) -> int {
        (self.to_y + y) * self.sub + l
    }

    /// Where the items of line `l` of band `y` are read.
    pub open spec fn source(self, y: int, l: int) -> int {
        self.from_line(y, l) * self.stride + self.from_x
    }

    /// Where the items of line `l` of band `y` are written.
    pub open spec fn target(self, y: int, l: int) -> int {
        self.to_line(y, l) * self.stride + self.to_x
    }

    /// Whether line `l` of band `y` lies inside a buffer of `n` items, where
    /// it is read and where it is written. A line that does not is left out.
    pub open spec fn fits(self, y: int, l: int, n: int) -> bool {
        self.source(y, l) + self.len <= n && self.target(y, l) + self.len <= n
    }

    /// Whether line `l` of band `y` is copied and item `i` is one it writes.
    pub open spec fn hits(self, y: int, l: int, n: int, i: int) -> bool {
        &&& 0 <= y < self.rows
        &&& 0 <= l < self.sub
        &&& self.fits(y, l, n)
        &&& self.target(y, l) <= i < self.target(y, l) + self.len
    }

    /// Whether the move writes item `i` of a buffer of `n` items.
    pub open spec fn writes(self, n: int, i: int) -> bool {
        exists|y: int, l: int| #[trigger] self.hits(y, l, n, i)
    }

    /// Whether no line of the rectangle runs over the end of a buffer line,
    /// at the source or at the target.
    pub open spec fn within_lines(self) -> bool {
        self.from_x + self.len <= self.stride && self.to_x + self.len <= self.stride
    }
}

/// `s` after line `l` of band `y` was copied, if it fits.
pub open spec fn line_moved<T>(s: Seq<T>, m: RowMove, y: int, l: int) -> Seq<T> {
    if m.fits(y, l, s.len() as int) {
        copied(s, m.source(y, l), m.target(y, l), m.len as int)
    } else {
        s
    }
}

/// `s` after the first `l` lines of band `y` were copied, the topmost first.
pub open spec fn lines_moved<T>(s: Seq<T>, m: RowMove, y: int, l: int) -> Seq<T>
    decreases l,
{
    if l <= 0 {
        s
    } else {
        line_moved(lines_moved(s, m, y, l - 1), m, y, l - 1)
    }
}

/// `s` after the first `q` bands were copied, in the order of the move.
pub open spec fn bands_moved<T>(s: Seq<T>, m: RowMove, q: int) -> Seq<T>
    decreases q,
{
    if q <= 0 {
        s
    } else {
        lines_moved(bands_moved(s, m, q - 1), m, m.band(q - 1), m.sub as int)
    }
}

/// `s` after the whole rectangle was moved: band by band, from the top down
/// where the content moves up and from the bottom up otherwise.
pub open spec fn moved<T>(s: Seq<T>, m: RowMove) -> Seq<T> {
    bands_moved(s, m, m.rows as int)
}

/// Where a line starts in the buffer, unless that is beyond what `usize`
/// can hold.
pub(crate) fn line_start(base: usize, y: usize, sub: usize, l: usize, stride: usize, x: usize) -> (start:
    Option<usize>)
    requires
        l < sub,
    ensures
        match start {
            Some(v) => v == ((base + y) * sub + l) * stride + x,
            None => ((base + y) * sub + l) * stride + x > usize::MAX,
        },
{
    if stride == 0 {
        assert(((base + y) * sub + l) * 0 == 0) by (nonlinear_arith);
        return Some(x);
    }
    let band = match base.checked_add(y) {
        Some(v) => v,
        None => {
            assert(((base + y) * sub + l) * stride + x > usize::MAX) by (nonlinear_arith)
                requires
                    base + y > usize::MAX,
                    sub >= 1,
                    stride >= 1,
                    l >= 0,
                    x >= 0,
            ;
            return None;
        },
    };
    let first = match band.checked_mul(sub) {
        Some(v) => v,
        None => {
            assert((band * sub + l) * stride + x > usize::MAX) by (nonlinear_arith)
                requires
                    band * sub > usize::MAX,
                    stride >= 1,
                    l >= 0,
                    x >= 0,
            ;
            return None;
        },
    };
    let line = match first.checked_add(l) {
        Some(v) => v,
        None => {
            assert((first + l) * stride + x > usize::MAX) by (nonlinear_arith)
                requires
                    first + l > usize::MAX,
                    stride >= 1,
                    x >= 0,
            ;
            return None;
        },
    };
    let offset = match line.checked_mul(stride) {
        Some(v) => v,
        None => {
            return None;
        },
    };
    offset.checked_add(x)
}

/// Moves the rectangle inside `buf`, in place. Lines that do not lie inside
/// the buffer are left out; the others are copied band by band in the order
/// that the direction of the move asks for.
pub fn move_rows<T: Copy>(buf: &mut [T], m: &RowMove)
    ensures
        final(buf)@ == moved(old(buf)@, *m),
        final(buf)@.len() == old(buf)@.len(),
{
    let ghost before = buf@;
    let n = buf.len();
    let mut q: usize = 0;
    while q < m.rows
        invariant
            q <= m.rows,
            n == before.len(),
            buf@.len() == before.len(),
            buf@ == bands_moved(before, *m, q as int),
        decreases m.rows - q,
    {
        let y = if m.from_y > m.to_y {
            q
        } else {
            m.rows - 1 - q
        };
        let ghost band_start = buf@;
        let mut l: usize = 0;
        while l < m.sub
            invariant
                l <= m.sub,
                n == before.len(),
                buf@.len() == before.len(),
                band_start.len() == before.len(),
                buf@ == lines_moved(band_start, *m, y as int, l as int),
            decreases m.sub - l,
        {
            let from = line_start(m.from_y, y, m.sub, l, m.stride, m.from_x);
            let to = line_start(m.to_y, y, m.sub, l, m.stride, m.to_x);
            if m.len <= n {
                if let Some(f) = from {
                    if let Some(t) = to {
                        if f <= n - m.len && t <= n - m.len {
                            copy_within(buf, f, t, m.len);
                        }
                    }
                }
            }
            l += 1;
        }
        q += 1;
    }
}


/// Two items on different buffer lines are different items, as long as
/// neither line's span runs over the line's end.
proof fn lemma_lines_apart(stride: int, x1: int, x2: int, len: int, r1: int, r2: int, d1: int, d2: int)
    requires
        r1 != r2,
        0 <= x1,
        0 <= x2,
        x1 + len <= stride,
        x2 + len <= stride,
        0 <= d1 < len,
        0 <= d2 < len,
    ensures
        r1 * stride + x1 + d1 != r2 * stride + x2 + d2,
{
    if r1 < r2 {
        assert((r1 + 1) * stride <= r2 * stride) by (nonlinear_arith)
            requires
                r1 + 1 <= r2,
                stride >= 0,
        ;
        assert((r1 + 1) * stride == r1 * stride + stride) by (nonlinear_arith);
    } else {
        assert((r2 + 1) * stride <= r1 * stride) by (nonlinear_arith)
            requires
                r2 + 1 <= r1,
                stride >= 0,
        ;
        assert((r2 + 1) * stride == r2 * stride + stride) by (nonlinear_arith);
    }
}

/// Lines of a lower band come before the lines of a higher one.
proof fn lemma_band_order(sub: int, a: int, b: int, l1: int, l2: int)
    requires
        a < b,
        0 <= l1 < sub,
        0 <= l2 < sub,
    ensures
        a * sub + l1 < b * sub + l2,
{
    assert((a + 1) * sub <= b * sub) by (nonlinear_arith)
        requires
            a + 1 <= b,
            sub >= 0,
    ;
    assert((a + 1) * sub == a * sub + sub) by (nonlinear_arith);
}

impl RowMove {
    /// Whether line `l` of band `y` has had its turn once `q` bands are
    /// through and `j` lines of the next.
    spec fn done(self, q: int, j: int, y: int, l: int) -> bool {
        &&& 0 <= y < self.rows
        &&& 0 <= l < self.sub
        &&& if self.upward() {
            y < q || (y == q && l < j)
        } else {
            y > self.rows - 1 - q || (y == self.rows - 1 - q && l < j)
        }
    }

    /// Whether a line that has had its turn wrote item `i`.
    spec fn touched(self, q: int, j: int, n: int, i: int) -> bool {
        exists|y: int, l: int| #[trigger] self.hits(y, l, n, i) && self.done(q, j, y, l)
    }

    /// What holds of the buffer `t` that `s` has become once `q` bands are
    /// through and `j` lines of the next: what was written holds what `s`
    /// held at its source, and the rest is as it was.
    spec fn settled<T>(self, s: Seq<T>, t: Seq<T>, q: int, j: int) -> bool {
        &&& t.len() == s.len()
        &&& forall|y: int, l: int, d: int|
            self.done(q, j, y, l) && self.fits(y, l, s.len() as int) && 0 <= d < self.len
                ==> t[#[trigger] self.target_at(y, l, d)] == s[self.source(y, l) + d]
        &&& forall|i: int|
            0 <= i < s.len() && !self.touched(q, j, s.len() as int, i) ==> #[trigger] t[i] == s[i]
    }

    /// Item `d` of the written line `l` of band `y`.
    pub open spec fn target_at(self, y: int, l: int, d: int) -> int {
        self.target(y, l) + d
    }

    /// The line that is read next was written by no line before it.
    proof fn lemma_source_untouched(self, q: int, j: int, n: int, d: int)
        requires
            self.within_lines(),
            0 <= q < self.rows,
            0 <= j < self.sub,
            0 <= d < self.len,
        ensures
            !self.touched(q, j, n, self.source(self.band(q), j) + d),
    {
        let y0 = self.band(q);
        let i = self.source(y0, j) + d;
        assert forall|y: int, l: int| #[trigger] self.hits(y, l, n, i) && self.done(q, j, y, l)
            implies false by {
            if y != y0 {
                if self.from_y + y0 < self.to_y + y {
                    lemma_band_order(self.sub as int, self.from_y + y0, self.to_y + y, j, l);
                } else {
                    lemma_band_order(self.sub as int, self.to_y + y, self.from_y + y0, l, j);
                }
            } else if self.from_y < self.to_y {
                lemma_band_order(self.sub as int, self.from_y + y0, self.to_y + y, j, l);
            } else if self.from_y > self.to_y {
                lemma_band_order(self.sub as int, self.to_y + y, self.from_y + y0, l, j);
            }
            assert(self.to_line(y, l) != self.from_line(y0, j));
            lemma_lines_apart(
                self.stride as int,
                self.from_x as int,
                self.to_x as int,
                self.len as int,
                self.from_line(y0, j),
                self.to_line(y, l),
                d,
                i - self.target(y, l),
            );
        }
    }

    /// Two different lines write different items.
    proof fn lemma_targets_apart(self, y1: int, l1: int, y2: int, l2: int, d1: int, d2: int)
        requires
            self.within_lines(),
            0 <= l1 < self.sub,
            0 <= l2 < self.sub,
            y1 != y2 || l1 != l2,
            0 <= d1 < self.len,
            0 <= d2 < self.len,
        ensures
            self.target(y1, l1) + d1 != self.target(y2, l2) + d2,
    {
        if y1 < y2 {
            lemma_band_order(self.sub as int, self.to_y + y1, self.to_y + y2, l1, l2);
        } else if y2 < y1 {
            lemma_band_order(self.sub as int, self.to_y + y2, self.to_y + y1, l2, l1);
        }
        lemma_lines_apart(
            self.stride as int,
            self.to_x as int,
            self.to_x as int,
            self.len as int,
            self.to_line(y1, l1),
            self.to_line(y2, l2),
            d1,
            d2,
        );
    }

    /// Copying the next line keeps the buffer settled.
    proof fn lemma_line_settles<T>(self, s: Seq<T>, t: Seq<T>, q: int, j: int)
        requires
            self.within_lines(),
            0 <= q < self.rows,
            0 <= j < self.sub,
            self.settled(s, t, q, j),
        ensures
            self.settled(s, line_moved(t, self, self.band(q), j), q, j + 1),
    {
        let n = s.len() as int;
        let y0 = self.band(q);
        let u = line_moved(t, self, y0, j);
        assert(self.done(q, j + 1, y0, j));
        assert forall|y: int, l: int, d: int|
            self.done(q, j + 1, y, l) && self.fits(y, l, n) && 0 <= d < self.len implies u[#[trigger] self.target_at(
            y,
            l,
            d,
        )] == s[self.source(y, l) + d] by {
            if y == y0 && l == j {
                self.lemma_source_untouched(q, j, n, d);
                assert(t[self.source(y0, j) + d] == s[self.source(y0, j) + d]);
            } else {
                assert(self.done(q, j, y, l));
                assert(t[self.target_at(y, l, d)] == s[self.source(y, l) + d]);
                let i = self.target_at(y, l, d);
                if self.fits(y0, j, n) && self.target(y0, j) <= i < self.target(y0, j) + self.len {
                    self.lemma_targets_apart(y0, j, y, l, i - self.target(y0, j), d);
                }
            }
        }
        assert forall|i: int| 0 <= i < n && !self.touched(q, j + 1, n, i) implies #[trigger] u[i]
            == s[i] by {
            if self.touched(q, j, n, i) {
                let (y, l) = choose|y: int, l: int|
                    #[trigger] self.hits(y, l, n, i) && self.done(q, j, y, l);
                assert(self.hits(y, l, n, i) && self.done(q, j + 1, y, l));
            }
            if self.fits(y0, j, n) && self.target(y0, j) <= i < self.target(y0, j) + self.len {
                assert(self.hits(y0, j, n, i));
            }
            assert(t[i] == s[i]);
        }
    }

    /// Copying the lines of the next band keeps the buffer settled.
    proof fn lemma_lines_settle<T>(self, s: Seq<T>, t: Seq<T>, q: int, j: int)
        requires
            self.within_lines(),
            0 <= q < self.rows,
            0 <= j <= self.sub,
            self.settled(s, t, q, 0),
        ensures
            self.settled(s, lines_moved(t, self, self.band(q), j), q, j),
        decreases j,
    {
        if j > 0 {
            self.lemma_lines_settle(s, t, q, j - 1);
            self.lemma_line_settles(s, lines_moved(t, self, self.band(q), j - 1), q, j - 1);
        }
    }

    /// Copying band after band keeps the buffer settled.
    proof fn lemma_bands_settle<T>(self, s: Seq<T>, q: int)
        requires
            self.within_lines(),
            0 <= q <= self.rows,
        ensures
            self.settled(s, bands_moved(s, self, q), q, 0),
        decreases q,
    {
        let n = s.len() as int;
        if q > 0 {
            self.lemma_bands_settle(s, q - 1);
            let t = bands_moved(s, self, q - 1);
            self.lemma_lines_settle(s, t, q - 1, self.sub as int);
            let u = bands_moved(s, self, q);
            assert forall|y: int, l: int| self.done(q, 0, y, l) == self.done(q - 1, self.sub as int, y, l) by {}
            assert forall|i: int| self.touched(q, 0, n, i) == self.touched(q - 1, self.sub as int, n, i) by {
                if self.touched(q, 0, n, i) {
                    let (y, l) = choose|y: int, l: int|
                        #[trigger] self.hits(y, l, n, i) && self.done(q, 0, y, l);
                    assert(self.hits(y, l, n, i) && self.done(q - 1, self.sub as int, y, l));
                }
                if self.touched(q - 1, self.sub as int, n, i) {
                    let (y, l) = choose|y: int, l: int|
                        #[trigger] self.hits(y, l, n, i) && self.done(q - 1, self.sub as int, y, l);
                    assert(self.hits(y, l, n, i) && self.done(q, 0, y, l));
                }
            }
        } else {
            assert forall|i: int| !self.touched(0, 0, n, i) by {}
        }
    }
}

/// Moving a rectangle in place gives what a copy through a temporary buffer
/// gives, whichever way it moves and however source and target overlap:
/// every item that is written holds what the buffer held at its source
/// before the move, and every other item is as it was. This holds of every
/// rectangle whose lines stay inside the buffer's lines.
pub proof fn lemma_move_is_copy_through_temporary<T>(s: Seq<T>, m: RowMove)
    requires
        m.within_lines(),
    ensures
        moved(s, m).len() == s.len(),
        forall|y: int, l: int, d: int|
            0 <= y < m.rows && 0 <= l < m.sub && 0 <= d < m.len && m.fits(y, l, s.len() as int)
                ==> moved(s, m)[#[trigger] m.target_at(y, l, d)] == s[m.source(y, l) + d],
        forall|i: int|
            0 <= i < s.len() && !m.writes(s.len() as int, i) ==> #[trigger] moved(s, m)[i] == s[i],
{
    let n = s.len() as int;
    let rows = m.rows as int;
    m.lemma_bands_settle(s, rows);
    assert forall|y: int, l: int| 0 <= y < m.rows && 0 <= l < m.sub implies m.done(rows, 0, y, l) by {}
    assert forall|i: int| 0 <= i < n && !m.writes(n, i) implies !m.touched(rows, 0, n, i) by {
        if m.touched(rows, 0, n, i) {
            let (y, l) = choose|y: int, l: int|
                #[trigger] m.hits(y, l, n, i) && m.done(rows, 0, y, l);
            assert(m.hits(y, l, n, i));
        }
    }
}

} // verus!
