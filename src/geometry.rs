use vstd::prelude::*;

verus! {

/// An axis-aligned rectangle in logical coordinates.
#[derive(Clone, Copy, Debug, PartialEq, Eq, Structural)]
pub struct Rect {
    pub x: i32,
    pub y: i32,
    pub w: i32,
    pub h: i32,
}

impl Rect {
    /// A rectangle at `(x, y)` of size `w` by `h`.
    pub fn new(x: i32, y: i32, w: i32, h: i32) -> (r: Rect)
        ensures
            r == (Rect { x, y, w, h }),
    {
        Rect { x, y, w, h }
    }

    /// An output region that can be tiled: its size is not negative and its
    /// right edge is representable.
    pub open spec fn is_output(self) -> bool {
        &&& 0 <= self.w
        &&& 0 <= self.h
        &&& self.x + self.w <= i32::MAX
    }
}

/// Width of each of `n` columns over `out`: integer division, so that
/// `out.w % n` pixels at the right edge stay uncovered.
pub open spec fn column_width(out: Rect, n: nat) -> int {
    out.w as int / n as int
}

/// The rectangle of column `i` out of `n` over `out`.
pub open spec fn tile_rect(out: Rect, n: nat, i: int) -> Rect {
    Rect {
        x: (out.x + column_width(out, n) * i) as i32,
        y: out.y,
        w: column_width(out, n) as i32,
        h: out.h,
    }
}

/// `rects` is the column layout of `rects.len()` windows over `out`.
pub open spec fn is_layout(out: Rect, rects: Seq<Rect>) -> bool {
    forall|i: int| 0 <= i < rects.len() ==> #[trigger] rects[i] == tile_rect(out, rects.len(), i)
}

/// Sum of the widths of `rects`.
pub open spec fn total_width(rects: Seq<Rect>) -> int
    decreases rects.len(),
{
    if rects.len() == 0 {
        0
    } else {
        total_width(rects.drop_last()) + rects.last().w
    }
}

proof fn lemma_column_bounds(out: Rect, n: nat, i: int)
    requires
        out.is_output(),
        n >= 1,
        0 <= i <= n,
    ensures
        0 <= column_width(out, n),
        0 <= column_width(out, n) * i <= column_width(out, n) * n,
        column_width(out, n) * n == out.w - (out.w as int) % (n as int),
        0 <= (out.w as int) % (n as int) < n,
{
    let w = out.w as int;
    let k = n as int;
    vstd::arithmetic::div_mod::lemma_fundamental_div_mod(w, k);
    assert(0 <= w / k) by (nonlinear_arith)
        requires 0 <= w, 0 < k;
    assert(0 <= (w / k) * i <= (w / k) * k) by (nonlinear_arith)
        requires 0 <= w / k, 0 <= i <= k;
    assert((w / k) * k == k * (w / k)) by (nonlinear_arith);
}

proof fn lemma_tile_fields(out: Rect, n: nat, i: int)
    requires
        out.is_output(),
        n >= 1,
        0 <= i < n,
    ensures
        tile_rect(out, n, i).x == out.x + column_width(out, n) * i,
        tile_rect(out, n, i).w == column_width(out, n),
        tile_rect(out, n, i).y == out.y,
        tile_rect(out, n, i).h == out.h,
{
    lemma_column_bounds(out, n, i);
    assert(column_width(out, n) <= out.w) by {
        vstd::arithmetic::div_mod::lemma_div_is_ordered_by_denominator(out.w as int, 1, n as int);
    }
}

proof fn lemma_prefix_width(out: Rect, rects: Seq<Rect>, k: int)
    requires
        out.is_output(),
        rects.len() >= 1,
        is_layout(out, rects),
        0 <= k <= rects.len(),
    ensures
        total_width(rects.subrange(0, k)) == column_width(out, rects.len()) * k,
    decreases k,
{
    if k > 0 {
        let pre = rects.subrange(0, k);
        assert(pre.drop_last() =~= rects.subrange(0, k - 1));
        lemma_prefix_width(out, rects, k - 1);
        lemma_tile_fields(out, rects.len(), k - 1);
        let c = column_width(out, rects.len());
        assert(rects[k - 1] == tile_rect(out, rects.len(), k - 1));
        assert(pre.last() == rects[k - 1]);
        assert(c * (k - 1) + c == c * k) by (nonlinear_arith);
    } else {
        assert(k == 0);
        assert(column_width(out, rects.len()) * 0 == 0);
    }
}

/// The columns partition the covered part of the output, left to right: the
/// first starts at the output's left edge, each is `out.w / n` wide, each ends
/// where the next begins (no gap, no overlap), and together they are
/// `out.w - out.w % n` wide, so the rightmost `out.w % n` pixels belong to no
/// column.
pub proof fn lemma_layout_partitions(out: Rect, rects: Seq<Rect>)
    requires
        out.is_output(),
        rects.len() >= 1,
        is_layout(out, rects),
    ensures
        forall|i: int|
            0 <= i < rects.len() ==> (#[trigger] rects[i]).w == out.w as int / rects.len() as int
                && rects[i].y == out.y && rects[i].h == out.h,
        rects[0].x == out.x,
        forall|i: int|
            0 <= i < rects.len() - 1 ==> #[trigger] rects[i].x + rects[i].w == rects[i + 1].x,
        rects.last().x + rects.last().w == out.x + out.w - (out.w as int) % (rects.len() as int),
        total_width(rects) == out.w - (out.w as int) % (rects.len() as int),
{
    let n = rects.len();
    let c = column_width(out, n);
    assert forall|i: int| 0 <= i < n implies (#[trigger] rects[i]).w == out.w as int / n as int
        && rects[i].y == out.y && rects[i].h == out.h by {
        lemma_tile_fields(out, n, i);
    }
    lemma_tile_fields(out, n, 0);
    assert(c * 0 == 0);
    assert forall|i: int| 0 <= i < n - 1 implies #[trigger] rects[i].x + rects[i].w == rects[i + 1].x by {
        lemma_tile_fields(out, n, i);
        lemma_tile_fields(out, n, i + 1);
        assert(c * i + c == c * (i + 1)) by (nonlinear_arith);
    }
    lemma_tile_fields(out, n, n - 1);
    lemma_column_bounds(out, n, n as int);
    assert(c * (n - 1) + c == c * n) by (nonlinear_arith);
    lemma_prefix_width(out, rects, n as int);
    assert(rects.subrange(0, n as int) =~= rects);
}

/// The column layout of `n` windows over the output region `out`: column `i`
/// starts at `out.x + (out.w / n) * i`, spans the output's full height and is
/// `out.w / n` wide.
pub fn tile_layout(out: &Rect, n: usize) -> (r: Vec<Rect>)
    requires
        out.is_output(),
    ensures
        r@.len() == n,
        is_layout(*out, r@),
{
    let mut r: Vec<Rect> = Vec::new();
    if n == 0 {
        return r;
    }
    let width: i32 = if n > out.w as usize {
        0
    } else {
        out.w / (n as i32)
    };
    proof {
        lemma_column_bounds(*out, n as nat, 0);
        if n > out.w as usize {
            vstd::arithmetic::div_mod::lemma_basic_div(out.w as int, n as int);
        }
    }
    assert(width == column_width(*out, n as nat));
    let mut x: i32 = out.x;
    let mut i: usize = 0;
    while i < n
        invariant
            out.is_output(),
            n >= 1,
            i <= n,
            width == column_width(*out, n as nat),
            x == out.x + width * i,
            r@.len() == i,
            forall|j: int| 0 <= j < i ==> #[trigger] r@[j] == tile_rect(*out, n as nat, j),
        decreases n - i,
    {
        proof {
            lemma_column_bounds(*out, n as nat, i as int);
            lemma_column_bounds(*out, n as nat, i as int + 1);
            lemma_tile_fields(*out, n as nat, i as int);
        }
        let rect = Rect { x, y: out.y, w: width, h: out.h };
        r.push(rect);
        assert(width * (i + 1) == width * i + width) by (nonlinear_arith);
        x = x + width;
        i = i + 1;
    }
    r
}

} // verus!
