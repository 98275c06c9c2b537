//! Compressor lanes: rolling windows of projected rows, pooled into one row at the end of each.
use vstd::prelude::*;

use crate::engine::hybrid::select::NEG_INF;

verus! {

/// Elements of a row of a lane: twice a head at ratio 4, where the window before is pooled too.
pub open spec fn lane_width(ratio: nat, head_dim: nat) -> nat {
    if ratio == 4 {
        2 * head_dim
    } else {
        head_dim
    }
}

/// Rows of a lane: two windows at ratio 4, else one.
pub open spec fn lane_rows(ratio: nat) -> nat {
    if ratio == 4 {
        2 * ratio
    } else {
        ratio
    }
}

/// Elements of a lane.
pub open spec fn lane_elems(ratio: nat, head_dim: nat) -> nat {
    lane_rows(ratio) * lane_width(ratio, head_dim)
}

/// The row that the token at a position goes to.
pub open spec fn row_of(ratio: nat, pos: nat) -> nat {
    if ratio == 4 {
        ratio + pos % ratio
    } else {
        pos % ratio
    }
}

/// A window ends at a position.
pub open spec fn emits(ratio: nat, pos: nat) -> bool {
    ratio != 0 && (pos + 1) % ratio == 0
}

/// Whether a window ends at a position; never where nothing is compressed.
pub fn ends_window(ratio: u32, pos: u32) -> (r: bool)
    ensures
        r == emits(ratio as nat, pos as nat),
{
    ratio != 0 && (pos as u64 + 1) % ratio as u64 == 0
}

/// Width, rows and elements of a lane.
pub fn lane_size(ratio: u32, head_dim: u32) -> (r: (u32, u32, usize))
    requires
        lane_elems(ratio as nat, head_dim as nat) <= u32::MAX,
        lane_width(ratio as nat, head_dim as nat) <= u32::MAX,
    ensures
        r.0 == lane_width(ratio as nat, head_dim as nat),
        r.1 == lane_rows(ratio as nat),
        r.2 == lane_elems(ratio as nat, head_dim as nat),
{
    let (width, rows): (u32, u32) = if ratio == 4 {
        (2 * head_dim, 8)
    } else {
        (head_dim, ratio)
    };
    (width, rows, (rows * width) as usize)
}

/// The rows of a lane after the first `n` tokens of a run that begins at position `p0`.
pub open spec fn fed(
    rows: Seq<Seq<u32>>,
    ratio: nat,
    p0: nat,
    run: Seq<Seq<u32>>,
    n: nat,
) -> Seq<Seq<u32>>
    decreases n,
{
    if n == 0 {
        rows
    } else {
        let k = (n - 1) as nat;
        fed(rows, ratio, p0, run, k).update(row_of(ratio, p0 + k) as int, run[k as int])
    }
}

/// The rows of a lane once its window has been pooled.
pub open spec fn shifted(rows: Seq<Seq<u32>>, ratio: nat) -> Seq<Seq<u32>> {
    if ratio == 4 {
        Seq::new(
            rows.len(),
            |i: int|
                if i < 4 {
                    rows[i + 4]
                } else {
                    rows[i]
                },
        )
    } else {
        rows
    }
}

/// A window that begins at a multiple of the ratio ends up in order in the rows of the lane, and no
/// other row changes.
pub proof fn law_window(rows: Seq<Seq<u32>>, ratio: nat, p0: nat, run: Seq<Seq<u32>>, n: nat)
    requires
        ratio > 0,
        p0 % ratio == 0,
        n <= ratio,
        n <= run.len(),
        rows.len() == lane_rows(ratio),
    ensures
        fed(rows, ratio, p0, run, n).len() == rows.len(),
        forall|i: int|
            0 <= i < rows.len() ==> #[trigger] fed(rows, ratio, p0, run, n)[i] == (if row_of(
                ratio,
                0,
            ) <= i < row_of(ratio, 0) + n {
                run[i - row_of(ratio, 0)]
            } else {
                rows[i]
            }),
    decreases n,
{
    if n > 0 {
        let k = (n - 1) as nat;
        law_window(rows, ratio, p0, run, k);
        lemma_in_window(ratio, p0, k);
    }
}

proof fn lemma_in_window(ratio: nat, p0: nat, k: nat)
    requires
        ratio > 0,
        p0 % ratio == 0,
        k < ratio,
    ensures
        (p0 + k) % ratio == k,
        row_of(ratio, p0 + k) == row_of(ratio, 0) + k,
        row_of(ratio, p0 + k) < lane_rows(ratio),
{
    let q = p0 / ratio;
    vstd::arithmetic::div_mod::lemma_fundamental_div_mod(p0 as int, ratio as int);
    vstd::arithmetic::div_mod::lemma_fundamental_div_mod_converse(
        (p0 + k) as int,
        ratio as int,
        q as int,
        k as int,
    );
    vstd::arithmetic::div_mod::lemma_small_mod(0, ratio);
}

/// At the end of the second of two windows of ratio 4, the lane holds the first window in its first
/// four rows and the second in the other four.
pub proof fn law_two_windows(rows: Seq<Seq<u32>>, p0: nat, a: Seq<Seq<u32>>, b: Seq<Seq<u32>>)
    requires
        rows.len() == 8,
        p0 % 4 == 0,
        a.len() == 4,
        b.len() == 4,
    ensures
        fed(shifted(fed(rows, 4, p0, a, 4), 4), 4, p0 + 4, b, 4) == a + b,
{
    law_window(rows, 4, p0, a, 4);
    let s = shifted(fed(rows, 4, p0, a, 4), 4);
    law_window(s, 4, p0 + 4, b, 4);
    assert(fed(s, 4, p0 + 4, b, 4) =~= a + b);
}

/// Windows end once every `ratio` positions, and before a position that is a multiple of it.
pub proof fn law_emits(ratio: nat, p0: nat, k: nat)
    requires
        ratio > 0,
        p0 % ratio == 0,
        k < ratio,
    ensures
        emits(ratio, p0 + k) <==> k == ratio - 1,
{
    let q = p0 / ratio;
    vstd::arithmetic::div_mod::lemma_fundamental_div_mod(p0 as int, ratio as int);
    if k == ratio - 1 {
        assert(ratio * q + ratio == ratio * (q + 1)) by (nonlinear_arith);
        vstd::arithmetic::div_mod::lemma_fundamental_div_mod_converse(
            (p0 + k + 1) as int,
            ratio as int,
            (q + 1) as int,
            0,
        );
    } else {
        vstd::arithmetic::div_mod::lemma_fundamental_div_mod_converse(
            (p0 + k + 1) as int,
            ratio as int,
            q as int,
            (k + 1) as int,
        );
    }
}

/// How many windows have ended before a position.
pub open spec fn ended(ratio: nat, pos: nat) -> nat {
    if ratio == 0 {
        0
    } else {
        pos / ratio
    }
}

/// The number of windows that have ended grows exactly at the positions where one ends.
pub proof fn law_ended(ratio: nat, pos: nat)
    ensures
        ended(ratio, pos + 1) == ended(ratio, pos) + (if emits(ratio, pos) {
            1nat
        } else {
            0nat
        }),
{
    if ratio > 0 {
        let q = (pos / ratio) as int;
        let m = (pos % ratio) as int;
        vstd::arithmetic::div_mod::lemma_fundamental_div_mod(pos as int, ratio as int);
        if m == ratio - 1 {
            assert(ratio * q + ratio == ratio * (q + 1)) by (nonlinear_arith);
            vstd::arithmetic::div_mod::lemma_fundamental_div_mod_converse(
                (pos + 1) as int,
                ratio as int,
                q + 1,
                0,
            );
        } else {
            vstd::arithmetic::div_mod::lemma_fundamental_div_mod_converse(
                (pos + 1) as int,
                ratio as int,
                q,
                m + 1,
            );
        }
    }
}

/// The rows of a flat list.
pub open spec fn rows_of(flat: Seq<u32>, width: nat, n: nat) -> Seq<Seq<u32>> {
    Seq::new(n, |i: int| flat.subrange(i * width, i * width + width))
}

/// One compressor lane's rolling state: values and scores as patterns of single precision.
pub struct CompLane {
    pub st_kv: Vec<u32>,
    pub st_sc: Vec<u32>,
    pub width: usize,
    pub head_dim: usize,
    pub ratio: usize,
}

impl CompLane {
    /// The invariant of a lane.
    pub open spec fn wf(self) -> bool {
        &&& self.ratio > 0
        &&& self.width == lane_width(self.ratio as nat, self.head_dim as nat)
        &&& self.st_kv@.len() == lane_elems(self.ratio as nat, self.head_dim as nat)
        &&& self.st_sc@.len() == lane_elems(self.ratio as nat, self.head_dim as nat)
    }

    /// The rows of values.
    pub open spec fn kv(self) -> Seq<Seq<u32>> {
        rows_of(self.st_kv@, self.width as nat, lane_rows(self.ratio as nat))
    }

    /// The rows of scores.
    pub open spec fn sc(self) -> Seq<Seq<u32>> {
        rows_of(self.st_sc@, self.width as nat, lane_rows(self.ratio as nat))
    }

    /// A lane that has seen nothing.
    pub open spec fn fresh(self) -> bool {
        &&& forall|i: int| 0 <= i < self.st_kv@.len() ==> #[trigger] self.st_kv@[i] == 0
        &&& forall|i: int| 0 <= i < self.st_sc@.len() ==> #[trigger] self.st_sc@[i] == NEG_INF
    }

    pub fn new(ratio: u32, head_dim: u32) -> (r: CompLane)
        requires
            ratio > 0,
            lane_elems(ratio as nat, head_dim as nat) <= usize::MAX,
            lane_width(ratio as nat, head_dim as nat) <= usize::MAX,
            lane_rows(ratio as nat) <= usize::MAX,
        ensures
            r.wf(),
            r.fresh(),
            r.ratio == ratio,
            r.head_dim == head_dim,
    {
        let (width, rows): (usize, usize) = if ratio == 4 {
            (2 * head_dim as usize, 8)
        } else {
            (head_dim as usize, ratio as usize)
        };
        let n: usize = rows * width;
        let mut st_kv: Vec<u32> = Vec::new();
        let mut st_sc: Vec<u32> = Vec::new();
        let mut i: usize = 0;
        while i < n
            invariant
                i <= n,
                st_kv@.len() == i,
                st_sc@.len() == i,
                forall|k: int| 0 <= k < i ==> #[trigger] st_kv@[k] == 0,
                forall|k: int| 0 <= k < i ==> #[trigger] st_sc@[k] == NEG_INF,
            decreases n - i,
        {
            st_kv.push(0);
            st_sc.push(NEG_INF);
            i = i + 1;
        }
        CompLane { st_kv, st_sc, width, head_dim: head_dim as usize, ratio: ratio as usize }
    }

    pub fn reset(&mut self)
        requires
            old(self).wf(),
        ensures
            final(self).wf(),
            final(self).fresh(),
            final(self).ratio == old(self).ratio,
            final(self).head_dim == old(self).head_dim,
    {
        let n: usize = self.st_kv.len();
        let mut i: usize = 0;
        while i < n
            invariant
                i <= n,
                n == self.st_kv@.len(),
                n == self.st_sc@.len(),
                self.wf(),
                self.ratio == old(self).ratio,
                self.head_dim == old(self).head_dim,
                forall|k: int| 0 <= k < i ==> #[trigger] self.st_kv@[k] == 0,
                forall|k: int| 0 <= k < i ==> #[trigger] self.st_sc@[k] == NEG_INF,
            decreases n - i,
        {
            self.st_kv.set(i, 0);
            self.st_sc.set(i, NEG_INF);
            i = i + 1;
        }
    }

    /// Where the positional addends of a position begin.
    pub fn ape_base(&self, pos: u32) -> (r: usize)
        requires
            self.wf(),
        ensures
            r == (pos as int % self.ratio as int) * self.width,
            r + self.width <= self.ratio * self.width,
    {
        let m: usize = pos as usize % self.ratio;
        let r: usize = self.ratio;
        let w: usize = self.width;
        let n: usize = self.st_kv.len();
        assert(m * w + w <= r * w) by (nonlinear_arith)
            requires
                m < r,
                0 <= w,
        ;
        assert(r * w <= lane_rows(r as nat) * w) by (nonlinear_arith)
            requires
                r <= lane_rows(r as nat),
                0 <= w,
        ;
        m * w
    }

    /// Stores the row of a token: values, and scores with their positional addends. Tells whether a
    /// window ends there.
    pub fn feed(&mut self, kv_cur: &[u32], sc_cur: &[u32], pos: u32) -> (r: bool)
        requires
            old(self).wf(),
            kv_cur@.len() == old(self).width,
            sc_cur@.len() == old(self).width,
        ensures
            final(self).wf(),
            final(self).ratio == old(self).ratio,
            final(self).head_dim == old(self).head_dim,
            final(self).kv() == old(self).kv().update(
                row_of(old(self).ratio as nat, pos as nat) as int,
                kv_cur@,
            ),
            final(self).sc() == old(self).sc().update(
                row_of(old(self).ratio as nat, pos as nat) as int,
                sc_cur@,
            ),
            r == emits(old(self).ratio as nat, pos as nat),
    {
        let m: usize = pos as usize % self.ratio;
        let row: usize = if self.ratio == 4 {
            4 + m
        } else {
            m
        };
        let ghost n = lane_rows(self.ratio as nat);
        put_row(&mut self.st_kv, self.width, row, kv_cur, Ghost(n));
        put_row(&mut self.st_sc, self.width, row, sc_cur, Ghost(n));
        (pos as u64 + 1) % self.ratio as u64 == 0
    }

    /// Once a window is pooled, at ratio 4 its rows become the rows of the window before.
    pub fn shift(&mut self)
        requires
            old(self).wf(),
        ensures
            final(self).wf(),
            final(self).ratio == old(self).ratio,
            final(self).head_dim == old(self).head_dim,
            final(self).kv() == shifted(old(self).kv(), old(self).ratio as nat),
            final(self).sc() == shifted(old(self).sc(), old(self).ratio as nat),
    {
        if self.ratio == 4 {
            let w: usize = self.width;
            copy_down(&mut self.st_kv, w);
            copy_down(&mut self.st_sc, w);
        }
    }

    /// The cells that are pooled into element `j` of the row of a window: at ratio 4 element `j` of
    /// the rows of the window before and element `head_dim + j` of its own rows, by turns.
    pub open spec fn cells(self, j: int) -> Seq<int> {
        let w = self.width as int;
        if self.ratio == 4 {
            Seq::new(
                8,
                |i: int|
                    if i % 2 == 0 {
                        (i / 2) * w + j
                    } else {
                        (4 + i / 2) * w + self.head_dim + j
                    },
            )
        } else {
            Seq::new(self.ratio as nat, |i: int| i * w + j)
        }
    }

    pub fn pool_cells(&self, j: usize) -> (r: Vec<usize>)
        requires
            self.wf(),
            j < self.head_dim,
        ensures
            r@.map_values(|x: usize| x as int) == self.cells(j as int),
            forall|i: int| 0 <= i < r@.len() ==> #[trigger] r@[i] < self.st_kv@.len(),
    {
        let mut out: Vec<usize> = Vec::new();
        let w: usize = self.width;
        let n: usize = self.st_kv.len();
        let mut row: usize = 0;
        assert(out@.map_values(|x: usize| x as int) =~= self.cells(j as int).take(0));
        while row < self.ratio
            invariant
                row <= self.ratio,
                self.wf(),
                w == self.width,
                n == self.st_kv@.len(),
                j < self.head_dim,
                out@.len() == (if self.ratio == 4 {
                    2 * row
                } else {
                    row as int
                }),
                out@.map_values(|x: usize| x as int) == self.cells(j as int).take(
                    out@.len() as int,
                ),
                forall|i: int| 0 <= i < out@.len() ==> #[trigger] out@[i] < n,
            decreases self.ratio - row,
        {
            let ghost rows = lane_rows(self.ratio as nat);
            proof {
                lemma_cell(row as int, w as int, rows as int, j as int);
            }
            out.push(row * w + j);
            if self.ratio == 4 {
                proof {
                    lemma_cell(4 + row, w as int, rows as int, self.head_dim + j);
                }
                out.push((4 + row) * w + self.head_dim + j);
            }
            assert(out@.map_values(|x: usize| x as int) =~= self.cells(j as int).take(
                out@.len() as int,
            ));
            row = row + 1;
        }
        assert(self.cells(j as int).take(out@.len() as int) =~= self.cells(j as int));
        out
    }
}

proof fn lemma_cell(row: int, w: int, rows: int, j: int)
    requires
        0 <= row < rows,
        0 <= j < w,
    ensures
        0 <= row * w,
        row * w + j < rows * w,
{
    assert(row * w + w <= rows * w && 0 <= row * w) by (nonlinear_arith)
        requires
            0 <= row < rows,
            0 <= w,
    ;
}

/// The position that the row of a window that ends at `pos` stands for: that of its first token.
pub fn window_start(pos: u32, ratio: u32) -> (r: u32)
    requires
        emits(ratio as nat, pos as nat),
        pos < u32::MAX,
    ensures
        r == pos + 1 - ratio,
        r as nat % ratio as nat == 0,
{
    assert(pos + 1 >= ratio && (pos + 1 - ratio) % ratio as int == 0) by {
        vstd::arithmetic::div_mod::lemma_fundamental_div_mod(pos + 1, ratio as int);
        let q = (pos + 1) / ratio as int;
        assert(q >= 1) by (nonlinear_arith)
            requires
                pos + 1 == ratio * q,
                pos + 1 > 0,
                ratio > 0,
        ;
        assert(ratio * q >= ratio) by (nonlinear_arith)
            requires
                q >= 1,
                ratio > 0,
        ;
        assert(ratio * (q - 1) == ratio * q - ratio) by (nonlinear_arith);
        vstd::arithmetic::div_mod::lemma_fundamental_div_mod_converse(
            pos + 1 - ratio,
            ratio as int,
            q - 1,
            0,
        );
    }
    pos + 1 - ratio
}

/// Overwrites one row of a flat list.
fn put_row(flat: &mut Vec<u32>, width: usize, row: usize, with: &[u32], Ghost(n): Ghost<nat>)
    requires
        row < n,
        old(flat)@.len() == n * width,
        with@.len() == width,
    ensures
        final(flat)@.len() == old(flat)@.len(),
        rows_of(final(flat)@, width as nat, n) == rows_of(old(flat)@, width as nat, n).update(
            row as int,
            with@,
        ),
{
    let ghost w = width as int;
    let len: usize = flat.len();
    assert(row * w + w <= n * w && 0 <= row * w) by (nonlinear_arith)
        requires
            0 <= row < n,
            0 <= w,
    ;
    let base: usize = row * width;
    let mut j: usize = 0;
    while j < width
        invariant
            j <= width,
            base == row * width,
            base + width <= len,
            len == flat@.len(),
            flat@.len() == old(flat)@.len(),
            with@.len() == width,
            forall|i: int|
                0 <= i < flat@.len() ==> #[trigger] flat@[i] == (if base <= i < base + j {
                    with@[i - base]
                } else {
                    old(flat)@[i]
                }),
        decreases width - j,
    {
        flat.set(base + j, with[j]);
        j = j + 1;
    }
    proof {
        let a = rows_of(flat@, width as nat, n);
        let b = rows_of(old(flat)@, width as nat, n).update(row as int, with@);
        assert forall|i: int| 0 <= i < n implies #[trigger] a[i] == b[i] by {
            lemma_rows_apart(i, row as int, w, n as int);
            assert(a[i] =~= b[i]);
        }
        assert(a =~= b);
    }
}

proof fn lemma_rows_apart(i: int, k: int, w: int, n: int)
    requires
        0 <= i < n,
        0 <= k < n,
        0 <= w,
    ensures
        0 <= i * w,
        i * w + w <= n * w,
        i < k ==> i * w + w <= k * w,
        k < i ==> k * w + w <= i * w,
{
    assert(0 <= i * w && i * w + w <= n * w && (i < k ==> i * w + w <= k * w) && (k < i ==> k * w
        + w <= i * w)) by (nonlinear_arith)
        requires
            0 <= i < n,
            0 <= k < n,
            0 <= w,
    ;
}

/// Copies the last four of eight rows over the first four.
fn copy_down(flat: &mut Vec<u32>, width: usize)
    requires
        old(flat)@.len() == 8 * width,
    ensures
        final(flat)@.len() == old(flat)@.len(),
        rows_of(final(flat)@, width as nat, 8) == shifted(rows_of(old(flat)@, width as nat, 8), 4),
{
    let len: usize = flat.len();
    let half: usize = 4 * width;
    let mut i: usize = 0;
    while i < half
        invariant
            i <= half,
            2 * half == len,
            len == flat@.len(),
            flat@.len() == old(flat)@.len(),
            forall|k: int|
                0 <= k < flat@.len() ==> #[trigger] flat@[k] == (if k < i {
                    old(flat)@[k + half]
                } else {
                    old(flat)@[k]
                }),
        decreases half - i,
    {
        let v: u32 = flat[i + half];
        flat.set(i, v);
        i = i + 1;
    }
    proof {
        let w = width as int;
        let a = rows_of(flat@, width as nat, 8);
        let o = rows_of(old(flat)@, width as nat, 8);
        let b = shifted(o, 4);
        assert forall|k: int| 0 <= k < 8 implies #[trigger] a[k] == b[k] by {
            lemma_rows_apart(k, 4, w, 8);
            if k < 4 {
                lemma_rows_apart(k + 4, 4, w, 8);
                assert((k + 4) * w == k * w + 4 * w) by (nonlinear_arith);
                assert(b[k] == o[k + 4]);
                assert(a[k] =~= o[k + 4]);
            } else {
                assert(a[k] =~= o[k]);
            }
        }
        assert(a =~= b);
    }
}

} // verus!
