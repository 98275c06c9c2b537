//! Codebook tables of the two-bit formats.
//!
//! A codebook point is eight coordinates 1, 3, 5 or 7, written as eight base-4 digits. The tables
//! map every digit string to its codebook point, or to the points nearest to it.
use vstd::prelude::*;
use vstd::slice::slice_subrange;

use crate::bytes;

verus! {

/// The digit strings of the 256 codebook points, ascending.
pub const KGRID_2BIT_256: [u16; 256] = [
    0, 2, 5, 8, 10, 17, 20, 32, 34, 40, 42, 65, 68, 80, 88, 97, 100, 128, 130, 138, 162, 257, 260,
    272, 277, 320, 388, 408, 512, 514, 546, 642, 1025, 1028, 1040, 1057, 1060, 1088, 1090, 1096,
    1120, 1153, 1156, 1168, 1188, 1280, 1282, 1288, 1312, 1350, 1385, 1408, 1425, 1545, 1552,
    1600, 1668, 1700, 2048, 2053, 2056, 2068, 2088, 2113, 2116, 2128, 2130, 2184, 2308, 2368,
    2562, 2580, 4097, 4100, 4112, 4129, 4160, 4192, 4228, 4240, 4245, 4352, 4360, 4384, 4432,
    4442, 4480, 4644, 4677, 5120, 5128, 5152, 5157, 5193, 5248, 5400, 5474, 5632, 5654, 6145,
    6148, 6160, 6208, 6273, 6400, 6405, 6560, 6737, 8192, 8194, 8202, 8260, 8289, 8320, 8322,
    8489, 8520, 8704, 8706, 9217, 9220, 9232, 9280, 9302, 9472, 9537, 9572, 9872, 10248, 10272,
    10388, 10820, 16385, 16388, 16400, 16408, 16417, 16420, 16448, 16456, 16470, 16480, 16513,
    16516, 16528, 16640, 16672, 16737, 16768, 16773, 16897, 16912, 16968, 16982, 17000, 17408,
    17416, 17440, 17536, 17561, 17682, 17700, 17920, 18433, 18436, 18448, 18496, 18501, 18688,
    18776, 18785, 18818, 19013, 19088, 20480, 20488, 20497, 20505, 20512, 20608, 20616, 20740,
    20802, 20900, 21137, 21648, 21650, 21770, 22017, 22100, 22528, 22545, 22553, 22628, 22848,
    23048, 24580, 24592, 24640, 24680, 24832, 24917, 25112, 25184, 25600, 25605, 25872, 25874,
    25988, 26690, 32768, 32770, 32778, 32833, 32898, 33028, 33048, 33088, 33297, 33793, 33796,
    33808, 33813, 33856, 33888, 34048, 34118, 34196, 34313, 34368, 34400, 34818, 35076, 35345,
    36868, 36880, 36900, 36928, 37025, 37142, 37248, 37445, 37888, 37922, 37956, 38225, 39041,
    39200, 40962, 41040, 41093, 41225, 41472, 42008, 43088, 43268,
];

/// Digit strings that the tables cover.
pub const KMAP_SIZE: usize = 43692;

pub struct Iq2Tables {
    /// 256 codebook points, eight coordinate bytes each.
    pub grid: Vec<u64>,
    /// Digit string to codebook index, or to -(list offset + 1).
    pub kmap: Vec<i32>,
    /// Lists of nearest points: count, then codebook indices.
    pub neighbours: Vec<u16>,
}

/// `p` without its `k` low base-4 digits.
pub open spec fn shifted(p: nat, k: nat) -> nat
    decreases k,
{
    if k == 0 {
        p
    } else {
        shifted(p, (k - 1) as nat) / 4
    }
}

/// Base-4 digit `k` of `p`.
pub open spec fn digit(p: nat, k: nat) -> nat {
    shifted(p, k) % 4
}

/// Coordinate `k` of the point with digits `p`.
pub open spec fn coord(p: nat, k: nat) -> int {
    2 * (digit(p, k) as int) + 1
}

/// The squared distance over the first `n` coordinates.
pub open spec fn dist(p: nat, q: nat, n: nat) -> int
    decreases n,
{
    if n == 0 {
        0
    } else {
        let k = (n - 1) as nat;
        dist(p, q, k) + (coord(p, k) - coord(q, k)) * (coord(p, k) - coord(q, k))
    }
}

/// The digits of codebook point `j`.
pub open spec fn code(j: int) -> nat {
    KGRID_2BIT_256@[j] as nat
}

/// `p` is the digit string of a codebook point.
pub open spec fn on_grid(p: nat) -> bool {
    exists|j: int| 0 <= j < 256 && #[trigger] code(j) == p
}

/// The coordinate bytes from `k` on, as a little-endian number.
pub open spec fn word(p: nat, k: nat) -> nat
    decreases 8 - k,
{
    if k >= 8 {
        0
    } else {
        (coord(p, k) + 256 * word(p, k + 1)) as nat
    }
}

/// The least squared distance greater than `above` from `p` to one of the first `n` points.
pub open spec fn least(p: nat, above: int, n: int) -> Option<int>
    decreases n,
{
    if n <= 0 {
        None
    } else {
        let d = dist(p, code(n - 1), 8);
        match least(p, above, n - 1) {
            None => if d > above {
                Some(d)
            } else {
                None
            },
            Some(e) => if d > above && d < e {
                Some(d)
            } else {
                Some(e)
            },
        }
    }
}

/// The points among the first `n` at squared distance `d` from `p`, ascending.
pub open spec fn at_distance(p: nat, d: int, n: int) -> Seq<u16>
    decreases n,
{
    if n <= 0 {
        Seq::empty()
    } else if dist(p, code(n - 1), 8) == d {
        at_distance(p, d, n - 1).push((n - 1) as u16)
    } else {
        at_distance(p, d, n - 1)
    }
}

/// The points at the two least distances from `p`, nearest first.
pub open spec fn near(p: nat) -> Seq<u16> {
    match least(p, -1, 256) {
        None => Seq::empty(),
        Some(d1) => at_distance(p, d1, 256) + match least(p, d1, 256) {
            None => Seq::empty(),
            Some(d2) => at_distance(p, d2, 256),
        },
    }
}

/// The lists of the digit strings below `n` that are no codebook points, each behind its count.
pub open spec fn lists(n: nat) -> Seq<u16>
    decreases n,
{
    if n == 0 {
        Seq::empty()
    } else if on_grid((n - 1) as nat) {
        lists((n - 1) as nat)
    } else {
        lists((n - 1) as nat).push(near((n - 1) as nat).len() as u16) + near((n - 1) as nat)
    }
}

/// The entry of digit string `p` is `m`: the index of its codebook point, or the place of its list.
pub open spec fn maps_to(p: nat, m: i32) -> bool {
    if on_grid(p) {
        0 <= m < 256 && code(m as int) == p
    } else {
        m == -(lists(p).len() + 1)
    }
}

impl Iq2Tables {
    /// The tables are those of the codebook.
    pub open spec fn wf(self) -> bool {
        &&& self.grid@.len() == 256
        &&& forall|j: int| 0 <= j < 256 ==> #[trigger] self.grid@[j] == word(code(j), 0)
        &&& self.kmap@.len() == KMAP_SIZE
        &&& forall|p: int| 0 <= p < KMAP_SIZE ==> maps_to(p as nat, #[trigger] self.kmap@[p])
        &&& self.neighbours@ == lists(KMAP_SIZE as nat)
    }
}

proof fn lemma_codes_step(i: int)
    requires
        0 <= i < 255,
    ensures
        code(i) < code(i + 1),
{
}

proof fn lemma_codes_ascend(i: int, j: int)
    requires
        0 <= i < j < 256,
    ensures
        code(i) < code(j),
    decreases j - i,
{
    lemma_codes_step(j - 1);
    if i < j - 1 {
        lemma_codes_ascend(i, j - 1);
    }
}

proof fn lemma_code_top(i: int)
    requires
        0 <= i < 256,
    ensures
        code(i) < KMAP_SIZE,
{
}

proof fn lemma_word_bound(p: nat, k: nat)
    requires
        k <= 8,
    ensures
        word(p, k) < bytes::pow256((8 - k) as nat),
    decreases 8 - k,
{
    if k < 8 {
        lemma_word_bound(p, k + 1);
        assert((8 - k) as nat == (8 - (k + 1)) as nat + 1);
    }
}

/// `p` without its `k` low digits.
fn shift_digits(p: u32, k: u32) -> (r: u32)
    ensures
        r as nat == shifted(p as nat, k as nat),
    decreases k,
{
    if k == 0 {
        p
    } else {
        shift_digits(p, k - 1) / 4
    }
}

/// The coordinate bytes of a digit string.
fn grid_word(p: u32) -> (r: u64)
    ensures
        r as nat == word(p as nat, 0),
{
    let mut acc: u64 = 0;
    let mut k: u32 = 8;
    while k > 0
        invariant
            k <= 8,
            acc as nat == word(p as nat, k as nat),
        decreases k,
    {
        k = k - 1;
        proof {
            lemma_word_bound(p as nat, k as nat);
            bytes::lemma_pow256_mono((8 - k) as nat, 8);
            bytes::lemma_pow256();
        }
        acc = (2 * (shift_digits(p, k) % 4) + 1) as u64 + 256 * acc;
    }
    acc
}

/// The squared distance of two points.
fn distance(p: u32, q: u32) -> (r: i32)
    ensures
        r == dist(p as nat, q as nat, 8),
        0 <= r <= 288,
{
    let mut a: u32 = p;
    let mut b: u32 = q;
    let mut acc: i32 = 0;
    let mut k: u32 = 0;
    while k < 8
        invariant
            k <= 8,
            a as nat == shifted(p as nat, k as nat),
            b as nat == shifted(q as nat, k as nat),
            acc == dist(p as nat, q as nat, k as nat),
            0 <= acc <= 36 * k,
        decreases 8 - k,
    {
        let d: i32 = 2 * (a % 4) as i32 - 2 * (b % 4) as i32;
        assert(0 <= d * d <= 36) by (nonlinear_arith)
            requires
                -6 <= d <= 6,
        ;
        proof {
            assert(d == coord(p as nat, k as nat) - coord(q as nat, k as nat));
        }
        acc = acc + d * d;
        a = a / 4;
        b = b / 4;
        k = k + 1;
    }
    acc
}

/// The least of the distances that is greater than `above`.
fn least_above(ds: &Vec<i32>, p: u32, above: i32) -> (r: Option<i32>)
    requires
        ds@.len() == 256,
        forall|j: int| 0 <= j < 256 ==> #[trigger] ds@[j] == dist(p as nat, code(j), 8),
    ensures
        match r {
            Some(d) => least(p as nat, above as int, 256) == Some(d as int),
            None => least(p as nat, above as int, 256) is None,
        },
{
    let mut best: Option<i32> = None;
    let mut j: usize = 0;
    while j < 256
        invariant
            j <= 256,
            ds@.len() == 256,
            forall|j: int| 0 <= j < 256 ==> #[trigger] ds@[j] == dist(p as nat, code(j), 8),
            match best {
                Some(d) => least(p as nat, above as int, j as int) == Some(d as int),
                None => least(p as nat, above as int, j as int) is None,
            },
        decreases 256 - j,
    {
        let d: i32 = ds[j];
        if d > above {
            match best {
                None => {
                    best = Some(d);
                },
                Some(e) => {
                    if d < e {
                        best = Some(d);
                    }
                },
            }
        }
        j = j + 1;
    }
    best
}

/// Appends the points at one distance.
fn push_at(out: &mut Vec<u16>, ds: &Vec<i32>, p: u32, d: i32)
    requires
        ds@.len() == 256,
        forall|j: int| 0 <= j < 256 ==> #[trigger] ds@[j] == dist(p as nat, code(j), 8),
    ensures
        final(out)@ == old(out)@ + at_distance(p as nat, d as int, 256),
{
    let mut j: usize = 0;
    while j < 256
        invariant
            j <= 256,
            ds@.len() == 256,
            forall|j: int| 0 <= j < 256 ==> #[trigger] ds@[j] == dist(p as nat, code(j), 8),
            out@ == old(out)@ + at_distance(p as nat, d as int, j as int),
        decreases 256 - j,
    {
        if ds[j] == d {
            out.push(j as u16);
        }
        assert(out@ =~= old(out)@ + at_distance(p as nat, d as int, j + 1));
        j = j + 1;
    }
}

proof fn lemma_at_distance_len(p: nat, d: int, n: int)
    requires
        0 <= n,
    ensures
        at_distance(p, d, n).len() <= n,
    decreases n,
{
    if n > 0 {
        lemma_at_distance_len(p, d, n - 1);
    }
}

proof fn lemma_near_len(p: nat)
    ensures
        near(p).len() <= 512,
{
    if let Some(d1) = least(p, -1, 256) {
        lemma_at_distance_len(p, d1, 256);
        if let Some(d2) = least(p, d1, 256) {
            lemma_at_distance_len(p, d2, 256);
        }
    }
}

proof fn lemma_lists_len(n: nat)
    ensures
        lists(n).len() <= 513 * n,
    decreases n,
{
    if n > 0 {
        lemma_lists_len((n - 1) as nat);
        lemma_near_len((n - 1) as nat);
    }
}

/// Appends the list of a digit string that is no codebook point.
fn push_list(out: &mut Vec<u16>, p: u32)
    ensures
        final(out)@ == old(out)@.push(near(p as nat).len() as u16) + near(p as nat),
{
    let grid = KGRID_2BIT_256;
    let mut ds: Vec<i32> = Vec::new();
    let mut j: usize = 0;
    while j < 256
        invariant
            j == ds@.len() <= 256,
            grid == KGRID_2BIT_256,
            forall|k: int| 0 <= k < j ==> #[trigger] ds@[k] == dist(p as nat, code(k), 8),
        decreases 256 - j,
    {
        ds.push(distance(p, grid[j] as u32));
        j = j + 1;
    }
    let mut list: Vec<u16> = Vec::new();
    match least_above(&ds, p, -1) {
        None => {},
        Some(d1) => {
            push_at(&mut list, &ds, p, d1);
            match least_above(&ds, p, d1) {
                None => {},
                Some(d2) => {
                    push_at(&mut list, &ds, p, d2);
                },
            }
        },
    }
    assert(list@ =~= near(p as nat));
    proof {
        lemma_near_len(p as nat);
    }
    out.push(list.len() as u16);
    let ghost start = out@;
    let mut i: usize = 0;
    while i < list.len()
        invariant
            i <= list@.len(),
            out@ == start + list@.take(i as int),
        decreases list@.len() - i,
    {
        out.push(list[i]);
        assert(list@.take(i + 1) =~= list@.take(i as int).push(list@[i as int]));
        i = i + 1;
    }
    assert(list@.take(i as int) =~= list@);
}

/// Index of each codebook point under its digit string, and -1 elsewhere.
fn index_map() -> (r: Vec<i32>)
    ensures
        r@.len() == KMAP_SIZE,
        forall|p: int|
            0 <= p < KMAP_SIZE ==> if on_grid(p as nat) {
                maps_to(p as nat, #[trigger] r@[p])
            } else {
                r@[p] == -1
            },
{
    let grid = KGRID_2BIT_256;
    let mut kmap: Vec<i32> = Vec::new();
    while kmap.len() < KMAP_SIZE
        invariant
            kmap@.len() <= KMAP_SIZE,
            forall|p: int| 0 <= p < kmap@.len() ==> #[trigger] kmap@[p] == -1,
        decreases KMAP_SIZE - kmap@.len(),
    {
        kmap.push(-1);
    }
    let mut i: usize = 0;
    while i < 256
        invariant
            i <= 256,
            grid == KGRID_2BIT_256,
            kmap@.len() == KMAP_SIZE,
            forall|j: int| 0 <= j < i ==> kmap@[#[trigger] code(j) as int] == j,
            forall|p: int|
                0 <= p < KMAP_SIZE && (forall|j: int| 0 <= j < i ==> #[trigger] code(j) != p)
                    ==> #[trigger] kmap@[p] == -1,
        decreases 256 - i,
    {
        proof {
            lemma_code_top(i as int);
            assert forall|j: int| 0 <= j < i implies #[trigger] code(j) != code(i as int) by {
                lemma_codes_ascend(j, i as int);
            }
        }
        let at: usize = grid[i] as usize;
        assert(at == code(i as int));
        let ghost was = kmap@;
        kmap.set(at, i as i32);
        proof {
            assert forall|p: int|
                0 <= p < KMAP_SIZE && (forall|j: int| 0 <= j < i + 1 ==> #[trigger] code(j) != p)
                implies #[trigger] kmap@[p] == -1 by {
                assert(code(i as int) != p);
                assert(was[p] == -1);
            }
        }
        i = i + 1;
    }
    proof {
        assert forall|p: int| 0 <= p < KMAP_SIZE implies if on_grid(p as nat) {
            maps_to(p as nat, #[trigger] kmap@[p])
        } else {
            kmap@[p] == -1
        } by {
            if on_grid(p as nat) {
                let j = choose|j: int| 0 <= j < 256 && #[trigger] code(j) == p;
                assert(kmap@[code(j) as int] == j);
            }
        }
    }
    kmap
}

/// Builds the tables.
pub fn tables() -> (r: Iq2Tables)
    ensures
        r.wf(),
{
    let codes = KGRID_2BIT_256;
    let mut grid: Vec<u64> = Vec::new();
    let mut i: usize = 0;
    while i < 256
        invariant
            i == grid@.len() <= 256,
            codes == KGRID_2BIT_256,
            forall|j: int| 0 <= j < i ==> #[trigger] grid@[j] == word(code(j), 0),
        decreases 256 - i,
    {
        grid.push(grid_word(codes[i] as u32));
        i = i + 1;
    }
    let mut kmap = index_map();
    let mut neighbours: Vec<u16> = Vec::new();
    let mut p: usize = 0;
    while p < KMAP_SIZE
        invariant
            p <= KMAP_SIZE,
            kmap@.len() == KMAP_SIZE,
            forall|q: int| 0 <= q < p ==> maps_to(q as nat, #[trigger] kmap@[q]),
            forall|q: int|
                p <= q < KMAP_SIZE ==> if on_grid(q as nat) {
                    maps_to(q as nat, #[trigger] kmap@[q])
                } else {
                    kmap@[q] == -1
                },
            neighbours@ == lists(p as nat),
        decreases KMAP_SIZE - p,
    {
        proof {
            lemma_lists_len(p as nat);
        }
        if kmap[p] < 0 {
            let start: usize = neighbours.len();
            push_list(&mut neighbours, p as u32);
            kmap.set(p, -(start as i32 + 1));
        }
        p = p + 1;
    }
    Iq2Tables { grid, kmap, neighbours }
}

/// The list of a digit string stands behind those of the smaller ones.
proof fn lemma_list_at(p: nat, n: nat)
    requires
        p < n,
        !on_grid(p),
    ensures
        lists(p).len() + 1 + near(p).len() <= lists(n).len(),
        lists(n)[lists(p).len() as int] == near(p).len() as u16,
        lists(n).subrange(
            lists(p).len() as int + 1,
            lists(p).len() as int + 1 + near(p).len(),
        ) == near(p),
    decreases n,
{
    if p == n - 1 {
        let at = lists(p).len() as int;
        assert(lists(n).subrange(at + 1, at + 1 + near(p).len()) =~= near(p));
    } else {
        lemma_list_at(p, (n - 1) as nat);
        let at = lists(p).len() as int;
        assert(lists(n).subrange(at + 1, at + 1 + near(p).len()) =~= lists(
            (n - 1) as nat,
        ).subrange(at + 1, at + 1 + near(p).len()));
    }
}

/// What the tables know of a digit string.
pub enum Lookup<'a> {
    /// It is this codebook point.
    Point(usize),
    /// The codebook points nearest to it.
    Near(&'a [u16]),
}

impl Iq2Tables {
    /// Looks a digit string up.
    pub fn lookup(&self, p: usize) -> (r: Lookup<'_>)
        requires
            self.wf(),
            p < KMAP_SIZE,
        ensures
            match r {
                Lookup::Point(j) => j < 256 && code(j as int) == p,
                Lookup::Near(list) => !on_grid(p as nat) && list@ == near(p as nat),
            },
    {
        let m: i32 = self.kmap[p];
        assert(maps_to(p as nat, self.kmap@[p as int]));
        if m >= 0 {
            return Lookup::Point(m as usize);
        }
        proof {
            lemma_list_at(p as nat, KMAP_SIZE as nat);
            lemma_lists_len(p as nat);
            lemma_near_len(p as nat);
        }
        let off: usize = (-(m + 1)) as usize;
        let count: usize = self.neighbours[off] as usize;
        let total: usize = self.neighbours.len();
        assert(off + 1 + count <= total);
        Lookup::Near(slice_subrange(self.neighbours.as_slice(), off + 1, off + 1 + count))
    }
}

/// Byte `k` of a codebook word.
pub open spec fn word_byte(g: u64, k: nat) -> u8
    decreases k,
{
    if k == 0 {
        (g % 256) as u8
    } else {
        word_byte(g / 256, (k - 1) as nat)
    }
}

/// The eight bytes of a codebook word, as signed bytes.
pub fn grid_bytes(g: u64) -> (r: Vec<i8>)
    ensures
        r@.len() == 8,
        forall|k: int| 0 <= k < 8 ==> #[trigger] r@[k] == word_byte(g, k as nat) as i8,
{
    let mut r: Vec<i8> = Vec::new();
    let mut x: u64 = g;
    let mut k: usize = 0;
    while k < 8
        invariant
            k == r@.len() <= 8,
            forall|j: int| 0 <= j < k ==> #[trigger] r@[j] == word_byte(g, j as nat) as i8,
            forall|j: nat| #[trigger] word_byte(x, j) == word_byte(g, j + k as nat),
        decreases 8 - k,
    {
        proof {
            assert(word_byte(x, 0) == word_byte(g, 0 + k as nat));
            let y = x / 256;
            assert forall|j: nat| #[trigger] word_byte(y, j) == word_byte(g, j + (k + 1) as nat) by {
                assert(word_byte(x, j + 1) == word_byte(y, j));
                assert(word_byte(x, j + 1) == word_byte(g, (j + 1) + k as nat));
            }
        }
        r.push((x % 256) as u8 as i8);
        x = x / 256;
        k = k + 1;
    }
    r
}

proof fn lemma_word_byte(p: nat, k: nat, i: nat)
    requires
        k + i < 8,
    ensures
        word_byte(word(p, k) as u64, i) == coord(p, k + i),
    decreases i,
{
    lemma_word_bound(p, k);
    bytes::lemma_pow256_mono((8 - k) as nat, 8);
    bytes::lemma_pow256();
    if i > 0 {
        lemma_word_byte(p, k + 1, (i - 1) as nat);
        assert(word(p, k) / 256 == word(p, k + 1));
    }
}

/// The bytes of a codebook word are the coordinates of its point: odd, between 1 and 7.
pub proof fn law_grid_bytes(j: int, k: nat)
    requires
        0 <= j < 256,
        k < 8,
    ensures
        word(code(j), 0) <= u64::MAX,
        word_byte(word(code(j), 0) as u64, k) == coord(code(j), k),
        coord(code(j), k) == 1 || coord(code(j), k) == 3 || coord(code(j), k) == 5 || coord(
            code(j),
            k,
        ) == 7,
{
    lemma_word_byte(code(j), 0, k);
    lemma_word_bound(code(j), 0);
    bytes::lemma_pow256();
    let d = digit(code(j), k);
    assert(d == 0 || d == 1 || d == 2 || d == 3);
}

proof fn lemma_least(p: nat, above: int, n: int)
    requires
        0 <= n,
    ensures
        match least(p, above, n) {
            None => forall|j: int| 0 <= j < n ==> dist(p, #[trigger] code(j), 8) <= above,
            Some(d) => d > above && (exists|j: int|
                0 <= j < n && dist(p, #[trigger] code(j), 8) == d) && forall|j: int|
                0 <= j < n ==> dist(p, #[trigger] code(j), 8) <= above || dist(p, code(j), 8) >= d,
        },
    decreases n,
{
    if n > 0 {
        lemma_least(p, above, n - 1);
        let d = dist(p, code(n - 1), 8);
        match least(p, above, n - 1) {
            None => {},
            Some(e) => {
                let j = choose|j: int| 0 <= j < n - 1 && dist(p, #[trigger] code(j), 8) == e;
                assert(dist(p, code(j), 8) == e);
            },
        }
    }
}

proof fn lemma_at_distance(p: nat, d: int, n: int)
    requires
        0 <= n <= 256,
    ensures
        forall|i: int|
            #![trigger at_distance(p, d, n)[i]]
            0 <= i < at_distance(p, d, n).len() ==> at_distance(p, d, n)[i] < n && dist(
                p,
                code(at_distance(p, d, n)[i] as int),
                8,
            ) == d,
        forall|j: int|
            0 <= j < n && dist(p, #[trigger] code(j), 8) == d ==> at_distance(p, d, n).contains(
                j as u16,
            ),
        forall|i: int, k: int|
            0 <= i < k < at_distance(p, d, n).len() ==> #[trigger] at_distance(p, d, n)[i]
                < #[trigger] at_distance(p, d, n)[k],
    decreases n,
{
    if n > 0 {
        lemma_at_distance(p, d, n - 1);
        let a = at_distance(p, d, n - 1);
        let b = at_distance(p, d, n);
        assert forall|j: int| 0 <= j < n && dist(p, #[trigger] code(j), 8) == d implies b.contains(
            j as u16,
        ) by {
            if j == n - 1 {
                assert(b[b.len() - 1] == j as u16);
            } else {
                let i = choose|i: int| 0 <= i < a.len() && a[i] == j as u16;
                assert(b[i] == j as u16);
            }
        }
    }
}

/// The list of a digit string holds exactly the codebook points at its two least distances, in
/// order of distance and then of index, and is not empty.
pub proof fn law_near(p: nat)
    ensures
        near(p).len() > 0,
        forall|i: int| 0 <= i < near(p).len() ==> (#[trigger] near(p)[i]) < 256,
        forall|i: int, k: int|
            0 <= i < k < near(p).len() ==> {
                let a = dist(p, code(#[trigger] near(p)[i] as int), 8);
                let b = dist(p, code(#[trigger] near(p)[k] as int), 8);
                a < b || (a == b && near(p)[i] < near(p)[k])
            },
        ({
            let d1 = least(p, -1, 256)->0;
            &&& least(p, -1, 256) is Some
            &&& forall|j: int| 0 <= j < 256 ==> dist(p, #[trigger] code(j), 8) >= d1
            &&& forall|j: int|
                0 <= j < 256 ==> (near(p).contains(j as u16) <==> (dist(p, #[trigger] code(j), 8)
                    == d1 || least(p, d1, 256) == Some(dist(p, code(j), 8))))
        }),
{
    lemma_least(p, -1, 256);
    lemma_dist_nonneg(p, code(0), 8);
    let d1 = least(p, -1, 256)->0;
    assert(dist(p, code(0), 8) > -1);
    lemma_least(p, d1, 256);
    lemma_at_distance(p, d1, 256);
    assert forall|j: int| 0 <= j < 256 implies dist(p, #[trigger] code(j), 8) >= d1 by {
        lemma_dist_nonneg(p, code(j), 8);
    }
    let a = at_distance(p, d1, 256);
    let j1 = choose|j: int| 0 <= j < 256 && dist(p, #[trigger] code(j), 8) == d1;
    assert(a.contains(j1 as u16));
    match least(p, d1, 256) {
        None => {
            assert(near(p) =~= a);
            assert forall|j: int| 0 <= j < 256 implies (near(p).contains(j as u16) <==> (dist(
                p,
                #[trigger] code(j),
                8,
            ) == d1 || least(p, d1, 256) == Some(dist(p, code(j), 8)))) by {
                if a.contains(j as u16) {
                    let i = choose|i: int| 0 <= i < a.len() && a[i] == j as u16;
                    assert(dist(p, code(a[i] as int), 8) == d1);
                }
            }
        },
        Some(d2) => {
            lemma_at_distance(p, d2, 256);
            let b = at_distance(p, d2, 256);
            assert(near(p) =~= a + b);
            assert forall|j: int| 0 <= j < 256 implies (near(p).contains(j as u16) <==> (dist(
                p,
                #[trigger] code(j),
                8,
            ) == d1 || least(p, d1, 256) == Some(dist(p, code(j), 8)))) by {
                if near(p).contains(j as u16) {
                    let i = choose|i: int| 0 <= i < near(p).len() && near(p)[i] == j as u16;
                    if i < a.len() {
                        assert(dist(p, code(a[i] as int), 8) == d1);
                    } else {
                        assert(dist(p, code(b[i - a.len()] as int), 8) == d2);
                    }
                }
                if dist(p, code(j), 8) == d1 {
                    assert(a.contains(j as u16));
                    let i = choose|i: int| 0 <= i < a.len() && a[i] == j as u16;
                    assert(near(p)[i] == j as u16);
                }
                if dist(p, code(j), 8) == d2 {
                    assert(b.contains(j as u16));
                    let i = choose|i: int| 0 <= i < b.len() && b[i] == j as u16;
                    assert(near(p)[a.len() + i] == j as u16);
                }
            }
            assert forall|i: int, k: int| 0 <= i < k < near(p).len() implies {
                let x = dist(p, code(#[trigger] near(p)[i] as int), 8);
                let y = dist(p, code(#[trigger] near(p)[k] as int), 8);
                x < y || (x == y && near(p)[i] < near(p)[k])
            } by {
                if k < a.len() {
                    assert(a[i] < a[k]);
                } else if i >= a.len() {
                    assert(b[i - a.len()] < b[k - a.len()]);
                } else {
                    assert(dist(p, code(a[i] as int), 8) == d1);
                    assert(dist(p, code(b[k - a.len()] as int), 8) == d2);
                }
            }
            assert forall|i: int| 0 <= i < near(p).len() implies (#[trigger] near(p)[i]) < 256 by {
                if i < a.len() {
                    assert(a[i] < 256);
                } else {
                    assert(b[i - a.len()] < 256);
                }
            }
        },
    }
}

proof fn lemma_dist_nonneg(p: nat, q: nat, n: nat)
    ensures
        dist(p, q, n) >= 0,
    decreases n,
{
    if n > 0 {
        let k = (n - 1) as nat;
        lemma_dist_nonneg(p, q, k);
        let c = coord(p, k) - coord(q, k);
        assert(c * c >= 0) by (nonlinear_arith);
    }
}

} // verus!
