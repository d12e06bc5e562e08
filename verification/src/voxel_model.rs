use vstd::prelude::*;

verus! {

/// Whether bit `i` of `w` is set.
pub open spec fn bit_set(w: u32, i: u32) -> bool {
    (w >> i) & 1u32 == 1u32
}

/// Number of set bits of `w` strictly below bit `n` (a popcount of the low
/// `n` bits); `bits_below(w, 32)` is the popcount of the whole word.
pub open spec fn bits_below(w: u32, n: nat) -> nat
    decreases n,
{
    if n == 0 {
        0
    } else {
        bits_below(w, (n - 1) as nat) + if n - 1 < 32 && bit_set(w, (n - 1) as u32) {
            1nat
        } else {
            0nat
        }
    }
}

pub proof fn lemma_bits_below_bound(w: u32, n: nat)
    ensures
        bits_below(w, n) <= n,
    decreases n,
{
    if n > 0 {
        lemma_bits_below_bound(w, (n - 1) as nat);
    }
}

/// Words that agree on their low `n` bits have the same count below `n`.
pub proof fn lemma_bits_below_agree(a: u32, b: u32, n: nat)
    requires
        forall|i: u32| i < n && i < 32 ==> bit_set(a, i) == bit_set(b, i),
    ensures
        bits_below(a, n) == bits_below(b, n),
    decreases n,
{
    if n > 0 {
        lemma_bits_below_agree(a, b, (n - 1) as nat);
        if n - 1 < 32 {
            assert(bit_set(a, (n - 1) as u32) == bit_set(b, (n - 1) as u32));
        }
    }
}

/// Words that differ only in bit `k` (set in `a`, clear in `b`) differ by one
/// in every count that covers bit `k`.
pub proof fn lemma_bits_below_one_less(a: u32, b: u32, k: u32, n: nat)
    requires
        k < 32,
        bit_set(a, k),
        !bit_set(b, k),
        forall|i: u32| i < 32 && i != k ==> bit_set(a, i) == bit_set(b, i),
    ensures
        bits_below(b, n) + (if k < n { 1nat } else { 0nat }) == bits_below(a, n),
    decreases n,
{
    if n > 0 {
        lemma_bits_below_one_less(a, b, k, (n - 1) as nat);
    }
}

/// Clearing bit `k` touches no other bit.
pub proof fn lemma_clear_bit(w: u32, k: u32)
    requires
        k < 32,
    ensures
        !bit_set(w & !(1u32 << k), k),
        forall|i: u32| i < 32 && i != k ==> bit_set(w & !(1u32 << k), i) == bit_set(w, i),
{
    assert(((w & !(1u32 << k)) >> k) & 1u32 != 1u32) by (bit_vector)
        requires k < 32;
    assert forall|i: u32| i < 32 && i != k implies bit_set(w & !(1u32 << k), i) == bit_set(w, i) by {
        assert((((w & !(1u32 << k)) >> i) & 1u32 == 1u32) == (((w >> i) & 1u32) == 1u32)) by (bit_vector)
            requires i < 32, k < 32, i != k;
    }
}

/// Setting bit `k` touches no other bit.
pub proof fn lemma_set_bit(w: u32, k: u32)
    requires
        k < 32,
    ensures
        bit_set(w | (1u32 << k), k),
        forall|i: u32| i < 32 && i != k ==> bit_set(w | (1u32 << k), i) == bit_set(w, i),
{
    assert(((w | (1u32 << k)) >> k) & 1u32 == 1u32) by (bit_vector)
        requires k < 32;
    assert forall|i: u32| i < 32 && i != k implies bit_set(w | (1u32 << k), i) == bit_set(w, i) by {
        assert((((w | (1u32 << k)) >> i) & 1u32 == 1u32) == (((w >> i) & 1u32) == 1u32)) by (bit_vector)
            requires i < 32, k < 32, i != k;
    }
}

/// The zero word has no bit set.
pub proof fn lemma_zero_word_bits()
    ensures
        forall|i: u32| !#[trigger] bit_set(0u32, i),
{
    assert forall|i: u32| !#[trigger] bit_set(0u32, i) by {
        assert((0u32 >> i) & 1u32 != 1u32) by (bit_vector);
    }
}

/// Popcount of the low `n` bits of `w`.
pub fn count_bits_below(w: u32, n: u32) -> (r: u32)
    requires
        n <= 32,
    ensures
        r == bits_below(w, n as nat),
{
    let mut r: u32 = 0;
    let mut i: u32 = 0;
    while i < n
        invariant
            i <= n <= 32,
            r == bits_below(w, i as nat),
        decreases n - i,
    {
        proof {
            lemma_bits_below_bound(w, i as nat);
        }
        if (w >> i) & 1 == 1 {
            r = r + 1;
        }
        i = i + 1;
    }
    r
}

pub proof fn lemma_bits_below_mono(w: u32, a: nat, b: nat)
    requires
        a <= b,
    ensures
        bits_below(w, a) <= bits_below(w, b),
    decreases b,
{
    if a < b {
        lemma_bits_below_mono(w, a, (b - 1) as nat);
    }
}

/// Bit `z` of column `col` in an occupancy array with `owpc` words per
/// column.
pub open spec fn occ_bit(occ: Seq<u32>, owpc: int, col: int, z: int) -> bool {
    bit_set(occ[col * owpc + z / 32], (z % 32) as u32)
}

/// A dense voxel volume: per-column occupancy bitmasks (`occ_words_per_col`
/// words per `(x, y)` column, 32 z-levels per word, columns in `x + y * mx`
/// order), one colour and one normal index per solid voxel in ascending-z
/// order within each column, and a prefix table `color_offsets` whose entry
/// `col` is the index of the first colour of column `col`.
#[derive(Debug)]
pub struct VoxelModel {
    /// Voxel extent `(mx, my, mz)`.
    pub dims: [u32; 3],
    /// Occupancy words per column: at least `ceil(mz / 32)`, at least one.
    pub occ_words_per_col: u32,
    /// Per-column occupancy bitmask, `mx * my * occ_words_per_col` words.
    pub occupancy: Vec<u32>,
    /// Voxel colours, ascending z within each column.
    pub colors: Vec<u32>,
    /// Per-voxel surface-normal index, parallel to `colors`.
    pub dirs: Vec<u32>,
    /// Prefix sums of the per-column voxel counts; length `mx * my + 1`.
    pub color_offsets: Vec<u32>,
}

impl VoxelModel {
    /// Number of `(x, y)` columns.
    pub open spec fn cols(&self) -> int {
        self.dims[0] as int * self.dims[1] as int
    }

    /// Column of `(x, y)`.
    pub open spec fn column_of(&self, x: int, y: int) -> int {
        x + y * self.dims[0]
    }

    /// Index into `occupancy` of word `w` of column `col`.
    pub open spec fn word_index(&self, col: int, w: int) -> int {
        col * self.occ_words_per_col + w
    }

    /// Word `w` of column `col`.
    pub open spec fn word(&self, col: int, w: int) -> u32 {
        self.occupancy@[self.word_index(col, w)]
    }

    pub open spec fn in_bounds(&self, x: int, y: int, z: int) -> bool {
        0 <= x < self.dims[0] && 0 <= y < self.dims[1] && 0 <= z < self.dims[2]
    }

    /// Whether voxel `(x, y, z)` is solid.
    pub open spec fn occupied(&self, x: int, y: int, z: int) -> bool {
        self.col_bit(self.column_of(x, y), z)
    }

    /// Bit `z` of column `col`.
    pub open spec fn col_bit(&self, col: int, z: int) -> bool {
        occ_bit(self.occupancy@, self.occ_words_per_col as int, col, z)
    }

    /// Solid voxels of column `col` strictly below height `n`.
    pub open spec fn col_bits_below(&self, col: int, n: nat) -> nat
        decreases n,
    {
        if n == 0 {
            0
        } else {
            self.col_bits_below(col, (n - 1) as nat) + if self.col_bit(col, n - 1) {
                1nat
            } else {
                0nat
            }
        }
    }

    /// Solid voxels in the first `k` words of column `col`.
    pub open spec fn words_count(&self, col: int, k: nat) -> nat
        decreases k,
    {
        if k == 0 {
            0
        } else {
            self.words_count(col, (k - 1) as nat) + bits_below(self.word(col, k - 1), 32)
        }
    }

    /// Solid voxels of column `col`.
    pub open spec fn column_count(&self, col: int) -> nat {
        self.words_count(col, self.occ_words_per_col as nat)
    }

    /// Solid voxels strictly below `(x, y, z)` in its column.
    pub open spec fn rank(&self, x: int, y: int, z: int) -> nat {
        let col = self.column_of(x, y);
        self.words_count(col, (z / 32) as nat) + bits_below(self.word(col, z / 32), (z % 32) as nat)
    }

    /// Index into `colors` of solid voxel `(x, y, z)`.
    pub open spec fn color_index(&self, x: int, y: int, z: int) -> int {
        self.color_offsets@[self.column_of(x, y)] + self.rank(x, y, z)
    }

    /// Colour of solid voxel `(x, y, z)`.
    pub open spec fn color_at(&self, x: int, y: int, z: int) -> u32 {
        self.colors@[self.color_index(x, y, z)]
    }

    /// Structural invariant of the volume.
    pub open spec fn wf(&self) -> bool {
        &&& self.occ_words_per_col >= 1
        &&& self.dims[2] <= self.occ_words_per_col * 32
        &&& self.cols() <= u32::MAX
        &&& self.occupancy.len() == self.cols() * self.occ_words_per_col
        &&& self.color_offsets.len() == self.cols() + 1
        &&& self.color_offsets@[0] == 0
        &&& forall|col: int|
            0 <= col < self.cols() ==> self.color_offsets@[col + 1] == self.color_offsets@[col]
                + #[trigger] self.column_count(col)
        &&& self.colors.len() == self.color_offsets@[self.cols()]
        &&& self.dirs.len() == self.colors.len()
        &&& forall|col: int| 0 <= col < self.cols() ==> #[trigger] self.padding_clear(col)
    }

    /// The occupancy array has one block of `occ_words_per_col` words per
    /// column, enough for `mz` levels: all a voxel lookup needs.
    pub open spec fn occupancy_sized(&self) -> bool {
        &&& self.dims[2] <= self.occ_words_per_col * 32
        &&& self.cols() <= u32::MAX
        &&& self.occupancy.len() == self.cols() * self.occ_words_per_col
    }

    /// Column `col` has no bit set at or above height `mz`, and its words
    /// are laid out as the invariant asks.
    pub open spec fn padding_clear(&self, col: int) -> bool {
        &&& self.occ_words_per_col >= 1
        &&& self.dims[2] <= self.occ_words_per_col * 32
        &&& forall|z: int| self.dims[2] <= z < self.occ_words_per_col * 32 ==> !#[trigger] self.col_bit(col, z)
    }
}

/// Column and word-index arithmetic of an in-bounds voxel.
pub proof fn lemma_voxel_index(m: &VoxelModel, x: int, y: int, z: int)
    requires
        m.occupancy_sized(),
        m.in_bounds(x, y, z),
    ensures
        0 <= m.column_of(x, y) < m.cols(),
        0 <= z / 32 < m.occ_words_per_col,
        0 <= m.word_index(m.column_of(x, y), z / 32) < m.occupancy@.len(),
        m.cols() <= u32::MAX,
{
    let d0 = m.dims[0] as int;
    let d1 = m.dims[1] as int;
    let o = m.occ_words_per_col as int;
    let col = x + y * d0;
    assert(0 <= col < d0 * d1) by (nonlinear_arith)
        requires 0 <= x < d0, 0 <= y < d1, col == x + y * d0;
    assert(0 <= z / 32 < o) by (nonlinear_arith)
        requires 0 <= z, z < m.dims[2] as int, m.dims[2] as int <= o * 32;
    lemma_word_index_bound(col, z / 32, d0 * d1, o);
}

pub proof fn lemma_word_index_bound(col: int, w: int, cols: int, o: int)
    requires
        0 <= col < cols,
        0 <= w < o,
    ensures
        0 <= col * o + w < cols * o,
{
    assert(0 <= col * o + w < cols * o) by (nonlinear_arith)
        requires 0 <= col < cols, 0 <= w < o;
}

/// Distinct (column, word) pairs name distinct occupancy words.
pub proof fn lemma_word_index_injective(c1: int, w1: int, c2: int, w2: int, o: int)
    requires
        0 <= c1,
        0 <= c2,
        0 <= w1 < o,
        0 <= w2 < o,
        c1 * o + w1 == c2 * o + w2,
    ensures
        c1 == c2,
        w1 == w2,
{
    if c1 < c2 {
        assert(c1 * o + w1 < c2 * o + w2) by (nonlinear_arith)
            requires c1 < c2, 0 <= w1 < o, 0 <= w2;
    } else if c2 < c1 {
        assert(c2 * o + w2 < c1 * o + w1) by (nonlinear_arith)
            requires c2 < c1, 0 <= w2 < o, 0 <= w1;
    }
}

/// Distinct in-bounds `(x, y)` pairs name distinct columns.
pub proof fn lemma_column_injective(x1: int, y1: int, x2: int, y2: int, d0: int)
    requires
        0 <= x1 < d0,
        0 <= x2 < d0,
        0 <= y1,
        0 <= y2,
        x1 + y1 * d0 == x2 + y2 * d0,
    ensures
        x1 == x2,
        y1 == y2,
{
    lemma_word_index_injective(y1, x1, y2, x2, d0);
    assert(y1 * d0 == d0 * y1 && y2 * d0 == d0 * y2) by (nonlinear_arith);
}

pub proof fn lemma_words_count_mono(m: &VoxelModel, col: int, a: nat, b: nat)
    requires
        a <= b,
    ensures
        m.words_count(col, a) <= m.words_count(col, b),
    decreases b,
{
    if a < b {
        lemma_words_count_mono(m, col, a, (b - 1) as nat);
    }
}

/// A solid voxel's rank is below its column's count, so its colour index
/// lies inside the column's colour range.
pub proof fn lemma_rank_in_column(m: &VoxelModel, x: int, y: int, z: int)
    requires
        m.wf(),
        m.in_bounds(x, y, z),
        m.occupied(x, y, z),
    ensures
        m.rank(x, y, z) < m.column_count(m.column_of(x, y)),
        m.color_offsets@[m.column_of(x, y)] + m.rank(x, y, z) < m.color_offsets@[m.column_of(x, y) + 1],
        0 <= m.color_index(x, y, z) < m.colors@.len(),
{
    lemma_voxel_index(m, x, y, z);
    let col = m.column_of(x, y);
    let zw = z / 32;
    let zb = z % 32;
    let w = m.word(col, zw);
    lemma_bits_below_mono(w, (zb + 1) as nat, 32);
    assert(bits_below(w, (zb + 1) as nat) == bits_below(w, zb as nat) + 1);
    lemma_words_count_mono(m, col, (zw + 1) as nat, m.occ_words_per_col as nat);
    lemma_offsets_bounded(m, col + 1);
    assert(m.color_offsets@[col + 1] == m.color_offsets@[col] + m.column_count(col));
}

/// Every prefix offset is at most the total colour count.
pub proof fn lemma_offsets_bounded(m: &VoxelModel, col: int)
    requires
        m.wf(),
        0 <= col <= m.cols(),
    ensures
        m.color_offsets@[col] <= m.colors@.len(),
    decreases m.cols() - col,
{
    if col < m.cols() {
        lemma_offsets_bounded(m, col + 1);
        assert(m.color_offsets@[col + 1] == m.color_offsets@[col] + m.column_count(col));
    }
}

/// The word-wise count used by `rank` agrees with the bit-wise count.
pub proof fn lemma_col_bits_below(m: &VoxelModel, col: int, n: nat)
    ensures
        m.col_bits_below(col, n) == m.words_count(col, n / 32) + bits_below(m.word(col, (n / 32) as int), n % 32),
    decreases n,
{
    if n > 0 {
        let p = (n - 1) as nat;
        lemma_col_bits_below(m, col, p);
        assert((p % 32) as u32 == p % 32);
        if n % 32 == 0 {
            assert(p / 32 + 1 == n / 32 && p % 32 == 31);
            assert(bits_below(m.word(col, (p / 32) as int), 32) == bits_below(m.word(col, (p / 32) as int), 31)
                + if bit_set(m.word(col, (p / 32) as int), 31) { 1nat } else { 0nat });
        } else {
            assert(p / 32 == n / 32 && p % 32 + 1 == n % 32);
        }
    }
}

/// `rank` counts the solid voxels below `z` in its column.
pub proof fn lemma_rank_is_col_bits(m: &VoxelModel, x: int, y: int, z: int)
    requires
        0 <= z,
    ensures
        m.rank(x, y, z) == m.col_bits_below(m.column_of(x, y), z as nat),
{
    lemma_col_bits_below(m, m.column_of(x, y), z as nat);
}

/// In a well-formed model a column's count is its number of solid voxels
/// below `mz`.
pub proof fn lemma_column_count_is_col_bits(m: &VoxelModel, col: int)
    requires
        m.padding_clear(col),
    ensures
        m.column_count(col) == m.col_bits_below(col, m.dims[2] as nat),
{
    let top = (m.occ_words_per_col * 32) as nat;
    lemma_col_bits_below(m, col, top);
    assert(top / 32 == m.occ_words_per_col && top % 32 == 0) by (nonlinear_arith)
        requires top == m.occ_words_per_col * 32;
    lemma_col_bits_padding(m, col, top);
}

proof fn lemma_col_bits_padding(m: &VoxelModel, col: int, n: nat)
    requires
        m.padding_clear(col),
        m.dims[2] <= n <= m.occ_words_per_col * 32,
    ensures
        m.col_bits_below(col, n) == m.col_bits_below(col, m.dims[2] as nat),
    decreases n,
{
    if n > m.dims[2] {
        lemma_col_bits_padding(m, col, (n - 1) as nat);
        assert(!m.col_bit(col, n - 1));
    }
}

pub proof fn lemma_col_bits_below_mono(m: &VoxelModel, col: int, a: nat, b: nat)
    requires
        a <= b,
    ensures
        m.col_bits_below(col, a) <= m.col_bits_below(col, b),
    decreases b,
{
    if a < b {
        lemma_col_bits_below_mono(m, col, a, (b - 1) as nat);
    }
}

/// Two models whose column bits agree below `n` have the same count there.
pub proof fn lemma_col_bits_below_agree(m1: &VoxelModel, c1: int, m2: &VoxelModel, c2: int, n: nat)
    requires
        forall|z: int| 0 <= z < n ==> m1.col_bit(c1, z) == m2.col_bit(c2, z),
    ensures
        m1.col_bits_below(c1, n) == m2.col_bits_below(c2, n),
    decreases n,
{
    if n > 0 {
        lemma_col_bits_below_agree(m1, c1, m2, c2, (n - 1) as nat);
        assert(m1.col_bit(c1, n - 1) == m2.col_bit(c2, n - 1));
    }
}

/// Column counts of two models that differ only in bit `z` (set in `m1`,
/// clear in `m2`) differ by one once the count covers `z`.
pub proof fn lemma_col_bits_one_less(m1: &VoxelModel, m2: &VoxelModel, col: int, z: int, n: nat)
    requires
        0 <= z,
        m1.col_bit(col, z),
        !m2.col_bit(col, z),
        forall|zz: int| 0 <= zz < n && zz != z ==> m1.col_bit(col, zz) == m2.col_bit(col, zz),
    ensures
        m2.col_bits_below(col, n) + (if z < n { 1nat } else { 0nat }) == m1.col_bits_below(col, n),
    decreases n,
{
    if n > 0 {
        lemma_col_bits_one_less(m1, m2, col, z, (n - 1) as nat);
        if n - 1 != z {
            assert(m1.col_bit(col, n - 1) == m2.col_bit(col, n - 1));
        }
    }
}

/// Prefix offsets never decrease.
pub proof fn lemma_offsets_mono(m: &VoxelModel, a: int, b: int)
    requires
        m.wf(),
        0 <= a <= b <= m.cols(),
    ensures
        m.color_offsets@[a] <= m.color_offsets@[b],
    decreases b - a,
{
    if a < b {
        lemma_offsets_mono(m, a, b - 1);
        assert(m.color_offsets@[b] == m.color_offsets@[b - 1] + m.column_count(b - 1));
    }
}

proof fn lemma_col_bits_zero(m: &VoxelModel, col: int, n: nat)
    ensures
        m.col_bits_below(col, n) == 0 <==> forall|z: int| 0 <= z < n ==> !#[trigger] m.col_bit(col, z),
    decreases n,
{
    if n > 0 {
        lemma_col_bits_zero(m, col, (n - 1) as nat);
        if m.col_bits_below(col, n) == 0 {
            assert forall|z: int| 0 <= z < n implies !#[trigger] m.col_bit(col, z) by {
                if z < n - 1 {
                    assert(m.col_bits_below(col, (n - 1) as nat) == 0);
                }
            }
        }
    }
}

proof fn lemma_offsets_zero(m: &VoxelModel, c: int)
    requires
        m.wf(),
        0 <= c <= m.cols(),
        forall|k: int| 0 <= k < m.cols() ==> #[trigger] m.column_count(k) == 0,
    ensures
        m.color_offsets@[c] == 0,
    decreases c,
{
    if c > 0 {
        lemma_offsets_zero(m, c - 1);
        assert(m.color_offsets@[c] == m.color_offsets@[c - 1] + m.column_count(c - 1));
    }
}

/// A well-formed model has no colours exactly when it has no solid voxel.
pub proof fn lemma_voxel_count_zero_iff_empty(m: &VoxelModel)
    requires
        m.wf(),
    ensures
        m.colors@.len() == 0 <==> forall|x: int, y: int, z: int| #[trigger] m.in_bounds(x, y, z) ==> !m.occupied(x, y, z),
{
    let cols = m.cols();
    let d0 = m.dims[0] as int;
    if m.colors@.len() == 0 {
        assert forall|x: int, y: int, z: int| #[trigger] m.in_bounds(x, y, z) implies !m.occupied(x, y, z) by {
            lemma_voxel_index(m, x, y, z);
            let c = m.column_of(x, y);
            lemma_offsets_mono(m, 0, c);
            lemma_offsets_mono(m, c + 1, cols);
            assert(m.color_offsets@[c + 1] == m.color_offsets@[c] + m.column_count(c));
            assert(m.padding_clear(c));
            lemma_column_count_is_col_bits(m, c);
            lemma_col_bits_zero(m, c, m.dims[2] as nat);
        }
    }
    if forall|x: int, y: int, z: int| #[trigger] m.in_bounds(x, y, z) ==> !m.occupied(x, y, z) {
        assert forall|k: int| 0 <= k < cols implies #[trigger] m.column_count(k) == 0 by {
            let x = k % d0;
            let y = k / d0;
            assert(0 <= x < d0 && 0 <= y < m.dims[1] && x + y * d0 == k) by (nonlinear_arith)
                requires 0 <= k < cols, cols == d0 * m.dims[1], x == k % d0, y == k / d0;
            assert forall|z: int| 0 <= z < m.dims[2] implies !#[trigger] m.col_bit(k, z) by {
                assert(m.in_bounds(x, y, z));
            }
            lemma_col_bits_zero(m, k, m.dims[2] as nat);
            assert(m.padding_clear(k));
            lemma_column_count_is_col_bits(m, k);
        }
        lemma_offsets_zero(m, cols);
    }
}

impl VoxelModel {
    /// Popcount-rank index into `colors` for bit `z_bit` of word `z_word` of
    /// column `col`, whose occupancy block starts at `base`: the column's
    /// first colour index plus the solid voxels below that bit.
    pub fn voxel_color_index(&self, col: usize, base: usize, z_word: usize, z_bit: u32) -> (r: usize)
        requires
            self.wf(),
            col < self.cols(),
            base == col * self.occ_words_per_col,
            z_word < self.occ_words_per_col,
            z_bit < 32,
        ensures
            r == self.color_offsets@[col as int] + self.words_count(col as int, z_word as nat)
                + bits_below(self.word(col as int, z_word as int), z_bit as nat),
            r <= self.colors@.len(),
    {
        proof {
            lemma_words_count_mono(self, col as int, (z_word + 1) as nat, self.occ_words_per_col as nat);
            lemma_bits_below_mono(self.word(col as int, z_word as int), z_bit as nat, 32);
            lemma_offsets_bounded(self, col + 1);
            assert(self.color_offsets@[col + 1] == self.color_offsets@[col as int] + self.column_count(col as int));
        }
        let mut rank: usize = self.color_offsets[col] as usize;
        let mut w: usize = 0;
        while w < z_word
            invariant
                self.wf(),
                col < self.cols(),
                base == col * self.occ_words_per_col,
                z_word < self.occ_words_per_col,
                w <= z_word,
                rank == self.color_offsets@[col as int] + self.words_count(col as int, w as nat),
                self.color_offsets@[col as int] + self.words_count(col as int, (z_word + 1) as nat)
                    <= self.colors@.len(),
            decreases z_word - w,
        {
            proof {
                lemma_word_index_bound(col as int, w as int, self.cols(), self.occ_words_per_col as int);
                assert(base + w < self.occupancy.len());
                lemma_words_count_mono(self, col as int, (w + 1) as nat, (z_word + 1) as nat);
            }
            rank = rank + count_bits_below(self.occupancy[base + w], 32) as usize;
            w = w + 1;
        }
        proof {
            lemma_word_index_bound(col as int, z_word as int, self.cols(), self.occ_words_per_col as int);
            assert(base + z_word < self.occupancy@.len());
        }
        rank + count_bits_below(self.occupancy[base + z_word], z_bit) as usize
    }

    /// Colour of voxel `(x, y, z)`, or `None` where the voxel is empty.
    pub fn voxel_color(&self, x: u32, y: u32, z: u32) -> (r: Option<u32>)
        requires
            self.wf(),
            self.in_bounds(x as int, y as int, z as int),
        ensures
            r == if self.occupied(x as int, y as int, z as int) {
                Some(self.color_at(x as int, y as int, z as int))
            } else {
                None::<u32>
            },
    {
        proof {
            lemma_voxel_index(self, x as int, y as int, z as int);
        }
        let col = (x + y * self.dims[0]) as usize;
        proof {
            lemma_word_index_bound(col as int, z as int / 32, self.cols(), self.occ_words_per_col as int);
            assert(col * self.occ_words_per_col + z / 32 < self.occupancy@.len());
        }
        let base = col * self.occ_words_per_col as usize;
        let z_word = (z / 32) as usize;
        let z_bit = z % 32;
        assert(self.occupancy@[base + z_word] == self.word(self.column_of(x as int, y as int), z as int / 32));
        if (self.occupancy[base + z_word] >> z_bit) & 1 != 1 {
            return None;
        }
        proof {
            lemma_rank_in_column(self, x as int, y as int, z as int);
        }
        let idx = self.voxel_color_index(col, base, z_word, z_bit);
        Some(self.colors[idx])
    }

    /// The voxel at signed index `v`, if it lies inside the volume and is
    /// solid.
    pub fn occupied_voxel(&self, v: [i32; 3]) -> (r: Option<[u32; 3]>)
        requires
            self.occupancy_sized(),
        ensures
            r == if 0 <= v[0] && 0 <= v[1] && 0 <= v[2] && self.in_bounds(v[0] as int, v[1] as int, v[2] as int)
                && self.occupied(v[0] as int, v[1] as int, v[2] as int) {
                Some([v[0] as u32, v[1] as u32, v[2] as u32])
            } else {
                None::<[u32; 3]>
            },
    {
        if v[0] < 0 || v[1] < 0 || v[2] < 0 {
            return None;
        }
        let x = v[0] as u32;
        let y = v[1] as u32;
        let z = v[2] as u32;
        if x >= self.dims[0] || y >= self.dims[1] || z >= self.dims[2] {
            return None;
        }
        proof {
            lemma_voxel_index(self, x as int, y as int, z as int);
        }
        let col = (x + y * self.dims[0]) as usize;
        proof {
            lemma_word_index_bound(col as int, z as int / 32, self.cols(), self.occ_words_per_col as int);
            assert(col * self.occ_words_per_col + z / 32 < self.occupancy@.len());
        }
        let base = col * self.occ_words_per_col as usize;
        assert(self.occupancy@[base + (z / 32) as usize] == self.word(self.column_of(x as int, y as int), z as int / 32));
        if (self.occupancy[base + (z / 32) as usize] >> (z % 32)) & 1 == 1 {
            Some([x, y, z])
        } else {
            None
        }
    }

    /// Whether the occupancy array is sized for the volume
    /// (`occupancy_sized`).
    pub fn has_sized_occupancy(&self) -> (r: bool)
        ensures
            r == self.occupancy_sized(),
    {
        let owpc = self.occ_words_per_col;
        if self.dims[2] as u64 > owpc as u64 * 32 {
            return false;
        }
        assert(self.dims[0] * self.dims[1] <= 0xffff_ffff * 0xffff_ffff) by (nonlinear_arith)
            requires self.dims[0] <= 0xffff_ffff, self.dims[1] <= 0xffff_ffff;
        let cols64: u64 = self.dims[0] as u64 * self.dims[1] as u64;
        if cols64 > u32::MAX as u64 {
            return false;
        }
        assert(cols64 * owpc <= 0xffff_ffff * 0xffff_ffff) by (nonlinear_arith)
            requires cols64 <= 0xffff_ffff, owpc <= 0xffff_ffff;
        self.occupancy.len() as u64 == cols64 * owpc as u64
    }

    /// Whether the volume satisfies its structural invariant `wf`.
    pub fn is_well_formed(&self) -> (r: bool)
        ensures
            r == self.wf(),
    {
        let owpc = self.occ_words_per_col;
        if owpc < 1 {
            return false;
        }
        if self.dims[2] as u64 > owpc as u64 * 32 {
            return false;
        }
        assert(self.dims[0] * self.dims[1] <= 0xffff_ffff * 0xffff_ffff) by (nonlinear_arith)
            requires self.dims[0] <= 0xffff_ffff, self.dims[1] <= 0xffff_ffff;
        let cols64: u64 = self.dims[0] as u64 * self.dims[1] as u64;
        if cols64 > u32::MAX as u64 {
            return false;
        }
        assert(cols64 * owpc <= 0xffff_ffff * 0xffff_ffff) by (nonlinear_arith)
            requires cols64 <= 0xffff_ffff, owpc <= 0xffff_ffff;
        if self.occupancy.len() as u64 != cols64 * owpc as u64 {
            return false;
        }
        if self.color_offsets.len() as u64 != cols64 + 1 {
            return false;
        }
        if self.color_offsets[0] != 0 {
            return false;
        }
        let cols: usize = cols64 as usize;
        let mut col: usize = 0;
        while col < cols
            invariant
                owpc == self.occ_words_per_col,
                owpc >= 1,
                self.dims[2] <= owpc * 32,
                cols == self.cols(),
                cols <= u32::MAX,
                self.occupancy@.len() == cols * owpc,
                self.color_offsets@.len() == cols + 1,
                self.color_offsets@[0] == 0,
                col <= cols,
                forall|c: int| 0 <= c < col ==> self.color_offsets@[c + 1] == self.color_offsets@[c]
                    + #[trigger] self.column_count(c),
                forall|c: int| 0 <= c < col ==> #[trigger] self.padding_clear(c),
            decreases cols - col,
        {
            proof {
                lemma_word_index_bound(col as int, 0, cols as int, owpc as int);
                assert(col * owpc < self.occupancy.len());
            }
            let base: usize = col * owpc as usize;
            let mut count: u64 = 0;
            let mut w: usize = 0;
            while w < owpc as usize
                invariant
                    owpc == self.occ_words_per_col,
                    cols == self.cols(),
                    col < cols,
                    self.occupancy@.len() == cols * owpc,
                    base == col * owpc,
                    w <= owpc,
                    count == self.words_count(col as int, w as nat),
                    count <= w * 32,
                decreases owpc - w,
            {
                proof {
                    lemma_word_index_bound(col as int, w as int, cols as int, owpc as int);
                    assert(base + w < self.occupancy.len());
                }
                let bits = count_bits_below(self.occupancy[base + w], 32);
                proof {
                    lemma_bits_below_bound(self.occupancy@[base + w], 32);
                }
                count = count + bits as u64;
                w = w + 1;
            }
            assert(count == self.column_count(col as int));
            if self.color_offsets[col + 1] as u64 != self.color_offsets[col] as u64 + count {
                return false;
            }
            let top: u64 = owpc as u64 * 32;
            let mut z: u64 = self.dims[2] as u64;
            while z < top
                invariant
                    owpc == self.occ_words_per_col,
                    cols == self.cols(),
                    col < cols,
                    self.occupancy@.len() == cols * owpc,
                    base == col * owpc,
                    top == owpc * 32,
                    self.dims[2] <= z <= top,
                    forall|zz: int| self.dims[2] <= zz < z ==> !#[trigger] self.col_bit(col as int, zz),
                decreases top - z,
            {
                proof {
                    lemma_word_index_bound(col as int, z as int / 32, cols as int, owpc as int);
                    assert(base + z / 32 < self.occupancy.len());
                }
                let word = self.occupancy[base + (z / 32) as usize];
                if (word >> (z % 32) as u32) & 1 == 1 {
                    assert(self.col_bit(col as int, z as int));
                    assert(!self.padding_clear(col as int));
                    return false;
                }
                z = z + 1;
            }
            proof {
                assert(self.padding_clear(col as int));
            }
            col = col + 1;
        }
        if self.colors.len() as u64 != self.color_offsets[cols] as u64 {
            return false;
        }
        if self.dirs.len() != self.colors.len() {
            return false;
        }
        true
    }

    /// The pivot of every built model is the centre of its box: `dims / 2`
    /// on each axis. Returned doubled, so that it stays a whole number.
    pub fn doubled_pivot(&self) -> (p: [u32; 3])
        ensures
            p == self.dims,
    {
        self.dims
    }

    /// Number of solid voxels (one colour each).
    pub fn voxel_count(&self) -> (r: usize)
        ensures
            r == self.colors@.len(),
    {
        self.colors.len()
    }
}

/// Number of `true` entries of `s` in `[lo, hi)`.
pub open spec fn count_true(s: Seq<bool>, lo: int, hi: int) -> nat
    decreases hi - lo,
{
    if hi <= lo {
        0
    } else {
        count_true(s, lo, hi - 1) + if s[hi - 1] {
            1nat
        } else {
            0nat
        }
    }
}

pub proof fn lemma_count_true_split(s: Seq<bool>, a: int, b: int, c: int)
    requires
        a <= b <= c,
    ensures
        count_true(s, a, c) == count_true(s, a, b) + count_true(s, b, c),
    decreases c - b,
{
    if b < c {
        lemma_count_true_split(s, a, b, c - 1);
    }
}

pub proof fn lemma_count_true_bound(s: Seq<bool>, a: int, b: int)
    requires
        a <= b,
    ensures
        count_true(s, a, b) <= b - a,
    decreases b - a,
{
    if a < b {
        lemma_count_true_bound(s, a, b - 1);
    }
}

/// Index of voxel `(x, y, z)` in a dense column-major grid: columns in
/// `x + y * mx` order, `mz` consecutive z-levels per column.
pub open spec fn dense_index(dims: [u32; 3], x: int, y: int, z: int) -> int {
    (x + y * dims[0]) * dims[2] + z
}

/// Occupancy words for a column of height `mz`: `ceil(mz / 32)`, at least one.
pub open spec fn words_for_height(mz: u32) -> u32 {
    if mz == 0 {
        1
    } else {
        ((mz as int + 31) / 32) as u32
    }
}

/// `ceil(mz / 32)`, at least one.
pub fn words_per_column(mz: u32) -> (r: u32)
    ensures
        r == words_for_height(mz),
        r >= 1,
        mz <= r * 32,
        r <= mz / 32 + 1,
{
    if mz == 0 {
        1
    } else {
        mz / 32 + if mz % 32 == 0 { 0 } else { 1 }
    }
}

proof fn lemma_col_bits_match_dense(m: &VoxelModel, solid: Seq<bool>, col: int, n: nat)
    requires
        n <= m.dims[2],
        forall|z: int| 0 <= z < m.dims[2] ==> m.col_bit(col, z) == solid[col * m.dims[2] + z],
    ensures
        m.col_bits_below(col, n) == count_true(solid, col * m.dims[2], col * m.dims[2] + n),
    decreases n,
{
    if n > 0 {
        lemma_col_bits_match_dense(m, solid, col, (n - 1) as nat);
        assert(m.col_bit(col, n - 1) == solid[col * m.dims[2] + n - 1]);
    }
}

impl VoxelModel {
    /// Pack a dense grid into a volume: voxel `(x, y, z)` is solid when
    /// `solid[dense_index(dims, x, y, z)]`, and then gets the colour at the same
    /// index of `colors` and normal index 0.
    pub fn from_dense(dims: [u32; 3], solid: &Vec<bool>, colors: &Vec<u32>) -> (m: VoxelModel)
        requires
            dims[0] * dims[1] <= u32::MAX,
            dims[0] * dims[1] * dims[2] <= u32::MAX,
            dims[0] * dims[1] * (dims[2] / 32 + 1) <= usize::MAX,
            solid@.len() == dims[0] * dims[1] * dims[2],
            colors@.len() == solid@.len(),
        ensures
            m.wf(),
            m.dims == dims,
            m.occ_words_per_col == words_for_height(dims[2]),
            forall|x: int, y: int, z: int| #[trigger] m.in_bounds(x, y, z) ==> m.occupied(x, y, z) == solid@[dense_index(dims, x, y, z)],
            forall|x: int, y: int, z: int| m.in_bounds(x, y, z) && #[trigger] m.occupied(x, y, z)
                ==> m.color_at(x, y, z) == colors@[dense_index(dims, x, y, z)],
            forall|i: int| 0 <= i < m.dirs@.len() ==> m.dirs@[i] == 0,
            m.colors@.len() == count_true(solid@, 0, solid@.len() as int),
    {
        let mz = dims[2];
        let owpc = words_per_column(mz);
        let cols: usize = (dims[0] * dims[1]) as usize;
        proof {
            let c = cols as int;
            assert(c * (owpc as int) <= c * (mz as int / 32 + 1)) by (nonlinear_arith)
                requires owpc <= mz / 32 + 1, c >= 0;
        }
        let n_words: usize = cols * owpc as usize;
        let mut occupancy: Vec<u32> = Vec::new();
        while occupancy.len() < n_words
            invariant
                occupancy@.len() <= n_words,
                forall|i: int| 0 <= i < occupancy@.len() ==> occupancy@[i] == 0,
            decreases n_words - occupancy@.len(),
        {
            occupancy.push(0);
        }
        let mut offsets: Vec<u32> = Vec::new();
        let mut out_colors: Vec<u32> = Vec::new();
        let mut dirs: Vec<u32> = Vec::new();
        let ghost o = owpc as int;
        let ghost mzi = dims[2] as int;
        proof {
            lemma_zero_word_bits();
            assert forall|c: int, zz: int| 0 <= c < cols && 0 <= zz < owpc * 32 implies !#[trigger] occ_bit(occupancy@, o, c, zz) by {
                lemma_word_index_bound(c, zz / 32, cols as int, o);
            }
        }
        let mut col: usize = 0;
        while col < cols
            invariant
                cols == dims[0] * dims[1],
                dims[0] * dims[1] * dims[2] <= u32::MAX,
                solid@.len() == cols * dims[2],
                colors@.len() == solid@.len(),
                mz == dims[2],
                mzi == dims[2],
                o == owpc,
                owpc >= 1,
                dims[2] <= owpc * 32,
                occupancy.len() == cols * owpc,
                col <= cols,
                offsets@.len() == col,
                forall|c: int, zz: int| 0 <= c < cols && 0 <= zz < owpc * 32 ==> #[trigger] occ_bit(occupancy@, o, c, zz)
                    == (c < col && zz < mzi && solid@[c * mzi + zz]),
                forall|c: int| 0 <= c < col ==> offsets@[c] == count_true(solid@, 0, #[trigger] (c * mzi)),
                out_colors@.len() == count_true(solid@, 0, col * mzi),
                dirs@.len() == out_colors@.len(),
                forall|i: int| 0 <= i < dirs@.len() ==> dirs@[i] == 0,
                forall|i: int| 0 <= i < col * mzi && solid@[i] ==> out_colors@[#[trigger] count_true(solid@, 0, i) as int] == colors@[i],
            decreases cols - col,
        {
            proof {
                assert(col * mzi + mzi <= cols * mzi) by (nonlinear_arith)
                    requires col < cols, 0 <= mzi;
                lemma_count_true_bound(solid@, 0, col * mzi);
            }
            offsets.push(out_colors.len() as u32);
            let mut z: u32 = 0;
            while z < mz
                invariant
                    cols == dims[0] * dims[1],
                    dims[0] * dims[1] * dims[2] <= u32::MAX,
                    solid@.len() == cols * dims[2],
                    colors@.len() == solid@.len(),
                    mz == dims[2],
                    mzi == dims[2],
                    o == owpc,
                    owpc >= 1,
                    dims[2] <= owpc * 32,
                    occupancy.len() == cols * owpc,
                    col < cols,
                    col * mzi + mzi <= cols * mzi,
                    z <= mz,
                    offsets@.len() == col + 1,
                    forall|c: int, zz: int| 0 <= c < cols && 0 <= zz < owpc * 32 ==> #[trigger] occ_bit(occupancy@, o, c, zz)
                        == ((c < col || (c == col && zz < z)) && zz < mzi && solid@[c * mzi + zz]),
                    forall|c: int| 0 <= c <= col ==> offsets@[c] == count_true(solid@, 0, #[trigger] (c * mzi)),
                    out_colors@.len() == count_true(solid@, 0, col * mzi + z),
                    dirs@.len() == out_colors@.len(),
                    forall|i: int| 0 <= i < dirs@.len() ==> dirs@[i] == 0,
                    forall|i: int| 0 <= i < col * mzi + z && solid@[i] ==> out_colors@[#[trigger] count_true(solid@, 0, i) as int] == colors@[i],
                decreases mz - z,
            {
                let i: usize = col * mz as usize + z as usize;
                if solid[i] {
                    proof {
                        assert(z as int / 32 < owpc) by (nonlinear_arith)
                            requires z < dims[2], dims[2] <= owpc * 32;
                        lemma_word_index_bound(col as int, z as int / 32, cols as int, o);
                    }
                    let idx: usize = col * owpc as usize + (z / 32) as usize;
                    let ghost old_occ = occupancy@;
                    let word = occupancy[idx];
                    proof {
                        lemma_set_bit(word, z % 32);
                    }
                    occupancy.set(idx, word | (1u32 << (z % 32)));
                    proof {
                        assert forall|c: int, zz: int| 0 <= c < cols && 0 <= zz < owpc * 32 implies #[trigger] occ_bit(occupancy@, o, c, zz)
                            == ((c < col || (c == col && zz < z + 1)) && zz < mzi && solid@[c * mzi + zz]) by {
                            assert(0 <= zz / 32 < o);
                            lemma_word_index_bound(c, zz / 32, cols as int, o);
                            assert(old_occ.len() == occupancy@.len());
                            if c * o + zz / 32 == idx {
                                lemma_word_index_injective(c, zz / 32, col as int, z as int / 32, o);
                                assert((zz % 32) as u32 == zz % 32);
                                assert(occupancy@[idx as int] == word | (1u32 << (z % 32)));
                                assert(old_occ[idx as int] == word);
                                if zz != z {
                                    assert(zz % 32 != z % 32);
                                    assert(bit_set(word | (1u32 << (z % 32)), (zz % 32) as u32) == bit_set(word, (zz % 32) as u32));
                                    assert(occ_bit(old_occ, o, c, zz) == occ_bit(occupancy@, o, c, zz));
                                } else {
                                    assert(occ_bit(occupancy@, o, c, zz));
                                    assert(c * mzi + zz == i);
                                }
                            } else {
                                assert(occupancy@[c * o + zz / 32] == old_occ[c * o + zz / 32]);
                                assert(occ_bit(old_occ, o, c, zz) == occ_bit(occupancy@, o, c, zz));
                            }
                        }
                    }
                    proof {
                        lemma_count_true_bound(solid@, 0, i as int);
                    }
                    let ghost before = out_colors@;
                    out_colors.push(colors[i]);
                    dirs.push(0);
                    proof {
                        assert(count_true(solid@, 0, i + 1) == count_true(solid@, 0, i as int) + 1);
                        assert forall|j: int| 0 <= j < col * mzi + z + 1 && solid@[j] implies out_colors@[#[trigger] count_true(solid@, 0, j) as int] == colors@[j] by {
                            if j < i {
                                lemma_count_true_split(solid@, 0, j + 1, i as int);
                                assert(count_true(solid@, 0, j + 1) == count_true(solid@, 0, j) + 1);
                                assert(out_colors@[count_true(solid@, 0, j) as int] == before[count_true(solid@, 0, j) as int]);
                            }
                        }
                    }
                } else {
                    proof {
                        assert(count_true(solid@, 0, i + 1) == count_true(solid@, 0, i as int));
                        assert forall|c: int, zz: int| 0 <= c < cols && 0 <= zz < owpc * 32 implies #[trigger] occ_bit(occupancy@, o, c, zz)
                            == ((c < col || (c == col && zz < z + 1)) && zz < mzi && solid@[c * mzi + zz]) by {
                            if c == col && zz == z {
                                assert(solid@[c * mzi + zz] == solid@[i as int]);
                            }
                        }
                    }
                }
                z = z + 1;
            }
            proof {
                assert((col + 1) * mzi == col * mzi + mzi) by (nonlinear_arith);
            }
            col = col + 1;
        }
        proof {
            lemma_count_true_bound(solid@, 0, cols * mzi);
        }
        offsets.push(out_colors.len() as u32);
        let m = VoxelModel {
            dims,
            occ_words_per_col: owpc,
            occupancy,
            colors: out_colors,
            dirs,
            color_offsets: offsets,
        };
        proof {
            assert forall|c: int, zz: int| 0 <= c < cols && 0 <= zz < owpc * 32 implies #[trigger] m.col_bit(c, zz)
                == (zz < mzi && solid@[c * mzi + zz]) by {
                assert(occ_bit(occupancy@, o, c, zz) == (zz < mzi && solid@[c * mzi + zz]));
            }
            assert forall|c: int| 0 <= c < cols implies #[trigger] m.padding_clear(c) by {
                assert forall|z: int| dims[2] <= z < owpc * 32 implies !#[trigger] m.col_bit(c, z) by {
                    assert(m.col_bit(c, z) == (z < mzi && solid@[c * mzi + z]));
                }
            }
            assert forall|c: int| 0 <= c < cols implies m.color_offsets@[c + 1] == m.color_offsets@[c]
                + #[trigger] m.column_count(c) by {
                lemma_column_count_is_col_bits(&m, c);
                assert forall|z: int| 0 <= z < m.dims[2] implies #[trigger] m.col_bit(c, z) == solid@[c * m.dims[2] + z] by {
                    assert(m.col_bit(c, z) == (z < mzi && solid@[c * mzi + z]));
                }
                lemma_col_bits_match_dense(&m, solid@, c, dims[2] as nat);
                lemma_count_true_split(solid@, 0, c * mzi, c * mzi + mzi);
                assert((c + 1) * mzi == c * mzi + mzi) by (nonlinear_arith);
                if c + 1 < cols {
                    assert(m.color_offsets@[c + 1] == count_true(solid@, 0, (c + 1) * mzi));
                }
            }
            if cols > 0 {
                assert(m.color_offsets@[0] == count_true(solid@, 0, 0 * mzi));
            }
            assert(m.wf());
            assert forall|x: int, y: int, z: int| #[trigger] m.in_bounds(x, y, z)
                implies m.occupied(x, y, z) == solid@[dense_index(dims, x, y, z)] by {
                lemma_voxel_index(&m, x, y, z);
                assert(0 <= z < owpc * 32);
                assert(m.col_bit(m.column_of(x, y), z) == (z < mzi && solid@[m.column_of(x, y) * mzi + z]));
            }
            assert forall|x: int, y: int, z: int| m.in_bounds(x, y, z) && #[trigger] m.occupied(x, y, z)
                implies m.color_at(x, y, z) == colors@[dense_index(dims, x, y, z)] by {
                lemma_voxel_index(&m, x, y, z);
                let c = m.column_of(x, y);
                lemma_rank_is_col_bits(&m, x, y, z);
                assert forall|zz: int| 0 <= zz < m.dims[2] implies #[trigger] m.col_bit(c, zz) == solid@[c * m.dims[2] + zz] by {
                    assert(m.col_bit(c, zz) == (zz < mzi && solid@[c * mzi + zz]));
                }
                lemma_col_bits_match_dense(&m, solid@, c, z as nat);
                lemma_count_true_split(solid@, 0, c * mzi, c * mzi + z);
                assert(c * mzi + z < cols * mzi) by (nonlinear_arith)
                    requires 0 <= c < cols, 0 <= z < mzi;
                assert(m.col_bit(c, z) == (z < mzi && solid@[c * mzi + z]));
            }
        }
        m
    }
}

} // verus!
