//! Perceptual hashes of small grayscale images.
use vstd::prelude::*;
use vstd::multiset::Multiset;
use vstd::relations::{sorted_by, total_ordering};
use crate::error::DecodeError;
use crate::text::string_of;

verus! {

/// A single-channel 8-bit image, stored row by row.
#[derive(Clone, Debug)]
pub struct GrayImage {
    pub width: usize,
    pub height: usize,
    pub pixels: Vec<u8>,
}

impl GrayImage {
    /// The pixel buffer holds exactly one sample per pixel.
    pub open spec fn wf(&self) -> bool {
        self.pixels@.len() == self.width * self.height
    }
}

/// The sum of a sequence of samples.
pub open spec fn sum_of(s: Seq<u8>) -> int
    decreases s.len(),
{
    if s.len() == 0 {
        0
    } else {
        sum_of(s.drop_last()) + s.last() as int
    }
}

/// The bit of one comparison.
pub open spec fn bit(b: bool) -> char {
    if b {
        '1'
    } else {
        '0'
    }
}

/// Average hash of 64 samples: bit `i` is set when sample `i` is at least the
/// truncated mean of all samples.
pub open spec fn average_hash_of(p: Seq<u8>) -> Seq<char> {
    Seq::new(64, |i: int| bit(p[i] as int >= sum_of(p) / 64))
}

/// Sum of the four samples of a row that start at `start`.
pub open spec fn row4(p: Seq<u8>, start: int) -> int {
    p[start] as int + p[start + 1] as int + p[start + 2] as int + p[start + 3] as int
}

/// Index of the top-left sample of block `k` of a 32x32 image cut into an
/// 8x8 grid of 4x4 blocks, blocks numbered row by row.
pub open spec fn block_origin(k: int) -> int {
    128 * (k / 8) + 4 * (k % 8)
}

/// Sum of the sixteen samples of block `k`.
pub open spec fn block_sum(p: Seq<u8>, k: int) -> int {
    let b = block_origin(k);
    row4(p, b) + row4(p, b + 32) + row4(p, b + 64) + row4(p, b + 96)
}

/// The sums of the 64 blocks, in block order.
pub open spec fn block_sums(p: Seq<u8>) -> Seq<int> {
    Seq::new(64, |k: int| block_sum(p, k))
}

/// Twice the median of the block means, in units of block sums over sixteen:
/// the two central block sums after sorting, added.
pub open spec fn median_twice(p: Seq<u8>) -> int {
    let s = block_sums(p).sort();
    s[31] + s[32]
}

/// Block-median hash: bit `k` is set when the mean of block `k` is strictly
/// above the median of the 64 block means. A block mean is its sum over 16
/// and the median is `median_twice / 32`, so the comparison is made on sums.
pub open spec fn block_hash_of(p: Seq<u8>) -> Seq<char> {
    Seq::new(64, |k: int| bit(2 * block_sum(p, k) > median_twice(p)))
}

/// Whether a string holds only the characters `0` and `1`.
pub open spec fn is_bit_string(s: Seq<char>) -> bool {
    forall|i: int| 0 <= i < s.len() ==> s[i] == '0' || s[i] == '1'
}

/// The average hash of an 8x8 image, as 64 characters `0` or `1`, row by row.
pub fn compute_average_hash(img: &GrayImage) -> (r: Result<String, DecodeError>)
    requires
        img.wf(),
    ensures
        match r {
            Ok(h) => img.width == 8 && img.height == 8 && h@ == average_hash_of(img.pixels@)
                && h@.len() == 64 && is_bit_string(h@),
            Err(e) => !(img.width == 8 && img.height == 8) && e == DecodeError::ShapeMismatch,
        },
{
    if img.width != 8 || img.height != 8 {
        return Err(DecodeError::ShapeMismatch);
    }
    let p = &img.pixels;
    let mut sum: u32 = 0;
    let mut i: usize = 0;
    while i < 64
        invariant
            i <= 64,
            p@.len() == 64,
            sum == sum_of(p@.subrange(0, i as int)),
            sum <= 255 * i,
        decreases 64 - i,
    {
        assert(p@.subrange(0, i + 1).drop_last() =~= p@.subrange(0, i as int));
        sum = sum + p[i] as u32;
        i = i + 1;
    }
    assert(p@.subrange(0, 64) =~= p@);
    let avg = sum / 64;
    let mut bits: Vec<char> = Vec::with_capacity(64);
    let mut j: usize = 0;
    while j < 64
        invariant
            j <= 64,
            p@.len() == 64,
            avg == sum_of(p@) / 64,
            bits@ =~= average_hash_of(p@).subrange(0, j as int),
        decreases 64 - j,
    {
        if p[j] as u32 >= avg {
            bits.push('1');
        } else {
            bits.push('0');
        }
        j = j + 1;
    }
    let h = string_of(&bits);
    Ok(h)
}

fn row4_exec(p: &Vec<u8>, start: usize) -> (r: u32)
    requires
        start < 1021,
        p@.len() == 1024,
    ensures
        r == row4(p@, start as int),
        r <= 1020,
{
    let a: u32 = p[start] as u32;
    let b: u32 = p[start + 1] as u32;
    let c: u32 = p[start + 2] as u32;
    let d: u32 = p[start + 3] as u32;
    a + b + c + d
}

/// The sums of the 64 blocks of a 32x32 image.
fn block_sums_exec(p: &Vec<u8>) -> (r: Vec<u32>)
    requires
        p@.len() == 1024,
    ensures
        r@.len() == 64,
        forall|k: int| 0 <= k < 64 ==> r@[k] as int == block_sum(p@, k),
{
    let mut r: Vec<u32> = Vec::with_capacity(64);
    let mut k: usize = 0;
    while k < 64
        invariant
            k <= 64,
            p@.len() == 1024,
            r@.len() == k,
            forall|q: int| 0 <= q < k ==> r@[q] as int == block_sum(p@, q),
        decreases 64 - k,
    {
        let b: usize = 128 * (k / 8) + 4 * (k % 8);
        assert(b + 99 < 1024) by (nonlinear_arith)
            requires
                k < 64,
                b == 128 * (k / 8) + 4 * (k % 8),
        ;
        let s = row4_exec(p, b) + row4_exec(p, b + 32) + row4_exec(p, b + 64) + row4_exec(
            p,
            b + 96,
        );
        r.push(s);
        k = k + 1;
    }
    r
}

/// The values of a vector of block sums, as integers.
pub open spec fn as_ints(v: Seq<u32>) -> Seq<int> {
    v.map_values(|x: u32| x as int)
}

/// Sorts a vector of block sums in increasing order.
fn sort_sums(v: &mut Vec<u32>)
    ensures
        final(v)@.len() == old(v)@.len(),
        as_ints(final(v)@).to_multiset() == as_ints(old(v)@).to_multiset(),
        sorted_by(as_ints(final(v)@), |x: int, y: int| x <= y),
{
    broadcast use vstd::seq_lib::group_to_multiset_ensures;

    let n = v.len();
    let ghost m = as_ints(v@).to_multiset();
    let mut i: usize = 0;
    while i < n
        invariant
            n == v@.len(),
            i <= n,
            as_ints(v@).to_multiset() == m,
            forall|a: int, b: int| 0 <= a < b < i ==> v@[a] <= v@[b],
        decreases n - i,
    {
        let mut j: usize = i;
        while j > 0 && v[j - 1] > v[j]
            invariant
                n == v@.len(),
                j <= i < n,
                as_ints(v@).to_multiset() == m,
                forall|a: int, b: int|
                    0 <= a < b <= i && a != j && b != j ==> v@[a] <= v@[b],
                forall|b: int| j < b <= i ==> v@[j as int] <= v@[b],
            decreases j,
        {
            let x = v[j];
            let y = v[j - 1];
            let ghost before = as_ints(v@);
            v.set(j - 1, x);
            v.set(j, y);
            proof {
                broadcast use vstd::multiset::group_multiset_axioms;

                let mid = before.update(j - 1, x as int);
                assert(as_ints(v@) =~= mid.update(j as int, y as int));
                assert(before[j - 1] == y as int);
                assert(mid[j as int] == x as int);
                vstd::seq_lib::to_multiset_update(before, j - 1, x as int);
                vstd::seq_lib::to_multiset_update(mid, j as int, y as int);
                assert(before.to_multiset().contains(y as int)) by {
                    vstd::seq_lib::to_multiset_contains(before, y as int);
                    assert(before.contains(y as int)) by {
                        assert(before[j - 1] == y as int);
                    }
                }
                assert(as_ints(v@).to_multiset() =~= m);
            }
            j = j - 1;
        }
        i = i + 1;
    }
    assert(sorted_by(as_ints(v@), |x: int, y: int| x <= y)) by {
        assert forall|a: int, b: int| 0 <= a < b < as_ints(v@).len() implies (|x: int, y: int|
            x <= y)(as_ints(v@)[a], as_ints(v@)[b]) by {
            assert(v@[a] <= v@[b]);
        }
    }
}

proof fn lemma_int_order_total()
    ensures
        total_ordering(|x: int, y: int| x <= y),
{
}

/// The block-median hash of a 32x32 image, as 64 characters `0` or `1` in
/// block order.
pub fn compute_block_median_hash(img: &GrayImage) -> (r: Result<String, DecodeError>)
    requires
        img.wf(),
    ensures
        match r {
            Ok(h) => img.width == 32 && img.height == 32 && h@ == block_hash_of(img.pixels@)
                && h@.len() == 64 && is_bit_string(h@),
            Err(e) => !(img.width == 32 && img.height == 32) && e == DecodeError::ShapeMismatch,
        },
{
    if img.width != 32 || img.height != 32 {
        return Err(DecodeError::ShapeMismatch);
    }
    let p = &img.pixels;
    let sums = block_sums_exec(p);
    let mut sorted = sums.clone();
    assert(sorted@ == sums@);
    sort_sums(&mut sorted);
    proof {
        let bs = block_sums(p@);
        assert(as_ints(sums@) =~= bs);
        bs.lemma_sort_ensures();
        lemma_int_order_total();
        vstd::seq_lib::lemma_sorted_unique(
            as_ints(sorted@),
            bs.sort(),
            |x: int, y: int| x <= y,
        );
        assert(as_ints(sorted@)[31] == sorted@[31] as int);
        assert(as_ints(sorted@)[32] == sorted@[32] as int);
    }
    let m2: u64 = sorted[31] as u64 + sorted[32] as u64;
    assert(m2 == median_twice(p@));
    let mut bits: Vec<char> = Vec::with_capacity(64);
    let mut k: usize = 0;
    while k < 64
        invariant
            k <= 64,
            sums@.len() == 64,
            p@.len() == 1024,
            forall|q: int| 0 <= q < 64 ==> sums@[q] as int == block_sum(p@, q),
            m2 == median_twice(p@),
            bits@ =~= block_hash_of(p@).subrange(0, k as int),
        decreases 64 - k,
    {
        if 2 * (sums[k] as u64) > m2 as u64 {
            bits.push('1');
        } else {
            bits.push('0');
        }
        k = k + 1;
    }
    let h = string_of(&bits);
    Ok(h)
}

proof fn lemma_sum_of_constant(s: Seq<u8>, v: u8)
    requires
        forall|i: int| 0 <= i < s.len() ==> s[i] == v,
    ensures
        sum_of(s) == s.len() * (v as int),
    decreases s.len(),
{
    if s.len() > 0 {
        lemma_sum_of_constant(s.drop_last(), v);
        assert(sum_of(s) == (s.len() - 1) * (v as int) + v as int);
        assert((s.len() - 1) * (v as int) + v as int == s.len() * (v as int)) by (nonlinear_arith);
    }
}

/// An 8x8 image whose 64 samples are all equal has the average hash of 64
/// ones: every sample equals the mean.
pub proof fn lemma_flat_image_average_hash(p: Seq<u8>)
    requires
        p.len() == 64,
        forall|i: int, j: int| 0 <= i < 64 && 0 <= j < 64 ==> p[i] == p[j],
    ensures
        average_hash_of(p) == Seq::new(64, |i: int| '1'),
{
    lemma_sum_of_constant(p, p[0]);
    assert(sum_of(p) / 64 == p[0] as int);
    assert(average_hash_of(p) =~= Seq::new(64, |i: int| '1'));
}

/// The number of elements equal to `x` from index `i` on.
pub open spec fn count_from(s: Seq<int>, x: int, i: int) -> nat
    decreases s.len() - i,
{
    if i < 0 || i >= s.len() {
        0
    } else {
        (if s[i] == x {
            1nat
        } else {
            0nat
        }) + count_from(s, x, i + 1)
    }
}

proof fn lemma_count_from_multiset(s: Seq<int>, x: int, i: int)
    requires
        0 <= i <= s.len(),
    ensures
        s.subrange(i, s.len() as int).to_multiset().count(x) == count_from(s, x, i),
    decreases s.len() - i,
{
    broadcast use vstd::seq_lib::group_to_multiset_ensures;
    broadcast use vstd::multiset::group_multiset_axioms;

    let t = s.subrange(i, s.len() as int);
    if i == s.len() {
        assert(t =~= Seq::<int>::empty());
        assert(t.to_multiset() =~= Multiset::<int>::empty());
    } else {
        lemma_count_from_multiset(s, x, i + 1);
        let rest = s.subrange(i + 1, s.len() as int);
        assert(rest.insert(0, s[i]) =~= t);
        vstd::seq_lib::to_multiset_insert(rest, 0, s[i]);
    }
}

/// Each value of a sequence raised by `d`.
pub open spec fn shifted(s: Seq<int>, d: int) -> Seq<int> {
    s.map_values(|x: int| x + d)
}

proof fn lemma_count_shifted(s: Seq<int>, d: int, x: int, i: int)
    requires
        0 <= i <= s.len(),
    ensures
        count_from(shifted(s, d), x, i) == count_from(s, x - d, i),
    decreases s.len() - i,
{
    if i < s.len() {
        lemma_count_shifted(s, d, x, i + 1);
    }
}

proof fn lemma_sort_shifted(s: Seq<int>, d: int)
    ensures
        shifted(s, d).sort() == shifted(s.sort(), d),
{
    let leq = |x: int, y: int| x <= y;
    let t = shifted(s.sort(), d);
    s.lemma_sort_ensures();
    shifted(s, d).lemma_sort_ensures();
    lemma_int_order_total();
    assert(s.sort().len() == s.len()) by {
        vstd::seq_lib::to_multiset_len(s);
        vstd::seq_lib::to_multiset_len(s.sort());
    }
    assert(sorted_by(t, leq)) by {
        assert forall|a: int, b: int| 0 <= a < b < t.len() implies #[trigger] leq(t[a], t[b]) by {
            assert(leq(s.sort()[a], s.sort()[b]));
        }
    }
    assert(shifted(s, d).to_multiset() =~= t.to_multiset()) by {
        assert forall|x: int| shifted(s, d).to_multiset().count(x) == t.to_multiset().count(x) by {
            lemma_count_from_multiset(shifted(s, d), x, 0);
            lemma_count_from_multiset(t, x, 0);
            lemma_count_from_multiset(s, x - d, 0);
            lemma_count_from_multiset(s.sort(), x - d, 0);
            lemma_count_shifted(s, d, x, 0);
            lemma_count_shifted(s.sort(), d, x, 0);
            assert(shifted(s, d).subrange(0, s.len() as int) =~= shifted(s, d));
            assert(t.subrange(0, s.len() as int) =~= t);
            assert(s.subrange(0, s.len() as int) =~= s);
            assert(s.sort().subrange(0, s.len() as int) =~= s.sort());
        }
    }
    vstd::seq_lib::lemma_sorted_unique(t, shifted(s, d).sort(), leq);
}

/// Raising every sample of a 32x32 image by the same amount leaves its
/// block-median hash unchanged.
pub proof fn lemma_block_hash_ignores_offset(p: Seq<u8>, q: Seq<u8>, c: u8)
    requires
        p.len() == 1024,
        q.len() == 1024,
        forall|i: int| 0 <= i < 1024 ==> #[trigger] q[i] == p[i] + c,
    ensures
        block_hash_of(q) == block_hash_of(p),
{
    let d = 16 * (c as int);
    assert(block_sums(q) =~= shifted(block_sums(p), d));
    lemma_sort_shifted(block_sums(p), d);
    block_sums(p).lemma_sort_ensures();
    assert(block_sums(p).sort().len() == 64) by {
        vstd::seq_lib::to_multiset_len(block_sums(p));
        vstd::seq_lib::to_multiset_len(block_sums(p).sort());
    }
    assert(median_twice(q) == median_twice(p) + 2 * d);
    assert(block_hash_of(q) =~= block_hash_of(p));
}

/// The number of values of `s` above `v`.
pub open spec fn count_above(s: Seq<int>, v: int) -> nat
    decreases s.len(),
{
    if s.len() == 0 {
        0
    } else {
        (if s[0] > v {
            1nat
        } else {
            0nat
        }) + count_above(s.drop_first(), v)
    }
}

/// The number of `1` characters in a string.
pub open spec fn count_ones(s: Seq<char>) -> nat
    decreases s.len(),
{
    if s.len() == 0 {
        0
    } else {
        (if s[0] == '1' {
            1nat
        } else {
            0nat
        }) + count_ones(s.drop_first())
    }
}

proof fn lemma_count_above_remove(t: Seq<int>, v: int, j: int)
    requires
        0 <= j < t.len(),
    ensures
        count_above(t, v) == (if t[j] > v {
            1nat
        } else {
            0nat
        }) + count_above(t.remove(j), v),
    decreases j,
{
    if j == 0 {
        assert(t.remove(0) =~= t.drop_first());
    } else {
        lemma_count_above_remove(t.drop_first(), v, j - 1);
        assert(t.remove(j).drop_first() =~= t.drop_first().remove(j - 1));
        assert(t.remove(j)[0] == t[0]);
    }
}

proof fn lemma_count_above_permutation(s: Seq<int>, t: Seq<int>, v: int)
    requires
        s.to_multiset() == t.to_multiset(),
    ensures
        count_above(s, v) == count_above(t, v),
    decreases s.len(),
{
    broadcast use vstd::seq_lib::group_to_multiset_ensures;
    broadcast use vstd::multiset::group_multiset_axioms;

    vstd::seq_lib::to_multiset_len(s);
    vstd::seq_lib::to_multiset_len(t);
    if s.len() == 0 {
        assert(t.len() == 0);
    } else {
        assert(t.to_multiset().contains(s[0]));
        assert(t.contains(s[0]));
        let j = choose|j: int| 0 <= j < t.len() && t[j] == s[0];
        lemma_count_above_remove(t, v, j);
        assert(s.drop_first().insert(0, s[0]) =~= s);
        assert(s.drop_first().to_multiset() =~= s.to_multiset().remove(s[0]));
        assert(t.remove(j).to_multiset() =~= t.to_multiset().remove(t[j]));
        lemma_count_above_permutation(s.drop_first(), t.remove(j), v);
    }
}

proof fn lemma_count_above_sorted_prefix(s: Seq<int>, v: int, k: int)
    requires
        0 <= k <= s.len(),
        forall|i: int| 0 <= i < k ==> s[i] <= v,
    ensures
        count_above(s, v) <= s.len() - k,
    decreases s.len(),
{
    if s.len() > 0 {
        if k > 0 {
            lemma_count_above_sorted_prefix(s.drop_first(), v, k - 1);
        } else {
            lemma_count_above_sorted_prefix(s.drop_first(), v, 0);
        }
    }
}

proof fn lemma_ones_below_count_above(h: Seq<char>, b: Seq<int>, v: int)
    requires
        h.len() == b.len(),
        forall|i: int| 0 <= i < h.len() && h[i] == '1' ==> b[i] > v,
    ensures
        count_ones(h) <= count_above(b, v),
    decreases h.len(),
{
    if h.len() > 0 {
        lemma_ones_below_count_above(h.drop_first(), b.drop_first(), v);
    }
}

/// A block-median hash sets at most 32 of its 64 bits: a set bit marks a
/// block above the median, and at most half of the blocks are.
pub proof fn lemma_block_hash_at_most_half_set(p: Seq<u8>)
    ensures
        count_ones(block_hash_of(p)) <= 32,
{
    let bs = block_sums(p);
    let u = bs.sort();
    bs.lemma_sort_ensures();
    assert(u.len() == 64) by {
        vstd::seq_lib::to_multiset_len(bs);
        vstd::seq_lib::to_multiset_len(u);
    }
    let m = u[31];
    assert forall|i: int| 0 <= i < 32 implies u[i] <= m by {
        if i < 31 {
            assert((|x: int, y: int| x <= y)(u[i], u[31]));
        }
    }
    assert((|x: int, y: int| x <= y)(u[31], u[32]));
    lemma_count_above_sorted_prefix(u, m, 32);
    lemma_count_above_permutation(bs, u, m);
    lemma_ones_below_count_above(block_hash_of(p), bs, m);
}

/// The block value of a checkerboard: `lo` where the block's row and
/// column have the same parity, `hi` elsewhere.
pub open spec fn checker(k: int, lo: u8, hi: u8) -> u8 {
    if (k / 8 + k % 8) % 2 == 0 {
        lo
    } else {
        hi
    }
}

/// Sample `(dy, dx)` of block `k`.
pub open spec fn block_sample(p: Seq<u8>, k: int, dy: int, dx: int) -> u8 {
    p[block_origin(k) + 32 * dy + dx]
}

proof fn lemma_flat_block_sum(p: Seq<u8>, k: int, v: u8)
    requires
        p.len() == 1024,
        0 <= k < 64,
        forall|dy: int, dx: int|
            0 <= dy < 4 && 0 <= dx < 4 ==> #[trigger] block_sample(p, k, dy, dx) == v,
    ensures
        block_sum(p, k) == 16 * (v as int),
{
    assert(block_sample(p, k, 0, 0) == v && block_sample(p, k, 0, 1) == v && block_sample(p, k, 0, 2) == v && block_sample(p, k, 0, 3) == v);
    assert(block_sample(p, k, 1, 0) == v && block_sample(p, k, 1, 1) == v && block_sample(p, k, 1, 2) == v && block_sample(p, k, 1, 3) == v);
    assert(block_sample(p, k, 2, 0) == v && block_sample(p, k, 2, 1) == v && block_sample(p, k, 2, 2) == v && block_sample(p, k, 2, 3) == v);
    assert(block_sample(p, k, 3, 0) == v && block_sample(p, k, 3, 1) == v && block_sample(p, k, 3, 2) == v && block_sample(p, k, 3, 3) == v);
}

/// The block sums of a checkerboard.
pub open spec fn checker_sums(lo: u8, hi: u8) -> Seq<int> {
    Seq::new(64, |k: int| 16 * (checker(k, lo, hi) as int))
}

/// The block sums of a checkerboard, sorted.
pub open spec fn checker_sorted(lo: u8, hi: u8) -> Seq<int> {
    Seq::new(64, |i: int| if i < 32 { 16 * (lo as int) } else { 16 * (hi as int) })
}

proof fn lemma_count_checker(lo: u8, hi: u8, x: int, m: int)
    requires
        lo < hi,
        0 <= m <= 32,
    ensures
        count_from(checker_sums(lo, hi), x, 2 * m) == (if x == 16 * (lo as int) || x == 16 * (
        hi as int) {
            32 - m
        } else {
            0
        }),
    decreases 32 - m,
{
    let c = checker_sums(lo, hi);
    if m < 32 {
        lemma_count_checker(lo, hi, x, m + 1);
        assert((2 * m + 1) / 8 == (2 * m) / 8 && (2 * m + 1) % 8 == (2 * m) % 8 + 1);
        assert(checker(2 * m, lo, hi) != checker(2 * m + 1, lo, hi));
        assert(count_from(c, x, 2 * m + 1) == (if c[2 * m + 1] == x {
            1nat
        } else {
            0nat
        }) + count_from(c, x, 2 * m + 2));
    }
}

proof fn lemma_count_sorted(lo: u8, hi: u8, x: int, i: int)
    requires
        lo < hi,
        0 <= i <= 64,
    ensures
        count_from(checker_sorted(lo, hi), x, i) == (if x == 16 * (lo as int) {
            if i < 32 {
                32 - i
            } else {
                0
            }
        } else if x == 16 * (hi as int) {
            if i < 32 {
                32
            } else {
                64 - i
            }
        } else {
            0
        }),
    decreases 64 - i,
{
    if i < 64 {
        lemma_count_sorted(lo, hi, x, i + 1);
    }
}

/// A 32x32 image whose blocks form a checkerboard of two intensities
/// `lo < hi` has the median between them, and its block-median hash sets
/// exactly the bits of the brighter blocks.
pub proof fn lemma_checkerboard_block_hash(p: Seq<u8>, lo: u8, hi: u8)
    requires
        p.len() == 1024,
        lo < hi,
        forall|k: int, dy: int, dx: int|
            0 <= k < 64 && 0 <= dy < 4 && 0 <= dx < 4 ==> #[trigger] block_sample(p, k, dy, dx)
                == checker(k, lo, hi),
    ensures
        median_twice(p) == 16 * (lo as int) + 16 * (hi as int),
        block_hash_of(p) == Seq::new(64, |k: int| bit(checker(k, lo, hi) == hi)),
{
    let l = 16 * (lo as int);
    let h = 16 * (hi as int);
    let bs = block_sums(p);
    assert forall|k: int| 0 <= k < 64 implies bs[k] == 16 * (checker(k, lo, hi) as int) by {
        lemma_flat_block_sum(p, k, checker(k, lo, hi));
    }
    assert(bs =~= checker_sums(lo, hi));
    let t = checker_sorted(lo, hi);
    let leq = |x: int, y: int| x <= y;
    assert(sorted_by(t, leq));
    bs.lemma_sort_ensures();
    lemma_int_order_total();
    assert(bs.to_multiset() =~= t.to_multiset()) by {
        assert forall|x: int| bs.to_multiset().count(x) == t.to_multiset().count(x) by {
            lemma_count_from_multiset(bs, x, 0);
            lemma_count_from_multiset(t, x, 0);
            assert(bs.subrange(0, 64) =~= bs);
            assert(t.subrange(0, 64) =~= t);
            lemma_count_checker(lo, hi, x, 0);
            lemma_count_sorted(lo, hi, x, 0);
        }
    }
    vstd::seq_lib::lemma_sorted_unique(t, bs.sort(), leq);
    assert(bs.sort()[31] == l);
    assert(bs.sort()[32] == h);
    assert(median_twice(p) == l + h);
    assert forall|k: int| 0 <= k < 64 implies #[trigger] block_hash_of(p)[k] == bit(
        checker(k, lo, hi) == hi,
    ) by {
        assert(bs[k] == block_sum(p, k));
        assert(block_sum(p, k) == 16 * (checker(k, lo, hi) as int));
    }
    assert(block_hash_of(p) =~= Seq::new(64, |k: int| bit(checker(k, lo, hi) == hi)));
}

} // verus!
