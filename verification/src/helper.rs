//! Group keys and row partitions.
//!
//! A grouping matrix assigns each case a key: the tuple of its row's values,
//! with every NaN pattern standing for the single key entry "NaN" (see
//! [`crate::bits::spec_canonical`]).  Splitting a data matrix or a weight
//! vector by a grouping matrix buckets its rows by key, keeping the original
//! row order inside every bucket; the key list keeps the order of first
//! appearance.

use vstd::prelude::*;
use crate::bits::{spec_canonical, canonical_bits};
use crate::matrix::Matrix;

verus! {

/// The group key of one grouping row: the row with every NaN pattern
/// replaced by the canonical one.
pub open spec fn spec_canonical_row(row: Seq<u64>) -> Seq<u64> {
    row.map_values(|b: u64| spec_canonical(b))
}

/// The distinct group keys of a grouping matrix, in order of first
/// appearance.
pub open spec fn spec_group_keys(groups: Seq<Seq<u64>>) -> Seq<Seq<u64>>
    decreases groups.len(),
{
    if groups.len() == 0 {
        Seq::empty()
    } else {
        let prefix = spec_group_keys(groups.drop_last());
        let key = spec_canonical_row(groups.last());
        if prefix.contains(key) {
            prefix
        } else {
            prefix.push(key)
        }
    }
}

/// The rows of `data` whose grouping row carries `key`, in their original
/// order.
pub open spec fn spec_select_rows(data: Seq<Seq<u64>>, groups: Seq<Seq<u64>>, key: Seq<u64>)
    -> Seq<Seq<u64>>
    decreases data.len(),
{
    if data.len() == 0 || groups.len() == 0 {
        Seq::empty()
    } else {
        let prefix = spec_select_rows(data.drop_last(), groups.drop_last(), key);
        if spec_canonical_row(groups.last()) == key {
            prefix.push(data.last())
        } else {
            prefix
        }
    }
}

/// The entries of a vector whose grouping row carries `key`, in their
/// original order.
pub open spec fn spec_select_entries(data: Seq<u64>, groups: Seq<Seq<u64>>, key: Seq<u64>)
    -> Seq<u64>
    decreases data.len(),
{
    if data.len() == 0 || groups.len() == 0 {
        Seq::empty()
    } else {
        let prefix = spec_select_entries(data.drop_last(), groups.drop_last(), key);
        if spec_canonical_row(groups.last()) == key {
            prefix.push(data.last())
        } else {
            prefix
        }
    }
}

/// No case is lost to the partition: every row's group key stands in the
/// key list.
pub proof fn lemma_group_keys_complete(groups: Seq<Seq<u64>>, r: int)
    requires
        0 <= r < groups.len(),
    ensures
        spec_group_keys(groups).contains(spec_canonical_row(groups[r])),
    decreases groups.len(),
{
    let prefix = spec_group_keys(groups.drop_last());
    let key = spec_canonical_row(groups.last());
    if r == groups.len() - 1 {
        if prefix.contains(key) {
        } else {
            assert(spec_group_keys(groups)[prefix.len() as int] == key);
        }
    } else {
        lemma_group_keys_complete(groups.drop_last(), r);
        let k = spec_canonical_row(groups[r]);
        let i = choose|i: int| 0 <= i < prefix.len() && prefix[i] == k;
        assert(spec_group_keys(groups)[i] == k);
    }
}

/// No key repeats: each bucket of the partition stands under its own key.
pub proof fn lemma_group_keys_distinct(groups: Seq<Seq<u64>>)
    ensures
        forall|i: int, j: int|
            0 <= i < j < spec_group_keys(groups).len() ==> #[trigger] spec_group_keys(groups)[i]
                != #[trigger] spec_group_keys(groups)[j],
    decreases groups.len(),
{
    if groups.len() > 0 {
        lemma_group_keys_distinct(groups.drop_last());
        let prefix = spec_group_keys(groups.drop_last());
        let key = spec_canonical_row(groups.last());
        if !prefix.contains(key) {
            assert forall|i: int, j: int|
                0 <= i < j < spec_group_keys(groups).len() implies #[trigger] spec_group_keys(
                groups,
            )[i] != #[trigger] spec_group_keys(groups)[j] by {
                if j == prefix.len() {
                    assert(prefix[i] == spec_group_keys(groups)[i]);
                    if spec_group_keys(groups)[i] == key {
                        assert(prefix.contains(key));
                    }
                }
            }
        }
    }
}

/// A vector read as a one-column grouping matrix: each entry its own row.
pub open spec fn spec_rows_of_vector(v: Seq<u64>) -> Seq<Seq<u64>> {
    v.map_values(|b: u64| seq![b])
}

/// Whether two keys are the same tuple.
pub(crate) fn keys_equal(a: &Vec<u64>, b: &Vec<u64>) -> (r: bool)
    ensures
        r == (a@ == b@),
{
    if a.len() != b.len() {
        assert(a@ != b@);
        return false;
    }
    let n = a.len();
    for i in 0..n
        invariant
            n == a@.len() == b@.len(),
            forall|j: int| 0 <= j < i ==> a@[j] == b@[j],
    {
        if a[i] != b[i] {
            return false;
        }
    }
    assert(a@ =~= b@);
    true
}

/// Whether `key` already stands among `keys`.
pub(crate) fn keys_contain(keys: &Vec<Vec<u64>>, key: &Vec<u64>) -> (r: bool)
    ensures
        r == (exists|j: int| 0 <= j < keys@.len() && (#[trigger] keys@[j])@ == key@),
{
    let n = keys.len();
    for i in 0..n
        invariant
            n == keys@.len(),
            forall|j: int| 0 <= j < i ==> (#[trigger] keys@[j])@ != key@,
    {
        if keys_equal(&keys[i], key) {
            return true;
        }
    }
    false
}

impl Matrix {
    /// The group key of row `r`.
    pub fn canonical_row(&self, r: usize) -> (key: Vec<u64>)
        requires
            r < self@.len(),
        ensures
            key@ == spec_canonical_row(self@[r as int]),
    {
        let row = self.row(r);
        let n = row.len();
        let mut key: Vec<u64> = Vec::new();
        for c in 0..n
            invariant
                n == row@.len(),
                row@ == self@[r as int],
                key@.len() == c,
                forall|j: int| 0 <= j < c ==> #[trigger] key@[j] == spec_canonical(row@[j]),
        {
            key.push(canonical_bits(row[c]));
        }
        assert(key@ =~= spec_canonical_row(self@[r as int]));
        key
    }

    /// The distinct group keys of this grouping matrix, in order of first
    /// appearance.
    pub fn get_keys(&self) -> (keys: Vec<Vec<u64>>)
        ensures
            keys@.len() == spec_group_keys(self@).len(),
            forall|i: int|
                0 <= i < keys@.len() ==> (#[trigger] keys@[i])@ == spec_group_keys(self@)[i],
    {
        let nrows = self.nrows();
        let mut keys: Vec<Vec<u64>> = Vec::new();
        for r in 0..nrows
            invariant
                nrows == self@.len(),
                keys@.len() == spec_group_keys(self@.take(r as int)).len(),
                forall|i: int|
                    0 <= i < keys@.len() ==> (#[trigger] keys@[i])@ == spec_group_keys(
                        self@.take(r as int),
                    )[i],
        {
            let ghost prefix = spec_group_keys(self@.take(r as int));
            assert(self@.take(r + 1).drop_last() =~= self@.take(r as int));
            assert(self@.take(r + 1).last() == self@[r as int]);
            let key = self.canonical_row(r);
            if !keys_contain(&keys, &key) {
                proof {
                    if prefix.contains(key@) {
                        let j = choose|j: int| 0 <= j < prefix.len() && prefix[j] == key@;
                        assert((keys@[j])@ == key@);
                    }
                }
                keys.push(key);
            } else {
                proof {
                    let j = choose|j: int| 0 <= j < keys@.len() && (#[trigger] keys@[j])@ == key@;
                    assert(prefix[j] == key@);
                    assert(prefix.contains(key@));
                }
            }
        }
        assert(self@.take(nrows as int) =~= self@);
        keys
    }

    /// Bucket the rows of this matrix by the group keys of `other`: one
    /// bucket per distinct key, keys in order of first appearance, and the
    /// rows of each bucket in their original order.
    pub fn split_by(&self, other: &Matrix) -> (result: Vec<(Vec<u64>, Matrix)>)
        requires
            self.wf(),
            self@.len() == other@.len(),
        ensures
            result@.len() == spec_group_keys(other@).len(),
            forall|i: int|
                0 <= i < result@.len() ==> (#[trigger] result@[i].0)@ == spec_group_keys(other@)[i],
            forall|i: int|
                0 <= i < result@.len() ==> (#[trigger] result@[i].1)@ == spec_select_rows(
                    self@,
                    other@,
                    spec_group_keys(other@)[i],
                ),
            forall|i: int|
                0 <= i < result@.len() ==> (#[trigger] result@[i].1).wf()
                    && result@[i].1.spec_ncols() == self.spec_ncols(),
    {
        let keys = other.get_keys();
        let nkeys = keys.len();
        let mut result: Vec<(Vec<u64>, Matrix)> = Vec::new();
        for k in 0..nkeys
            invariant
                self.wf(),
                self@.len() == other@.len(),
                nkeys == keys@.len(),
                keys@.len() == spec_group_keys(other@).len(),
                forall|i: int|
                    0 <= i < keys@.len() ==> (#[trigger] keys@[i])@ == spec_group_keys(other@)[i],
                result@.len() == k,
                forall|i: int|
                    0 <= i < k ==> (#[trigger] result@[i].0)@ == spec_group_keys(other@)[i],
                forall|i: int|
                    0 <= i < k ==> (#[trigger] result@[i].1)@ == spec_select_rows(
                        self@,
                        other@,
                        spec_group_keys(other@)[i],
                    ),
                forall|i: int|
                    0 <= i < k ==> (#[trigger] result@[i].1).wf() && result@[i].1.spec_ncols()
                        == self.spec_ncols(),
        {
            let key = keys[k].clone();
            assert(key@ == spec_group_keys(other@)[k as int]);
            let bucket = self.select_rows_matching(other, &key);
            result.push((key, bucket));
        }
        result
    }

    /// The bucket of this matrix's rows whose grouping row in `other`
    /// carries `key`.
    pub fn select_rows_matching(&self, other: &Matrix, key: &Vec<u64>) -> (bucket: Matrix)
        requires
            self.wf(),
            self@.len() == other@.len(),
        ensures
            bucket@ == spec_select_rows(self@, other@, key@),
            bucket.wf(),
            bucket.spec_ncols() == self.spec_ncols(),
    {
        let nrows = self.nrows();
        let mut rows: Vec<Vec<u64>> = Vec::new();
        for r in 0..nrows
            invariant
                self.wf(),
                nrows == self@.len() == other@.len(),
                rows@.len() == spec_select_rows(
                    self@.take(r as int),
                    other@.take(r as int),
                    key@,
                ).len(),
                forall|i: int|
                    0 <= i < rows@.len() ==> (#[trigger] rows@[i])@ == spec_select_rows(
                        self@.take(r as int),
                        other@.take(r as int),
                        key@,
                    )[i],
                forall|i: int| 0 <= i < rows@.len() ==> (#[trigger] rows@[i])@.len()
                    == self.spec_ncols(),
        {
            assert(self@.take(r + 1).drop_last() =~= self@.take(r as int));
            assert(other@.take(r + 1).drop_last() =~= other@.take(r as int));
            assert(self@.take(r + 1).last() == self@[r as int]);
            assert(other@.take(r + 1).last() == other@[r as int]);
            let group_row = other.canonical_row(r);
            if keys_equal(&group_row, key) {
                rows.push(self.row(r));
            }
        }
        assert(self@.take(nrows as int) =~= self@);
        assert(other@.take(nrows as int) =~= other@);
        let ghost selected = spec_select_rows(self@, other@, key@);
        let ncols = self.ncols();
        let bucket = Matrix::from_rows(rows, ncols);
        assert(bucket@ =~= selected);
        bucket
    }
}

/// The distinct group keys of a weight-like vector, read as a one-column
/// grouping matrix.
pub fn get_keys_vector(v: &Vec<u64>) -> (keys: Vec<Vec<u64>>)
    ensures
        keys@.len() == spec_group_keys(spec_rows_of_vector(v@)).len(),
        forall|i: int|
            0 <= i < keys@.len() ==> (#[trigger] keys@[i])@ == spec_group_keys(
                spec_rows_of_vector(v@),
            )[i],
{
    let n = v.len();
    let mut keys: Vec<Vec<u64>> = Vec::new();
    for r in 0..n
        invariant
            n == v@.len(),
            keys@.len() == spec_group_keys(spec_rows_of_vector(v@.take(r as int))).len(),
            forall|i: int|
                0 <= i < keys@.len() ==> (#[trigger] keys@[i])@ == spec_group_keys(
                    spec_rows_of_vector(v@.take(r as int)),
                )[i],
    {
        let ghost prefix = spec_group_keys(spec_rows_of_vector(v@.take(r as int)));
        assert(spec_rows_of_vector(v@.take(r + 1)).drop_last() =~= spec_rows_of_vector(
            v@.take(r as int),
        ));
        assert(spec_rows_of_vector(v@.take(r + 1)).last() == seq![v@[r as int]]);
        let mut key: Vec<u64> = Vec::new();
        key.push(canonical_bits(v[r]));
        assert(key@ =~= spec_canonical_row(seq![v@[r as int]]));
        if !keys_contain(&keys, &key) {
            proof {
                if prefix.contains(key@) {
                    let j = choose|j: int| 0 <= j < prefix.len() && prefix[j] == key@;
                    assert((keys@[j])@ == key@);
                }
            }
            keys.push(key);
        } else {
            proof {
                let j = choose|j: int| 0 <= j < keys@.len() && (#[trigger] keys@[j])@ == key@;
                assert(prefix[j] == key@);
                assert(prefix.contains(key@));
            }
        }
    }
    assert(v@.take(n as int) =~= v@);
    keys
}

/// The entries of a weight-like vector whose grouping row in `other`
/// carries `key`, in their original order.
pub fn select_entries_matching(data: &Vec<u64>, other: &Matrix, key: &Vec<u64>) -> (bucket: Vec<
    u64,
>)
    requires
        data@.len() == other@.len(),
    ensures
        bucket@ == spec_select_entries(data@, other@, key@),
{
    let n = data.len();
    let mut bucket: Vec<u64> = Vec::new();
    for r in 0..n
        invariant
            n == data@.len() == other@.len(),
            bucket@ == spec_select_entries(data@.take(r as int), other@.take(r as int), key@),
    {
        assert(data@.take(r + 1).drop_last() =~= data@.take(r as int));
        assert(other@.take(r + 1).drop_last() =~= other@.take(r as int));
        assert(data@.take(r + 1).last() == data@[r as int]);
        assert(other@.take(r + 1).last() == other@[r as int]);
        let group_row = other.canonical_row(r);
        if keys_equal(&group_row, key) {
            bucket.push(data[r]);
        }
    }
    assert(data@.take(n as int) =~= data@);
    assert(other@.take(n as int) =~= other@);
    bucket
}

/// Bucket the entries of a weight-like vector by the group keys of `other`.
pub fn split_vector_by(data: &Vec<u64>, other: &Matrix) -> (result: Vec<(Vec<u64>, Vec<u64>)>)
    requires
        data@.len() == other@.len(),
    ensures
        result@.len() == spec_group_keys(other@).len(),
        forall|i: int|
            0 <= i < result@.len() ==> (#[trigger] result@[i].0)@ == spec_group_keys(other@)[i],
        forall|i: int|
            0 <= i < result@.len() ==> (#[trigger] result@[i].1)@ == spec_select_entries(
                data@,
                other@,
                spec_group_keys(other@)[i],
            ),
{
    let keys = other.get_keys();
    let nkeys = keys.len();
    let mut result: Vec<(Vec<u64>, Vec<u64>)> = Vec::new();
    for k in 0..nkeys
        invariant
            data@.len() == other@.len(),
            nkeys == keys@.len(),
            keys@.len() == spec_group_keys(other@).len(),
            forall|i: int|
                0 <= i < keys@.len() ==> (#[trigger] keys@[i])@ == spec_group_keys(other@)[i],
            result@.len() == k,
            forall|i: int|
                0 <= i < k ==> (#[trigger] result@[i].0)@ == spec_group_keys(other@)[i],
            forall|i: int|
                0 <= i < k ==> (#[trigger] result@[i].1)@ == spec_select_entries(
                    data@,
                    other@,
                    spec_group_keys(other@)[i],
                ),
    {
        let key = keys[k].clone();
        assert(key@ == spec_group_keys(other@)[k as int]);
        let bucket = select_entries_matching(data, other, &key);
        result.push((key, bucket));
    }
    result
}

} // verus!

// ---------------------------------------------------------------------------
// Lower-triangle extraction
// ---------------------------------------------------------------------------

verus! {

/// The number of lower-triangle entries in the first `c` columns of a
/// `p`-wide square matrix: column `j` contributes its entries from the
/// diagonal down, `p - j` of them.
pub open spec fn spec_tri_base(p: nat, c: nat) -> nat
    recommends
        c <= p,
    decreases c,
{
    if c == 0 {
        0
    } else {
        (spec_tri_base(p, (c - 1) as nat) + (p - (c - 1))) as nat
    }
}

/// Earlier columns end strictly before later columns begin: every entry of
/// column `a` lies below the base of column `b`.
proof fn lemma_tri_base_mono(p: nat, a: nat, b: nat)
    requires
        a < b <= p,
    ensures
        spec_tri_base(p, a) + (p - a) <= spec_tri_base(p, b),
    decreases b,
{
    if a + 1 < b {
        lemma_tri_base_mono(p, a, (b - 1) as nat);
    }
}

proof fn lemma_tri_base_closed(p: nat, c: nat)
    requires
        c <= p,
    ensures
        2 * spec_tri_base(p, c) == c * (2 * p + 1 - c),
    decreases c,
{
    if c == 0 {
        assert(c * (2 * p + 1 - c) == 0) by (nonlinear_arith)
            requires
                c == 0,
        ;
    } else {
        let c1 = (c - 1) as nat;
        lemma_tri_base_closed(p, c1);
        assert(2 * spec_tri_base(p, c) == 2 * spec_tri_base(p, c1) + 2 * (p - c1));
        assert(c1 * (2 * p + 1 - c1) + 2 * (p - c1) == c * (2 * p + 1 - c)) by (nonlinear_arith)
            requires
                c1 == c - 1,
                c <= p,
        ;
    }
}

/// The whole lower triangle of a `p`-wide square matrix holds
/// `p * (p + 1) / 2` entries.
pub proof fn lemma_tri_base_total(p: nat)
    ensures
        spec_tri_base(p, p) == p * (p + 1) / 2,
{
    lemma_tri_base_closed(p, p);
    assert(p * (2 * p + 1 - p) == p * (p + 1)) by (nonlinear_arith);
}

impl Matrix {
    /// The lower triangle of this square matrix, diagonal included, read in
    /// column-major order: each column's diagonal entry first, then the
    /// entries below it.  Entry `(r, c)` with `r >= c` lands at flat
    /// position `spec_tri_base(p, c) + (r - c)`.
    pub fn extract_lower_triangle(&self) -> (v: Vec<u64>)
        requires
            self.wf(),
            self@.len() == self.spec_ncols(),
        ensures
            v@.len() == spec_tri_base(self@.len(), self@.len()),
            v@.len() == self@.len() * (self@.len() + 1) / 2,
            forall|r: int, c: int|
                0 <= c <= r < self@.len() ==> #[trigger] v@[spec_tri_base(self@.len(), c as nat) + r
                    - c] == self@[r][c],
    {
        proof {
            lemma_tri_base_total(self@.len());
        }
        let p = self.nrows();
        let mut v: Vec<u64> = Vec::new();
        for c in 0..p
            invariant
                self.wf(),
                p == self@.len() == self.spec_ncols(),
                v@.len() == spec_tri_base(p as nat, c as nat),
                forall|r2: int, c2: int|
                    0 <= c2 < c && c2 <= r2 < p ==> #[trigger] v@[spec_tri_base(
                        p as nat,
                        c2 as nat,
                    ) + r2 - c2] == self@[r2][c2],
        {
            let ghost base = spec_tri_base(p as nat, c as nat);
            for r in c..p
                invariant
                    self.wf(),
                    p == self@.len() == self.spec_ncols(),
                    c < p,
                    base == spec_tri_base(p as nat, c as nat),
                    v@.len() == base + (r - c),
                    forall|r2: int, c2: int|
                        0 <= c2 < c && c2 <= r2 < p ==> #[trigger] v@[spec_tri_base(
                            p as nat,
                            c2 as nat,
                        ) + r2 - c2] == self@[r2][c2],
                    forall|r2: int|
                        c <= r2 < r ==> #[trigger] v@[base + r2 - (c as int)] == self@[r2][c as int],
            {
                v.push(self.get(r, c));
                assert forall|r2: int, c2: int|
                    0 <= c2 < c && c2 <= r2 < p implies #[trigger] v@[spec_tri_base(
                    p as nat,
                    c2 as nat,
                ) + r2 - c2] == self@[r2][c2] by {
                    lemma_tri_base_mono(p as nat, c2 as nat, c as nat);
                }
            }
            assert(spec_tri_base(p as nat, (c + 1) as nat) == base + (p - c));
        }
        v
    }
}

} // verus!

// ---------------------------------------------------------------------------
// Ordered weighted value counter
// ---------------------------------------------------------------------------

use crate::bits::{
    spec_is_nan, spec_lt_value, spec_eq_value, is_nan_bits, lt_value_bits, eq_value_bits,
    lemma_lt_value_trichotomy, lemma_lt_value_transitive,
};

verus! {

/// One distinct value of a column: its bit pattern and the weights of its
/// occurrences, in occurrence order.  The case count is the number of
/// weights; the weighted count is their numeric sum, which a kernel folds
/// from the list.
pub struct ImmutableF64Count {
    key: u64,
    weights: Vec<u64>,
}

impl View for ImmutableF64Count {
    type V = (u64, Seq<u64>);

    closed spec fn view(&self) -> (u64, Seq<u64>) {
        (self.key, self.weights@)
    }
}

impl ImmutableF64Count {
    /// An entry for `key` with the given occurrence weights.
    pub fn init(key: u64, weights: Vec<u64>) -> (c: Self)
        ensures
            c@ == (key, weights@),
    {
        ImmutableF64Count { key, weights }
    }

    /// The value this entry counts.
    pub fn get_key(&self) -> (k: u64)
        ensures
            k == self@.0,
    {
        self.key
    }

    /// How many cases carried this value.
    pub fn get_count_cases(&self) -> (n: usize)
        ensures
            n == self@.1.len(),
    {
        self.weights.len()
    }

    /// The weight of the first occurrence.
    pub fn get_first_weight(&self) -> (w: u64)
        requires
            self@.1.len() > 0,
        ensures
            w == self@.1[0],
    {
        self.weights[0]
    }

    /// The weights of all occurrences, in occurrence order.
    pub fn get_weights(&self) -> (w: &Vec<u64>)
        ensures
            w@ == self@.1,
    {
        &self.weights
    }

    fn push_weight(&mut self, w: u64)
        ensures
            final(self)@ == (old(self)@.0, old(self)@.1.push(w)),
    {
        self.weights.push(w);
    }
}

/// What pushing one observation does to the counter: a NaN value is
/// ignored; a value equal to a stored key adds its weight to that entry's
/// list; a new value opens an entry at its place in ascending value order.
pub open spec fn spec_counter_push(counts: Seq<(u64, Seq<u64>)>, key: u64, weight: u64) -> Seq<
    (u64, Seq<u64>),
>
    decreases counts.len(),
{
    if spec_is_nan(key) {
        counts
    } else if counts.len() == 0 {
        seq![(key, seq![weight])]
    } else if spec_lt_value(counts.first().0, key) {
        seq![counts.first()] + spec_counter_push(counts.drop_first(), key, weight)
    } else if spec_eq_value(counts.first().0, key) {
        seq![(counts.first().0, counts.first().1.push(weight))] + counts.drop_first()
    } else {
        seq![(key, seq![weight])] + counts
    }
}

/// Well-formedness of the counter: no NaN key, at least one occurrence per
/// entry, keys strictly ascending in value order.
pub open spec fn spec_counter_wf(counts: Seq<(u64, Seq<u64>)>) -> bool {
    &&& forall|i: int| 0 <= i < counts.len() ==> !spec_is_nan((#[trigger] counts[i]).0)
    &&& forall|i: int| 0 <= i < counts.len() ==> (#[trigger] counts[i]).1.len() >= 1
    &&& forall|i: int, j: int|
        #![trigger counts[i], counts[j]]
        0 <= i < j < counts.len() ==> spec_lt_value(counts[i].0, counts[j].0)
}

/// Every key of a pushed counter is the pushed key or one of the old keys.
proof fn lemma_counter_push_keys(counts: Seq<(u64, Seq<u64>)>, key: u64, weight: u64)
    ensures
        forall|i: int|
            0 <= i < spec_counter_push(counts, key, weight).len()
                ==> (#[trigger] spec_counter_push(counts, key, weight)[i]).0 == key || exists|j: int|
                0 <= j < counts.len() && (#[trigger] counts[j]).0 == spec_counter_push(
                    counts,
                    key,
                    weight,
                )[i].0,
    decreases counts.len(),
{
    let result = spec_counter_push(counts, key, weight);
    if spec_is_nan(key) {
        assert forall|i: int| 0 <= i < result.len() implies (#[trigger] result[i]).0 == key
            || exists|j: int| 0 <= j < counts.len() && (#[trigger] counts[j]).0 == result[i].0 by {
            assert(counts[i].0 == result[i].0);
        }
    } else if counts.len() == 0 {
    } else if spec_lt_value(counts.first().0, key) {
        let rest = counts.drop_first();
        lemma_counter_push_keys(rest, key, weight);
        let sub = spec_counter_push(rest, key, weight);
        assert forall|i: int| 0 <= i < result.len() implies (#[trigger] result[i]).0 == key
            || exists|j: int| 0 <= j < counts.len() && (#[trigger] counts[j]).0 == result[i].0 by {
            if i == 0 {
                assert(counts[0].0 == result[0].0);
            } else {
                assert(result[i] == sub[i - 1]);
                if sub[i - 1].0 != key {
                    let j = choose|j: int| 0 <= j < rest.len() && (#[trigger] rest[j]).0 == sub[
                        i - 1].0;
                    assert(counts[j + 1].0 == result[i].0);
                }
            }
        }
    } else if spec_eq_value(counts.first().0, key) {
        assert forall|i: int| 0 <= i < result.len() implies (#[trigger] result[i]).0 == key
            || exists|j: int| 0 <= j < counts.len() && (#[trigger] counts[j]).0 == result[i].0 by {
            assert(counts[i].0 == result[i].0);
        }
    } else {
        assert forall|i: int| 0 <= i < result.len() implies (#[trigger] result[i]).0 == key
            || exists|j: int| 0 <= j < counts.len() && (#[trigger] counts[j]).0 == result[i].0 by {
            if i > 0 {
                assert(counts[i - 1].0 == result[i].0);
            }
        }
    }
}

/// Pushing keeps the counter well formed.
proof fn lemma_counter_push_wf(counts: Seq<(u64, Seq<u64>)>, key: u64, weight: u64)
    requires
        spec_counter_wf(counts),
    ensures
        spec_counter_wf(spec_counter_push(counts, key, weight)),
    decreases counts.len(),
{
    let result = spec_counter_push(counts, key, weight);
    if spec_is_nan(key) {
        assert(result =~= counts);
    } else if counts.len() == 0 {
    } else if spec_lt_value(counts.first().0, key) {
        let rest = counts.drop_first();
        assert(spec_counter_wf(rest)) by {
            assert forall|i: int, j: int|
                #![trigger rest[i], rest[j]]
                0 <= i < j < rest.len() implies spec_lt_value(rest[i].0, rest[j].0) by {
                assert(counts[i + 1] == rest[i] && counts[j + 1] == rest[j]);
            }
        }
        lemma_counter_push_wf(rest, key, weight);
        lemma_counter_push_keys(rest, key, weight);
        let sub = spec_counter_push(rest, key, weight);
        assert forall|i: int, j: int|
            #![trigger result[i], result[j]]
            0 <= i < j < result.len() implies spec_lt_value(result[i].0, result[j].0) by {
            if i == 0 {
                assert(result[j] == sub[j - 1]);
                if sub[j - 1].0 == key {
                } else {
                    let k = choose|k: int| 0 <= k < rest.len() && (#[trigger] rest[k]).0 == sub[
                        j - 1].0;
                    assert(rest[k] == counts[k + 1]);
                    if k + 1 > 1 {
                        lemma_lt_value_transitive(counts[0].0, counts[1].0, counts[k + 1].0);
                    }
                }
            } else {
                assert(result[i] == sub[i - 1] && result[j] == sub[j - 1]);
            }
        }
    } else if spec_eq_value(counts.first().0, key) {
        assert forall|i: int, j: int|
            #![trigger result[i], result[j]]
            0 <= i < j < result.len() implies spec_lt_value(result[i].0, result[j].0) by {
            assert(result[i].0 == counts[i].0 && result[j].0 == counts[j].0);
        }
        assert forall|i: int| 0 <= i < result.len() implies !spec_is_nan(
            (#[trigger] result[i]).0,
        ) by {
            assert(result[i].0 == counts[i].0);
        }
        assert forall|i: int| 0 <= i < result.len() implies (#[trigger] result[i]).1.len()
            >= 1 by {
            if i == 0 {
                assert(result[0].1 == counts.first().1.push(weight));
            } else {
                assert(result[i].1 == counts[i].1);
            }
        }
    } else {
        lemma_lt_value_trichotomy(counts.first().0, key);
        assert forall|i: int, j: int|
            #![trigger result[i], result[j]]
            0 <= i < j < result.len() implies spec_lt_value(result[i].0, result[j].0) by {
            if i == 0 {
                assert(result[j] == counts[j - 1]);
                if j - 1 > 0 {
                    lemma_lt_value_transitive(key, counts[0].0, counts[j - 1].0);
                }
            } else {
                assert(result[i] == counts[i - 1] && result[j] == counts[j - 1]);
            }
        }
    }
}

/// Scanning past entries whose keys lie below the pushed key does not change
/// what the push produces: the passed prefix stays, the push lands in the
/// rest.
proof fn lemma_counter_push_skip(counts: Seq<(u64, Seq<u64>)>, key: u64, weight: u64, i: int)
    requires
        !spec_is_nan(key),
        0 <= i <= counts.len(),
        forall|j: int| 0 <= j < i ==> spec_lt_value((#[trigger] counts[j]).0, key),
    ensures
        spec_counter_push(counts, key, weight) == counts.take(i) + spec_counter_push(
            counts.skip(i),
            key,
            weight,
        ),
    decreases i,
{
    if i == 0 {
        assert(counts.skip(0) =~= counts);
        assert(counts.take(0) + spec_counter_push(counts, key, weight) =~= spec_counter_push(
            counts,
            key,
            weight,
        ));
    } else {
        let rest = counts.drop_first();
        assert(spec_lt_value(counts[0].0, key));
        assert(spec_counter_push(counts, key, weight) == seq![counts.first()] + spec_counter_push(
            rest,
            key,
            weight,
        ));
        assert forall|j: int| 0 <= j < i - 1 implies spec_lt_value(
            (#[trigger] rest[j]).0,
            key,
        ) by {
            assert(rest[j] == counts[j + 1]);
        }
        lemma_counter_push_skip(rest, key, weight, i - 1);
        assert(rest.skip(i - 1) =~= counts.skip(i));
        assert(seq![counts.first()] + (rest.take(i - 1) + spec_counter_push(
            counts.skip(i),
            key,
            weight,
        )) =~= counts.take(i) + spec_counter_push(counts.skip(i), key, weight));
    }
}

/// The ordered weighted value counter: the distinct non-NaN values of one
/// column in ascending order, each with the weights of its occurrences, and
/// the running number of counted cases.
pub struct OrderedF64Counts {
    counts: Vec<ImmutableF64Count>,
    sum_of_cases: usize,
}

impl View for OrderedF64Counts {
    type V = Seq<(u64, Seq<u64>)>;

    closed spec fn view(&self) -> Seq<(u64, Seq<u64>)> {
        Seq::new(self.counts@.len(), |i: int| self.counts@[i]@)
    }
}

impl OrderedF64Counts {
    /// The number of observations counted so far, NaN values excluded.
    pub closed spec fn spec_sum_of_cases(&self) -> nat {
        self.sum_of_cases as nat
    }

    /// The counter's invariant; see [`spec_counter_wf`].
    pub open spec fn wf(&self) -> bool {
        spec_counter_wf(self@)
    }

    /// An empty counter.
    pub fn new() -> (c: OrderedF64Counts)
        ensures
            c@ == Seq::<(u64, Seq<u64>)>::empty(),
            c.wf(),
            c.spec_sum_of_cases() == 0,
    {
        let c = OrderedF64Counts { counts: Vec::new(), sum_of_cases: 0 };
        assert(c@ =~= Seq::<(u64, Seq<u64>)>::empty());
        c
    }

    fn find_position(&self, key: u64) -> (i: usize)
        ensures
            i <= self@.len(),
            forall|j: int| 0 <= j < i ==> spec_lt_value((#[trigger] self@[j]).0, key),
            i < self@.len() ==> !spec_lt_value(self@[i as int].0, key),
    {
        let n = self.counts.len();
        for i in 0..n
            invariant
                n == self@.len(),
                forall|j: int| 0 <= j < i ==> spec_lt_value((#[trigger] self@[j]).0, key),
        {
            if !lt_value_bits(self.counts[i].get_key(), key) {
                return i;
            }
            assert(self@[i as int].0 == self.counts@[i as int]@.0);
        }
        n
    }

    /// Count one observation: the value `key` seen with weight `weight`.
    /// A NaN value is ignored; see [`spec_counter_push`].
    pub fn push(&mut self, key: u64, weight: u64)
        requires
            old(self).wf(),
            old(self).spec_sum_of_cases() < usize::MAX,
        ensures
            final(self)@ == spec_counter_push(old(self)@, key, weight),
            final(self).wf(),
            final(self).spec_sum_of_cases() == old(self).spec_sum_of_cases() + (
            if spec_is_nan(key) {
                0nat
            } else {
                1nat
            }),
    {
        proof {
            lemma_counter_push_wf(old(self)@, key, weight);
        }
        if is_nan_bits(key) {
            return;
        }
        self.sum_of_cases = self.sum_of_cases + 1;
        let ghost prior = self@;
        let i = self.find_position(key);
        let n = self.counts.len();
        proof {
            lemma_counter_push_skip(prior, key, weight, i as int);
        }
        if i < n && eq_value_bits(self.counts[i].get_key(), key) {
            let mut entry = self.counts.remove(i);
            entry.push_weight(weight);
            self.counts.insert(i, entry);
            proof {
                let rest = prior.skip(i as int);
                assert(rest.first() == prior[i as int]);
                assert(!spec_lt_value(rest.first().0, key) && spec_eq_value(rest.first().0, key));
                assert(spec_counter_push(rest, key, weight) == seq![
                    (rest.first().0, rest.first().1.push(weight)),
                ] + rest.drop_first());
                assert(self@ =~= prior.take(i as int) + (seq![
                    (rest.first().0, rest.first().1.push(weight)),
                ] + rest.drop_first()));
            }
        } else {
            let mut weights: Vec<u64> = Vec::new();
            weights.push(weight);
            let entry = ImmutableF64Count::init(key, weights);
            self.counts.insert(i, entry);
            proof {
                let rest = prior.skip(i as int);
                if i < n {
                    assert(rest.first() == prior[i as int]);
                    lemma_lt_value_trichotomy(rest.first().0, key);
                    assert(spec_counter_push(rest, key, weight) == seq![(key, seq![weight])]
                        + rest);
                } else {
                    assert(rest =~= Seq::<(u64, Seq<u64>)>::empty());
                    assert(spec_counter_push(rest, key, weight) == seq![(key, seq![weight])]);
                    assert(seq![(key, seq![weight])] =~= seq![(key, seq![weight])] + rest);
                }
                assert(self@ =~= prior.take(i as int) + (seq![(key, seq![weight])] + rest));
            }
        }
    }

    /// The entries, ascending by value.
    pub fn get_counts(&self) -> (counts: &Vec<ImmutableF64Count>)
        ensures
            counts@.len() == self@.len(),
            forall|i: int| 0 <= i < counts@.len() ==> (#[trigger] counts@[i])@ == self@[i],
    {
        &self.counts
    }

    /// How many observations were counted, NaN values excluded.
    pub fn get_sum_of_cases(&self) -> (n: usize)
        ensures
            n == self.spec_sum_of_cases(),
    {
        self.sum_of_cases
    }
}

} // verus!
