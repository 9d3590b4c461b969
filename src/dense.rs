use vstd::prelude::*;
use crate::grammar::{IndexedValue, IndexedValueV, ivs_view};
use crate::token::{Decimal, zero_text};

verus! {

/// Number of features in every dense vector of this log format.
pub const DIMENSION: usize = 6;

/// Whether a feature index has a position in a dense vector (1-based).
pub open spec fn in_range(index: u32) -> bool {
    1 <= index && index <= DIMENSION
}

/// The dense vector of a sparse list: `0.0` everywhere, then each in-range
/// pair written at `index - 1` in list order, so a later pair overwrites an
/// earlier one; pairs out of range are dropped.
pub open spec fn dense_of(l: Seq<IndexedValueV>) -> Seq<Seq<u8>>
    decreases l.len(),
{
    if l.len() == 0 {
        Seq::new(DIMENSION as nat, |i: int| zero_text())
    } else {
        let d = dense_of(l.drop_last());
        if in_range(l.last().0) {
            d.update(l.last().0 - 1, l.last().1)
        } else {
            d
        }
    }
}

/// A fixed-length feature vector; each entry is a decimal's text.
#[derive(Debug)]
pub struct DenseVector {
    pub values: Vec<Decimal>,
}

impl View for DenseVector {
    type V = Seq<Seq<u8>>;

    open spec fn view(&self) -> Seq<Seq<u8>> {
        self.values@.map_values(|d: Decimal| d@)
    }
}

impl DenseVector {
    /// Materialises a sparse feature list into a vector of `DIMENSION` entries.
    pub fn from_sparse(list: &Vec<IndexedValue>) -> (r: DenseVector)
        ensures
            r@ == dense_of(ivs_view(list@)),
            r@.len() == DIMENSION,
    {
        let mut values: Vec<Decimal> = Vec::new();
        let mut k: usize = 0;
        while k < DIMENSION
            invariant
                k <= DIMENSION,
                values@.len() == k,
                forall|j: int| 0 <= j < k ==> (#[trigger] values@[j])@ == zero_text(),
            decreases DIMENSION - k,
        {
            values.push(Decimal::zero());
            k = k + 1;
        }
        let ghost l = ivs_view(list@);
        assert(l.take(0) =~= seq![]);
        assert(values@.map_values(|d: Decimal| d@) =~= dense_of(l.take(0)));
        let mut i: usize = 0;
        while i < list.len()
            invariant
                i <= list@.len(),
                l == ivs_view(list@),
                values@.map_values(|d: Decimal| d@) =~= dense_of(l.take(i as int)),
                values@.len() == DIMENSION,
            decreases list@.len() - i,
        {
            let x = &list[i];
            assert(l.take(i + 1).drop_last() =~= l.take(i as int));
            assert(l.take(i + 1).last() == x@);
            proof { lemma_dense_len(l.take(i as int)); }
            if 1 <= x.index && x.index as usize <= DIMENSION {
                values.set((x.index - 1) as usize, x.value.copy());
            }
            i = i + 1;
        }
        assert(l.take(list@.len() as int) =~= l);
        DenseVector { values }
    }
}

/// Every dense vector has exactly `DIMENSION` entries, whatever the list holds.
pub proof fn lemma_dense_len(l: Seq<IndexedValueV>)
    ensures
        dense_of(l).len() == DIMENSION,
    decreases l.len(),
{
    if l.len() > 0 {
        lemma_dense_len(l.drop_last());
    }
}

/// A position whose index no pair names keeps the default `0.0`.
pub proof fn lemma_absent_index_is_zero(l: Seq<IndexedValueV>, index: u32)
    requires
        in_range(index),
        forall|k: int| 0 <= k < l.len() ==> (#[trigger] l[k]).0 != index,
    ensures
        dense_of(l)[index - 1] == zero_text(),
    decreases l.len(),
{
    if l.len() > 0 {
        lemma_dense_len(l.drop_last());
        assert(l.last() == l[l.len() - 1]);
        lemma_absent_index_is_zero(l.drop_last(), index);
    }
}

/// Among pairs with the same in-range index, the last one's value is the
/// entry at that index.
pub proof fn lemma_last_write_wins(l: Seq<IndexedValueV>, k: int)
    requires
        0 <= k < l.len(),
        in_range(l[k].0),
        forall|j: int| k < j < l.len() ==> (#[trigger] l[j]).0 != l[k].0,
    ensures
        dense_of(l)[l[k].0 - 1] == l[k].1,
    decreases l.len(),
{
    lemma_dense_len(l.drop_last());
    if k < l.len() - 1 {
        assert(l.last() == l[l.len() - 1]);
        assert forall|j: int| k < j < l.drop_last().len() implies (#[trigger] l.drop_last()[j]).0
            != l.drop_last()[k].0 by {
            assert(l.drop_last()[j] == l[j]);
        }
        lemma_last_write_wins(l.drop_last(), k);
    }
}

/// For a list whose indices are all in range, each index named has exactly
/// the value of its last pair, and every other entry stays `0.0`.
pub proof fn lemma_in_range_list(l: Seq<IndexedValueV>)
    requires
        forall|k: int| 0 <= k < l.len() ==> in_range(#[trigger] l[k].0),
    ensures
        dense_of(l).len() == DIMENSION,
        forall|k: int|
            0 <= k < l.len() && (forall|j: int| k < j < l.len() ==> (#[trigger] l[j]).0 != l[k].0)
                ==> dense_of(l)[l[k].0 - 1] == (#[trigger] l[k]).1,
        forall|i: u32|
            in_range(i) && (forall|k: int| 0 <= k < l.len() ==> (#[trigger] l[k]).0 != i)
                ==> #[trigger] dense_of(l)[i - 1] == zero_text(),
{
    lemma_dense_len(l);
    assert forall|k: int|
        0 <= k < l.len() && (forall|j: int| k < j < l.len() ==> (#[trigger] l[j]).0 != l[k].0)
            implies dense_of(l)[l[k].0 - 1] == (#[trigger] l[k]).1 by {
        lemma_last_write_wins(l, k);
    }
    assert forall|i: u32|
        in_range(i) && (forall|k: int| 0 <= k < l.len() ==> (#[trigger] l[k]).0 != i)
            implies #[trigger] dense_of(l)[i - 1] == zero_text() by {
        lemma_absent_index_is_zero(l, i);
    }
}

/// A pair whose index is out of range changes nothing: the vector is the one
/// of the list without it, and its length stays `DIMENSION`.
pub proof fn lemma_out_of_range_dropped(
    a: Seq<IndexedValueV>,
    x: IndexedValueV,
    b: Seq<IndexedValueV>,
)
    requires
        !in_range(x.0),
    ensures
        dense_of(a + seq![x] + b) == dense_of(a + b),
        dense_of(a + seq![x] + b).len() == DIMENSION,
    decreases b.len(),
{
    lemma_dense_len(a + seq![x] + b);
    if b.len() == 0 {
        assert(a + seq![x] + b =~= a.push(x));
        assert(a.push(x).drop_last() =~= a);
        assert(a + b =~= a);
    } else {
        let b0 = b.drop_last();
        lemma_out_of_range_dropped(a, x, b0);
        assert((a + seq![x] + b).drop_last() =~= a + seq![x] + b0);
        assert((a + b).drop_last() =~= a + b0);
        assert((a + seq![x] + b).last() == b.last());
        assert((a + b).last() == b.last());
    }
}

} // verus!
