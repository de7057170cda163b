use vstd::prelude::*;
use std::collections::BTreeMap;
use vstd::std_specs::btree::increasing_seq;
use vstd::std_specs::iter::IteratorSpec;
use vstd::std_specs::cmp::OrdSpec;

verus! {

broadcast use vstd::std_specs::btree::group_btree_axioms, vstd::laws_cmp::group_laws_cmp;

/// One price level: a price and the quantity resting at it.
///
/// Both are fixed-point integers in the instrument's smallest unit, so that
/// levels compare and order exactly. In a diff, an `amount` of zero removes the
/// level.
#[derive(Clone, Copy, Debug, PartialEq, Eq, Structural)]
pub struct DepthRow {
    pub price: u64,
    pub amount: u64,
}

/// The side of a book after the changes `rows` are applied to `m` in order:
/// a zero amount removes the price, any other amount sets it.
pub open spec fn apply_rows(m: Map<u64, u64>, rows: Seq<DepthRow>) -> Map<u64, u64>
    decreases rows.len(),
{
    if rows.len() == 0 {
        m
    } else {
        let before = apply_rows(m, rows.drop_last());
        let r = rows.last();
        if r.amount == 0 {
            before.remove(r.price)
        } else {
            before.insert(r.price, r.amount)
        }
    }
}

/// The side of a book that holds exactly the levels listed in `rows`.
pub open spec fn side_of(rows: Seq<DepthRow>) -> Map<u64, u64> {
    apply_rows(Map::empty(), rows)
}

/// Every level of a side has a strictly positive quantity.
pub open spec fn all_positive(m: Map<u64, u64>) -> bool {
    forall|p: u64| #[trigger] m.contains_key(p) ==> m[p] > 0
}

/// `rows` lists the levels of `m`, each once, every row being one of them.
pub open spec fn lists_side(rows: Seq<DepthRow>, m: Map<u64, u64>) -> bool {
    &&& forall|i: int| 0 <= i < rows.len() ==> #[trigger] m.contains_key(rows[i].price)
        && m[rows[i].price] == rows[i].amount
    &&& forall|p: u64| #[trigger] m.contains_key(p) ==> exists|i: int|
        0 <= i < rows.len() && #[trigger] rows[i].price == p
}

/// Prices strictly increase along `rows`.
pub open spec fn ascending(rows: Seq<DepthRow>) -> bool {
    forall|i: int, j: int| 0 <= i < j < rows.len() ==> rows[i].price < rows[j].price
}

/// Prices strictly decrease along `rows`.
pub open spec fn descending(rows: Seq<DepthRow>) -> bool {
    forall|i: int, j: int| 0 <= i < j < rows.len() ==> rows[i].price > rows[j].price
}

/// Applying changes keeps every level of a side strictly positive.
pub proof fn lemma_apply_rows_positive(m: Map<u64, u64>, rows: Seq<DepthRow>)
    requires
        all_positive(m),
    ensures
        all_positive(apply_rows(m, rows)),
    decreases rows.len(),
{
    if rows.len() > 0 {
        lemma_apply_rows_positive(m, rows.drop_last());
    }
}

/// Applies the changes `rows` to one side of a book.
pub fn apply_to_side(side: &mut BTreeMap<u64, u64>, rows: &Vec<DepthRow>)
    ensures
        final(side)@ == apply_rows(old(side)@, rows@),
{
    let ghost start = side@;
    let mut i: usize = 0;
    while i < rows.len()
        invariant
            i <= rows.len(),
            side@ == apply_rows(start, rows@.subrange(0, i as int)),
        decreases rows.len() - i,
    {
        let r = rows[i];
        if r.amount == 0 {
            side.remove(&r.price);
        } else {
            side.insert(r.price, r.amount);
        }
        assert(rows@.subrange(0, i + 1).drop_last() =~= rows@.subrange(0, i as int));
        i = i + 1;
    }
    assert(rows@.subrange(0, rows.len() as int) =~= rows@);
}

/// The levels of a side, lowest price first.
pub fn rows_ascending(side: &BTreeMap<u64, u64>) -> (r: Vec<DepthRow>)
    ensures
        lists_side(r@, side@),
        ascending(r@),
{
    assert(vstd::laws_cmp::obeys_cmp::<u64>());
    let ghost entries = side.iter().remaining();
    let mut out: Vec<DepthRow> = Vec::new();
    for kv in it: side.iter()
        invariant
            it.seq() == entries,
            out@.len() == it.index(),
            forall|i: int| 0 <= i < it.index() ==> (#[trigger] out@[i]).price == *entries[i].0
                && out@[i].amount == *entries[i].1,
    {
        out.push(DepthRow { price: *kv.0, amount: *kv.1 });
    }
    let ghost keys = entries.map_values(|kv: (&u64, &u64)| *kv.0);
    assert(increasing_seq(keys));
    assert forall|i: int, j: int| 0 <= i < j < out@.len() implies out@[i].price < out@[j].price by {
        assert(keys[i] == out@[i].price);
        assert(keys[j] == out@[j].price);
        assert(keys[i].cmp_spec(&keys[j]) is Less);
    }
    assert forall|p: u64| #[trigger] side@.contains_key(p) implies exists|i: int|
        0 <= i < out@.len() && #[trigger] out@[i].price == p by {
        assert(entries.contains((&p, &side@[p])));
        let i = choose|i: int| 0 <= i < entries.len() && entries[i] == (&p, &side@[p]);
        assert(out@[i].price == p);
    }
    out
}

/// The levels of a side, highest price first.
pub fn rows_descending(side: &BTreeMap<u64, u64>) -> (r: Vec<DepthRow>)
    ensures
        lists_side(r@, side@),
        descending(r@),
{
    let up = rows_ascending(side);
    let mut out: Vec<DepthRow> = Vec::new();
    let mut k: usize = up.len();
    while k > 0
        invariant
            k <= up.len(),
            out@.len() == up.len() - k,
            forall|i: int| 0 <= i < out@.len() ==> #[trigger] out@[i] == up@[up.len() - 1 - i],
        decreases k,
    {
        k = k - 1;
        out.push(up[k]);
    }
    assert forall|p: u64| #[trigger] side@.contains_key(p) implies exists|i: int|
        0 <= i < out@.len() && #[trigger] out@[i].price == p by {
        let j = choose|j: int| 0 <= j < up@.len() && #[trigger] up@[j].price == p;
        assert(out@[up.len() - 1 - j] == up@[j]);
    }
    out
}

} // verus!
