//! Fork choice: which of two valid blocks should be the chain head. More
//! cumulative work wins; equal work goes to the lexicographically lower
//! block identifier.
use vstd::prelude::*;

verus! {

/// Lexicographic order of `a` and `b` from position `i` on: `a` is lower
/// where it has the lower byte at the first difference, or is a proper prefix.
pub open spec fn lt_from(a: Seq<u8>, b: Seq<u8>, i: nat) -> bool
    decreases a.len() - i,
{
    if i >= a.len() {
        i < b.len()
    } else if i >= b.len() {
        false
    } else if a[i as int] != b[i as int] {
        a[i as int] < b[i as int]
    } else {
        lt_from(a, b, i + 1)
    }
}

/// `a` comes strictly before `b` in lexicographic byte order.
pub open spec fn id_lt(a: Seq<u8>, b: Seq<u8>) -> bool {
    lt_from(a, b, 0)
}

/// Whether `a` is lexicographically lower than `b`.
pub fn id_less(a: &Vec<u8>, b: &Vec<u8>) -> (r: bool)
    ensures
        r == id_lt(a@, b@),
{
    let mut i: usize = 0;
    while i < a.len() && i < b.len()
        invariant
            i <= a.len(),
            i <= b.len(),
            id_lt(a@, b@) == lt_from(a@, b@, i as nat),
        decreases a.len() - i,
    {
        if a[i] != b[i] {
            return a[i] < b[i];
        }
        i = i + 1;
    }
    i < b.len()
}

/// Whether `a` and `b` name the same block.
pub fn same_id(a: &Vec<u8>, b: &Vec<u8>) -> (r: bool)
    ensures
        r == (a@ == b@),
{
    if a.len() != b.len() {
        return false;
    }
    let mut i: usize = 0;
    while i < a.len()
        invariant
            i <= a.len(),
            a.len() == b.len(),
            forall|j: int| 0 <= j < i ==> a@[j] == b@[j],
        decreases a.len() - i,
    {
        if a[i] != b[i] {
            return false;
        }
        i = i + 1;
    }
    proof {
        assert(a@ =~= b@);
    }
    true
}

/// A block with work `w1` and identifier `id1` is preferred to one with
/// `w2` and `id2`: it has more work, or as much and a lower identifier.
pub open spec fn prefers(w1: int, id1: Seq<u8>, w2: int, id2: Seq<u8>) -> bool {
    w1 > w2 || (w1 == w2 && id_lt(id1, id2))
}

/// The head kept when `challenger` is weighed against `head`, each given
/// as its cumulative work and identifier.
pub open spec fn pick(head: (int, Seq<u8>), challenger: (int, Seq<u8>)) -> (int, Seq<u8>) {
    if prefers(challenger.0, challenger.1, head.0, head.1) { challenger } else { head }
}

/// Whether a valid block with `cand_work` and `cand_id` should replace the
/// head with `head_work` and `head_id`.
pub fn should_switch(cand_work: u64, cand_id: &Vec<u8>, head_work: u64, head_id: &Vec<u8>) -> (r: bool)
    ensures
        r == prefers(cand_work as int, cand_id@, head_work as int, head_id@),
{
    if cand_work != head_work {
        cand_work > head_work
    } else {
        id_less(cand_id, head_id)
    }
}

proof fn lemma_lt_from_asym(a: Seq<u8>, b: Seq<u8>, i: nat)
    ensures
        !(lt_from(a, b, i) && lt_from(b, a, i)),
    decreases a.len() - i,
{
    if i < a.len() && i < b.len() && a[i as int] == b[i as int] {
        lemma_lt_from_asym(a, b, i + 1);
    }
}

proof fn lemma_lt_from_total(a: Seq<u8>, b: Seq<u8>, i: nat)
    requires
        i <= a.len(),
        i <= b.len(),
        !lt_from(a, b, i),
        !lt_from(b, a, i),
    ensures
        a.len() == b.len(),
        forall|j: int| i <= j < a.len() ==> a[j] == b[j],
    decreases a.len() - i,
{
    if i < a.len() && i < b.len() {
        lemma_lt_from_total(a, b, i + 1);
    }
}

proof fn lemma_lt_from_trans(a: Seq<u8>, b: Seq<u8>, c: Seq<u8>, i: nat)
    requires
        lt_from(a, b, i),
        lt_from(b, c, i),
    ensures
        lt_from(a, c, i),
    decreases a.len() - i,
{
    if i < a.len() && i < b.len() && i < c.len() && a[i as int] == b[i as int] && b[i as int] == c[i as int] {
        lemma_lt_from_trans(a, b, c, i + 1);
    }
}

/// Of two distinct identifiers exactly one is the lower.
pub proof fn lemma_id_order_total(a: Seq<u8>, b: Seq<u8>)
    requires
        a != b,
    ensures
        id_lt(a, b) != id_lt(b, a),
{
    lemma_lt_from_asym(a, b, 0);
    if !id_lt(a, b) && !id_lt(b, a) {
        lemma_lt_from_total(a, b, 0);
        assert(a =~= b);
    }
}

/// The identifier order is transitive.
pub proof fn lemma_id_order_trans(a: Seq<u8>, b: Seq<u8>, c: Seq<u8>)
    requires
        id_lt(a, b),
        id_lt(b, c),
    ensures
        id_lt(a, c),
{
    lemma_lt_from_trans(a, b, c, 0);
}

/// Weighing two challengers against a head gives the same head in either
/// order, as long as the three identifiers are distinct.
pub proof fn lemma_pick_order_independent(h: (int, Seq<u8>), x: (int, Seq<u8>), y: (int, Seq<u8>))
    requires
        h.1 != x.1,
        h.1 != y.1,
        x.1 != y.1,
    ensures
        pick(pick(h, x), y) == pick(pick(h, y), x),
{
    lemma_id_order_total(h.1, x.1);
    lemma_id_order_total(h.1, y.1);
    lemma_id_order_total(x.1, y.1);
    if id_lt(h.1, x.1) && id_lt(x.1, y.1) { lemma_id_order_trans(h.1, x.1, y.1); }
    if id_lt(h.1, y.1) && id_lt(y.1, x.1) { lemma_id_order_trans(h.1, y.1, x.1); }
    if id_lt(x.1, h.1) && id_lt(h.1, y.1) { lemma_id_order_trans(x.1, h.1, y.1); }
    if id_lt(y.1, h.1) && id_lt(h.1, x.1) { lemma_id_order_trans(y.1, h.1, x.1); }
    if id_lt(x.1, y.1) && id_lt(y.1, h.1) { lemma_id_order_trans(x.1, y.1, h.1); }
    if id_lt(y.1, x.1) && id_lt(x.1, h.1) { lemma_id_order_trans(y.1, x.1, h.1); }
}

/// Of two competing blocks that both beat the head, the one with more
/// cumulative work ends as the head, whichever of them is weighed first.
pub proof fn lemma_more_work_wins(h: (int, Seq<u8>), b1: (int, Seq<u8>), b2: (int, Seq<u8>))
    requires
        b1.0 > b2.0,
        prefers(b1.0, b1.1, h.0, h.1),
    ensures
        pick(pick(h, b1), b2) == b1,
        pick(pick(h, b2), b1) == b1,
{
    if prefers(b2.0, b2.1, h.0, h.1) {
        assert(pick(h, b2) == b2);
    }
}

/// Of two competing blocks with equal cumulative work that both beat the
/// head, the one with the lower identifier ends as the head, whichever of
/// them is weighed first.
pub proof fn lemma_tie_goes_to_lower_id(h: (int, Seq<u8>), b1: (int, Seq<u8>), b2: (int, Seq<u8>))
    requires
        b1.0 == b2.0,
        b1.1 != b2.1,
        prefers(b1.0, b1.1, h.0, h.1),
        prefers(b2.0, b2.1, h.0, h.1),
    ensures
        pick(pick(h, b1), b2) == pick(pick(h, b2), b1),
        pick(pick(h, b1), b2) == (if id_lt(b1.1, b2.1) { b1 } else { b2 }),
{
    lemma_id_order_total(b1.1, b2.1);
}

/// The total of the difficulties in `ds`: the cumulative work of a chain
/// whose blocks carry them.
pub open spec fn total_work(ds: Seq<u64>) -> int
    decreases ds.len(),
{
    if ds.len() == 0 { 0 } else { total_work(ds.drop_last()) + ds.last() }
}

/// The cumulative work of a chain whose blocks carry the difficulties in
/// `ds`, or `None` when it does not fit in a `u64`.
pub fn chain_work(ds: &Vec<u64>) -> (r: Option<u64>)
    ensures
        r is Some <==> total_work(ds@) <= u64::MAX,
        r matches Some(w) ==> w == total_work(ds@),
{
    let mut sum: u64 = 0;
    let mut i: usize = 0;
    while i < ds.len()
        invariant
            i <= ds.len(),
            sum == total_work(ds@.subrange(0, i as int)),
        decreases ds.len() - i,
    {
        proof {
            assert(ds@.subrange(0, i + 1).drop_last() =~= ds@.subrange(0, i as int));
        }
        if sum > u64::MAX - ds[i] {
            proof {
                lemma_total_work_grows(ds@, (i + 1) as int);
            }
            return None;
        }
        sum = sum + ds[i];
        i = i + 1;
    }
    proof {
        assert(ds@.subrange(0, i as int) =~= ds@);
    }
    Some(sum)
}

/// A chain's work is at least that of any of its prefixes.
proof fn lemma_total_work_grows(ds: Seq<u64>, n: int)
    requires
        0 <= n <= ds.len(),
    ensures
        total_work(ds.subrange(0, n)) <= total_work(ds),
    decreases ds.len() - n,
{
    if n < ds.len() {
        lemma_total_work_grows(ds, n + 1);
        assert(ds.subrange(0, n + 1).drop_last() =~= ds.subrange(0, n));
    } else {
        assert(ds.subrange(0, n) =~= ds);
    }
}

} // verus!
