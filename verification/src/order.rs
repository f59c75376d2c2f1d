//! Orders: texts by their chars, and positions by a rank.

use vstd::prelude::*;

use crate::text;

verus! {

/// `a` comes before `b` where the first chars that differ say so, and where it is the
/// start of `b`.
pub open spec fn text_less(a: Seq<char>, b: Seq<char>) -> bool
    decreases a.len(),
{
    if b.len() == 0 {
        false
    } else if a.len() == 0 {
        true
    } else {
        a[0] < b[0] || (a[0] == b[0] && text_less(a.skip(1), b.skip(1)))
    }
}

pub proof fn lemma_text_less_irreflexive(a: Seq<char>)
    ensures
        !text_less(a, a),
    decreases a.len(),
{
    if a.len() > 0 {
        lemma_text_less_irreflexive(a.skip(1));
    }
}

pub proof fn lemma_text_less_transitive(a: Seq<char>, b: Seq<char>, c: Seq<char>)
    requires
        text_less(a, b),
        text_less(b, c),
    ensures
        text_less(a, c),
    decreases a.len(),
{
    if a.len() > 0 && a[0] == b[0] && b[0] == c[0] {
        lemma_text_less_transitive(a.skip(1), b.skip(1), c.skip(1));
    }
}

pub proof fn lemma_text_less_total(a: Seq<char>, b: Seq<char>)
    ensures
        text_less(a, b) || text_less(b, a) || a == b,
    decreases a.len(),
{
    if a.len() > 0 && b.len() > 0 && a[0] == b[0] {
        lemma_text_less_total(a.skip(1), b.skip(1));
        if a.skip(1) == b.skip(1) {
            assert(a == seq![a[0]] + a.skip(1));
            assert(b == seq![b[0]] + b.skip(1));
        }
    } else if a.len() == 0 && b.len() == 0 {
        assert(a == b);
    }
}

/// Whether `a` comes before `b`.
pub fn text_before(a: &str, b: &str) -> (r: bool)
    ensures
        r == text_less(a@, b@),
{
    let x = text::chars_of(a);
    let y = text::chars_of(b);
    let mut i: usize = 0;
    assert(x@.skip(0) == x@);
    assert(y@.skip(0) == y@);
    while i < x.len() && i < y.len()
        invariant
            i <= x.len(),
            i <= y.len(),
            x@ == a@,
            y@ == b@,
            text_less(a@, b@) == text_less(x@.skip(i as int), y@.skip(i as int)),
        decreases x.len() - i,
    {
        proof {
            assert(x@.skip(i as int).skip(1) == x@.skip(i + 1));
            assert(y@.skip(i as int).skip(1) == y@.skip(i + 1));
            assert(x@.skip(i as int)[0] == x@[i as int]);
            assert(y@.skip(i as int)[0] == y@[i as int]);
        }
        if x[i] != y[i] {
            return x[i] < y[i];
        }
        i += 1;
    }
    i < y.len()
}

/// What positions are ordered by: the parts one after the other.
pub struct Rank {
    pub first: u64,
    pub second: u64,
    pub third: u64,
    pub fourth: u64,
}

/// `a` is the lower rank.
pub open spec fn rank_less(a: Rank, b: Rank) -> bool {
    ||| a.first < b.first
    ||| a.first == b.first && a.second < b.second
    ||| a.first == b.first && a.second == b.second && a.third < b.third
    ||| a.first == b.first && a.second == b.second && a.third == b.third && a.fourth < b.fourth
}

/// `order` holds each position below `n` once.
pub open spec fn each_once(order: Seq<usize>, n: nat) -> bool {
    &&& order.len() == n
    &&& forall|i: int| 0 <= i < order.len() ==> (#[trigger] order[i]) < n
    &&& forall|i: int, j: int|
        0 <= i < order.len() && 0 <= j < order.len() && i != j ==> #[trigger] order[i]
            != #[trigger] order[j]
}

/// The positions in `order` come with falling ranks.
pub open spec fn falling(order: Seq<usize>, ranks: Seq<Rank>) -> bool {
    forall|i: int, j: int|
        0 <= i < j < order.len() ==> !rank_less(
            ranks[#[trigger] order[i] as int],
            ranks[#[trigger] order[j] as int],
        )
}

fn rank_below(a: &Rank, b: &Rank) -> (r: bool)
    ensures
        r == rank_less(*a, *b),
{
    if a.first != b.first {
        a.first < b.first
    } else if a.second != b.second {
        a.second < b.second
    } else if a.third != b.third {
        a.third < b.third
    } else {
        a.fourth < b.fourth
    }
}

/// The positions of `ranks`, the highest rank first.
pub fn order_desc(ranks: &Vec<Rank>) -> (r: Vec<usize>)
    ensures
        each_once(r@, ranks@.len()),
        falling(r@, ranks@),
{
    let mut order: Vec<usize> = Vec::new();
    let mut n: usize = 0;
    while n < ranks.len()
        invariant
            n <= ranks.len(),
            each_once(order@, n as nat),
            falling(order@, ranks@),
        decreases ranks.len() - n,
    {
        let mut at: usize = order.len();
        while at > 0 && rank_below(&ranks[order[at - 1]], &ranks[n])
            invariant
                at <= order.len(),
                n < ranks.len(),
                each_once(order@, n as nat),
                forall|i: int|
                    at <= i < order.len() ==> rank_less(
                        ranks@[#[trigger] order@[i] as int],
                        ranks@[n as int],
                    ),
            decreases at,
        {
            at -= 1;
        }
        let ghost before = order@;
        order.insert(at, n);
        proof {
            let after = order@;
            assert(after == before.insert(at as int, n));
            assert forall|i: int, j: int| 0 <= i < j < after.len() implies !rank_less(
                ranks@[#[trigger] after[i] as int],
                ranks@[#[trigger] after[j] as int],
            ) by {
                if j < at {
                    assert(after[i] == before[i] && after[j] == before[j]);
                } else if j == at {
                    assert(after[i] == before[i]);
                    if at > 0 {
                        let k = at - 1;
                        assert(!rank_less(ranks@[before[k] as int], ranks@[n as int]));
                        if i < k {
                            assert(!rank_less(
                                ranks@[before[i] as int],
                                ranks@[before[k] as int],
                            ));
                        }
                    }
                } else if i < at {
                    assert(after[i] == before[i] && after[j] == before[j - 1]);
                } else if i == at {
                    assert(after[j] == before[j - 1]);
                } else {
                    assert(after[i] == before[i - 1] && after[j] == before[j - 1]);
                }
            }
            assert forall|i: int, j: int|
                0 <= i < after.len() && 0 <= j < after.len() && i != j implies #[trigger] after[i]
                != #[trigger] after[j] by {
                let a = if i < at {
                    i
                } else {
                    i - 1
                };
                let b = if j < at {
                    j
                } else {
                    j - 1
                };
                if i != at {
                    assert(after[i] == before[a]);
                }
                if j != at {
                    assert(after[j] == before[b]);
                }
            }
        }
        n += 1;
    }
    order
}

} // verus!
