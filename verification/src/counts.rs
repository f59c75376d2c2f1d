//! Token counts, and tables of them by model.

use vstd::prelude::*;

use crate::order;
use crate::text;

verus! {

/// How many tokens of each kind, in how many calls.
#[verifier::ext_equal]
pub struct CountsView {
    pub input: nat,
    pub output: nat,
    pub cache_read: nat,
    pub reasoning: nat,
    pub calls: nat,
}

/// How many tokens of each kind, in how many calls.
#[derive(Clone, Copy)]
pub struct Counts {
    pub input: u64,
    pub output: u64,
    pub cache_read: u64,
    pub reasoning: u64,
    pub calls: u64,
}

impl View for Counts {
    type V = CountsView;

    open spec fn view(&self) -> CountsView {
        CountsView {
            input: self.input as nat,
            output: self.output as nat,
            cache_read: self.cache_read as nat,
            reasoning: self.reasoning as nat,
            calls: self.calls as nat,
        }
    }
}

pub open spec fn zero() -> CountsView {
    CountsView { input: 0, output: 0, cache_read: 0, reasoning: 0, calls: 0 }
}

pub open spec fn plus(a: CountsView, b: CountsView) -> CountsView {
    CountsView {
        input: a.input + b.input,
        output: a.output + b.output,
        cache_read: a.cache_read + b.cache_read,
        reasoning: a.reasoning + b.reasoning,
        calls: a.calls + b.calls,
    }
}

/// No part of `a` is more than that of `b`.
pub open spec fn within(a: CountsView, b: CountsView) -> bool {
    &&& a.input <= b.input
    &&& a.output <= b.output
    &&& a.cache_read <= b.cache_read
    &&& a.reasoning <= b.reasoning
    &&& a.calls <= b.calls
}

/// Each part fits a `u64`.
pub open spec fn fits(a: CountsView) -> bool {
    &&& a.input <= u64::MAX
    &&& a.output <= u64::MAX
    &&& a.cache_read <= u64::MAX
    &&& a.reasoning <= u64::MAX
    &&& a.calls <= u64::MAX
}

/// All tokens together.
pub open spec fn all_tokens(a: CountsView) -> nat {
    a.input + a.output + a.cache_read + a.reasoning
}

/// Nothing used.
pub fn no_counts() -> (r: Counts)
    ensures
        r@ == zero(),
{
    Counts { input: 0, output: 0, cache_read: 0, reasoning: 0, calls: 0 }
}

/// Both together.
pub fn add_counts(a: &Counts, b: &Counts) -> (r: Counts)
    requires
        fits(plus(a@, b@)),
    ensures
        r@ == plus(a@, b@),
{
    Counts {
        input: a.input + b.input,
        output: a.output + b.output,
        cache_read: a.cache_read + b.cache_read,
        reasoning: a.reasoning + b.reasoning,
        calls: a.calls + b.calls,
    }
}

/// Both together, nothing where a part would not fit.
pub fn try_add_counts(a: &Counts, b: &Counts) -> (r: Option<Counts>)
    ensures
        r is Some <==> fits(plus(a@, b@)),
        r matches Some(c) ==> c@ == plus(a@, b@),
{
    let input = a.input.checked_add(b.input)?;
    let output = a.output.checked_add(b.output)?;
    let cache_read = a.cache_read.checked_add(b.cache_read)?;
    let reasoning = a.reasoning.checked_add(b.reasoning)?;
    let calls = a.calls.checked_add(b.calls)?;
    Some(Counts { input, output, cache_read, reasoning, calls })
}

/// All tokens together.
pub fn token_sum(c: &Counts) -> (r: u64)
    requires
        all_tokens(c@) <= u64::MAX,
    ensures
        r == all_tokens(c@),
{
    c.input + c.output + c.cache_read + c.reasoning
}

/// All tokens together, nothing where they would not fit.
pub fn try_token_sum(c: &Counts) -> (r: Option<u64>)
    ensures
        r is Some <==> all_tokens(c@) <= u64::MAX,
        r matches Some(n) ==> n == all_tokens(c@),
{
    let a = c.input.checked_add(c.output)?;
    let b = a.checked_add(c.cache_read)?;
    b.checked_add(c.reasoning)
}

/// What was used of a model.
pub struct ModelStat {
    pub model: String,
    pub counts: Counts,
}

impl ModelStat {
    /// The same row.
    pub fn copied(&self) -> (r: ModelStat)
        ensures
            r.model@ == self.model@,
            r.counts == self.counts,
    {
        ModelStat { model: self.model.clone(), counts: self.counts }
    }
}

/// The rows of a table: names with their counts.
pub open spec fn rows(v: Seq<ModelStat>) -> Seq<(Seq<char>, CountsView)> {
    v.map_values(|m: ModelStat| (m.model@, m.counts@))
}

/// The names rise, so that none comes twice.
pub open spec fn rising(t: Seq<(Seq<char>, CountsView)>) -> bool {
    forall|i: int, j: int|
        0 <= i < j < t.len() ==> order::text_less((#[trigger] t[i]).0, (#[trigger] t[j]).0)
}

/// The table has a row for `name`.
pub open spec fn listed(t: Seq<(Seq<char>, CountsView)>, name: Seq<char>) -> bool {
    exists|i: int| 0 <= i < t.len() && (#[trigger] t[i]).0 == name
}

/// What the table says of `name`, nothing where it has no row for it.
pub open spec fn counts_of(t: Seq<(Seq<char>, CountsView)>, name: Seq<char>) -> CountsView
    decreases t.len(),
{
    if t.len() == 0 {
        zero()
    } else if t.last().0 == name {
        plus(counts_of(t.drop_last(), name), t.last().1)
    } else {
        counts_of(t.drop_last(), name)
    }
}

/// All rows together.
pub open spec fn table_sum(t: Seq<(Seq<char>, CountsView)>) -> CountsView
    decreases t.len(),
{
    if t.len() == 0 {
        zero()
    } else {
        plus(table_sum(t.drop_last()), t.last().1)
    }
}

pub proof fn lemma_counts_of_add(
    a: Seq<(Seq<char>, CountsView)>,
    b: Seq<(Seq<char>, CountsView)>,
    name: Seq<char>,
)
    ensures
        counts_of(a + b, name) == plus(counts_of(a, name), counts_of(b, name)),
        table_sum(a + b) == plus(table_sum(a), table_sum(b)),
    decreases b.len(),
{
    if b.len() == 0 {
        assert(a + b == a);
    } else {
        assert((a + b).drop_last() == a + b.drop_last());
        lemma_counts_of_add(a, b.drop_last(), name);
    }
}

pub proof fn lemma_counts_of_one(r: (Seq<char>, CountsView), name: Seq<char>)
    ensures
        counts_of(seq![r], name) == (if r.0 == name {
            r.1
        } else {
            zero()
        }),
        table_sum(seq![r]) == r.1,
{
    assert(seq![r].drop_last().len() == 0);
    assert(table_sum(seq![r].drop_last()) == zero());
    assert(counts_of(seq![r].drop_last(), name) == zero());
}

/// A name without a row has no counts.
pub proof fn lemma_counts_of_unlisted(t: Seq<(Seq<char>, CountsView)>, name: Seq<char>)
    requires
        !listed(t, name),
    ensures
        counts_of(t, name) == zero(),
    decreases t.len(),
{
    if t.len() > 0 {
        let init = t.drop_last();
        assert(t[t.len() - 1].0 != name);
        assert forall|i: int| 0 <= i < init.len() implies (#[trigger] init[i]).0 != name by {
            assert(t[i].0 != name);
        }
        lemma_counts_of_unlisted(init, name);
    }
}

/// In a table with rising names the row of a name holds its counts.
pub proof fn law_row_holds_counts(t: Seq<(Seq<char>, CountsView)>, i: int)
    requires
        rising(t),
        0 <= i < t.len(),
    ensures
        counts_of(t, t[i].0) == t[i].1,
    decreases t.len(),
{
    let init = t.drop_last();
    let z = t.len() - 1;
    if i < z {
        assert(order::text_less(t[i].0, t[z].0));
        order::lemma_text_less_irreflexive(t[i].0);
        assert forall|a: int, b: int| 0 <= a < b < init.len() implies order::text_less(
            (#[trigger] init[a]).0,
            (#[trigger] init[b]).0,
        ) by {
            assert(order::text_less(t[a].0, t[b].0));
        }
        assert(init[i] == t[i]);
        law_row_holds_counts(init, i);
    } else {
        assert forall|a: int| 0 <= a < init.len() implies (#[trigger] init[a]).0 != t[i].0 by {
            assert(order::text_less(t[a].0, t[z].0));
            order::lemma_text_less_irreflexive(t[z].0);
        }
        lemma_counts_of_unlisted(init, t[i].0);
    }
}

/// What a table says of a name is no more than all rows.
pub proof fn lemma_counts_within(t: Seq<(Seq<char>, CountsView)>, name: Seq<char>)
    ensures
        within(counts_of(t, name), table_sum(t)),
    decreases t.len(),
{
    if t.len() > 0 {
        lemma_counts_within(t.drop_last(), name);
    }
}

/// A row is no more than all rows.
pub proof fn lemma_row_within(t: Seq<(Seq<char>, CountsView)>, i: int)
    requires
        0 <= i < t.len(),
    ensures
        within(t[i].1, table_sum(t)),
    decreases t.len(),
{
    if i < t.len() - 1 {
        lemma_row_within(t.drop_last(), i);
    }
}

/// What adding counts to a table does: they go to the row of the name, which is made
/// where there is none.
pub open spec fn added(
    before: Seq<(Seq<char>, CountsView)>,
    after: Seq<(Seq<char>, CountsView)>,
    name: Seq<char>,
    c: CountsView,
) -> bool {
    &&& rising(after)
    &&& forall|n: Seq<char>|
        listed(after, n) <==> #[trigger] listed(before, n) || n == name
    &&& forall|n: Seq<char>|
        #[trigger] counts_of(after, n) == (if n == name {
            plus(counts_of(before, n), c)
        } else {
            counts_of(before, n)
        })
    &&& table_sum(after) == plus(table_sum(before), c)
}

proof fn lemma_replaced(
    t: Seq<(Seq<char>, CountsView)>,
    i: int,
    c: CountsView,
)
    requires
        rising(t),
        0 <= i < t.len(),
    ensures
        added(t, t.update(i, (t[i].0, plus(t[i].1, c))), t[i].0, c),
{
    let name = t[i].0;
    let row = (name, plus(t[i].1, c));
    let u = t.update(i, row);
    let a = t.take(i);
    let b = t.skip(i + 1);
    assert(t == a + seq![t[i]] + b);
    assert(u == a + seq![row] + b);
    assert forall|n: Seq<char>| #[trigger] counts_of(u, n) == (if n == name {
        plus(counts_of(t, n), c)
    } else {
        counts_of(t, n)
    }) by {
        lemma_counts_of_add(a + seq![t[i]], b, n);
        lemma_counts_of_add(a, seq![t[i]], n);
        lemma_counts_of_one(t[i], n);
        lemma_counts_of_add(a + seq![row], b, n);
        lemma_counts_of_add(a, seq![row], n);
        lemma_counts_of_one(row, n);
    }
    lemma_counts_of_add(a + seq![t[i]], b, name);
    lemma_counts_of_add(a, seq![t[i]], name);
    lemma_counts_of_one(t[i], name);
    lemma_counts_of_add(a + seq![row], b, name);
    lemma_counts_of_add(a, seq![row], name);
    lemma_counts_of_one(row, name);
    assert forall|x: int, y: int| 0 <= x < y < u.len() implies order::text_less(
        (#[trigger] u[x]).0,
        (#[trigger] u[y]).0,
    ) by {
        assert(u[x].0 == t[x].0 && u[y].0 == t[y].0);
        assert(order::text_less(t[x].0, t[y].0));
    }
    assert forall|n: Seq<char>| listed(u, n) <==> #[trigger] listed(t, n) || n == name by {
        if listed(u, n) {
            let j = choose|j: int| 0 <= j < u.len() && (#[trigger] u[j]).0 == n;
            assert(t[j].0 == n);
        }
        if listed(t, n) {
            let j = choose|j: int| 0 <= j < t.len() && (#[trigger] t[j]).0 == n;
            assert(u[j].0 == n);
        }
        assert(u[i].0 == name);
    }
}

proof fn lemma_inserted(
    t: Seq<(Seq<char>, CountsView)>,
    i: int,
    name: Seq<char>,
    c: CountsView,
)
    requires
        rising(t),
        0 <= i <= t.len(),
        forall|j: int| 0 <= j < i ==> order::text_less((#[trigger] t[j]).0, name),
        forall|j: int| i <= j < t.len() ==> order::text_less(name, (#[trigger] t[j]).0),
    ensures
        added(t, t.insert(i, (name, c)), name, c),
{
    let row = (name, c);
    let u = t.insert(i, row);
    let a = t.take(i);
    let b = t.skip(i);
    assert(t == a + b);
    assert(u == a + seq![row] + b);
    assert forall|n: Seq<char>| #[trigger] counts_of(u, n) == (if n == name {
        plus(counts_of(t, n), c)
    } else {
        counts_of(t, n)
    }) by {
        lemma_counts_of_add(a, b, n);
        lemma_counts_of_add(a + seq![row], b, n);
        lemma_counts_of_add(a, seq![row], n);
        lemma_counts_of_one(row, n);
    }
    lemma_counts_of_add(a, b, name);
    lemma_counts_of_add(a + seq![row], b, name);
    lemma_counts_of_add(a, seq![row], name);
    lemma_counts_of_one(row, name);
    assert forall|x: int, y: int| 0 <= x < y < u.len() implies order::text_less(
        (#[trigger] u[x]).0,
        (#[trigger] u[y]).0,
    ) by {
        let p = if x < i {
            x
        } else {
            x - 1
        };
        let q = if y < i {
            y
        } else {
            y - 1
        };
        if x != i {
            assert(u[x] == t[p]);
        }
        if y != i {
            assert(u[y] == t[q]);
        }
        if x != i && y != i {
            assert(order::text_less(t[p].0, t[q].0));
        }
    }
    assert forall|n: Seq<char>| listed(u, n) <==> #[trigger] listed(t, n) || n == name by {
        if listed(u, n) {
            let j = choose|j: int| 0 <= j < u.len() && (#[trigger] u[j]).0 == n;
            if j < i {
                assert(t[j].0 == n);
            } else if j > i {
                assert(t[j - 1].0 == n);
            }
        }
        if listed(t, n) {
            let j = choose|j: int| 0 <= j < t.len() && (#[trigger] t[j]).0 == n;
            if j < i {
                assert(u[j].0 == n);
            } else {
                assert(u[j + 1].0 == n);
            }
        }
        assert(u[i].0 == name);
    }
}

/// Adds counts to the row of `model`, which is made where there is none.
pub fn add_row(table: &mut Vec<ModelStat>, model: &str, c: &Counts)
    requires
        rising(rows(old(table)@)),
        fits(plus(table_sum(rows(old(table)@)), c@)),
    ensures
        added(rows(old(table)@), rows(final(table)@), model@, c@),
{
    let ghost t = rows(table@);
    let mut i: usize = 0;
    while i < table.len() && order::text_before(table[i].model.as_str(), model)
        invariant
            i <= table.len(),
            t == rows(table@),
            forall|j: int| 0 <= j < i ==> order::text_less((#[trigger] t[j]).0, model@),
        decreases table.len() - i,
    {
        assert(t[i as int].0 == table@[i as int].model@);
        i += 1;
    }
    if i < table.len() {
        assert(t[i as int] == (table@[i as int].model@, table@[i as int].counts@));
    }
    if i < table.len() && text::same_text(table[i].model.as_str(), model) {
        proof {
            lemma_row_within(t, i as int);
            lemma_replaced(t, i as int, c@);
        }
        let row = ModelStat { model: model.to_owned(), counts: add_counts(&table[i].counts, c) };
        table.set(i, row);
        proof {
            assert(rows(table@) == t.update(i as int, (t[i as int].0, plus(t[i as int].1, c@))));
        }
    } else {
        proof {
            if i < t.len() {
                order::lemma_text_less_total(t[i as int].0, model@);
            }
            assert forall|j: int| i <= j < t.len() implies order::text_less(
                model@,
                (#[trigger] t[j]).0,
            ) by {
                if j > i {
                    assert(order::text_less(t[i as int].0, t[j].0));
                    order::lemma_text_less_transitive(model@, t[i as int].0, t[j].0);
                }
            }
            lemma_inserted(t, i as int, model@, c@);
        }
        let row = ModelStat { model: model.to_owned(), counts: *c };
        table.insert(i, row);
        proof {
            assert(rows(table@) == t.insert(i as int, (model@, c@)));
        }
    }
}

} // verus!
