//! The report over all sessions: totals, models and sessions with the most used first,
//! and what could not be read.

use vstd::prelude::*;

use crate::counts;
use crate::counts::Counts;
use crate::counts::CountsView;
use crate::counts::ModelStat;
use crate::order;
use crate::order::Rank;
use crate::text;
use crate::usage::FileAgg;

verus! {

/// One session's log: the directory it stands in, its name, its path, and what it says or
/// why it cannot be read.
pub struct SessionScan {
    pub slug: String,
    pub session_id: String,
    pub path: String,
    pub result: Result<(FileAgg, Option<String>), String>,
}

impl SessionScan {
    pub open spec fn wf(&self) -> bool {
        self.result matches Ok(a) ==> a.0.wf()
    }
}

/// All tokens, by kind and together.
pub struct TokenBreakdown {
    pub input: u64,
    pub output: u64,
    pub cache_read: u64,
    pub reasoning: u64,
    pub total: u64,
}

/// What one session used.
pub struct SessionStat {
    pub workspace: String,
    pub session_id: String,
    pub counts: Counts,
}

impl SessionStat {
    /// The same session.
    pub fn copied(&self) -> (r: SessionStat)
        ensures
            session_view(r) == session_view(*self),
    {
        SessionStat {
            workspace: self.workspace.clone(),
            session_id: self.session_id.clone(),
            counts: self.counts,
        }
    }
}

/// What all sessions used. The models come once with rising names and once with the most
/// used first.
pub struct UsageReport {
    pub total: TokenBreakdown,
    pub models: Vec<ModelStat>,
    pub by_model: Vec<ModelStat>,
    pub by_session: Vec<SessionStat>,
    pub session_count: usize,
    pub scanned_files: usize,
    pub errors: Vec<String>,
}

pub open spec fn scan_counts(s: SessionScan) -> CountsView {
    match s.result {
        Ok(a) => a.0.counts@,
        Err(_) => counts::zero(),
    }
}

pub open spec fn scan_rows(s: SessionScan) -> Seq<(Seq<char>, CountsView)> {
    match s.result {
        Ok(a) => counts::rows(a.0.by_model@),
        Err(_) => Seq::empty(),
    }
}

/// All sessions together.
pub open spec fn scans_sum(ss: Seq<SessionScan>) -> CountsView
    decreases ss.len(),
{
    if ss.len() == 0 {
        counts::zero()
    } else {
        counts::plus(scans_sum(ss.drop_last()), scan_counts(ss.last()))
    }
}

/// All sessions together, of one model.
pub open spec fn scans_model(ss: Seq<SessionScan>, name: Seq<char>) -> CountsView
    decreases ss.len(),
{
    if ss.len() == 0 {
        counts::zero()
    } else {
        counts::plus(
            scans_model(ss.drop_last(), name),
            counts::counts_of(scan_rows(ss.last()), name),
        )
    }
}

/// Some session used the model.
pub open spec fn scans_list(ss: Seq<SessionScan>, name: Seq<char>) -> bool
    decreases ss.len(),
{
    ss.len() > 0 && (scans_list(ss.drop_last(), name) || counts::listed(
        scan_rows(ss.last()),
        name,
    ))
}

pub open spec fn session_view(s: SessionStat) -> (Seq<char>, Seq<char>, CountsView) {
    (s.workspace@, s.session_id@, s.counts@)
}

pub open spec fn session_views(v: Seq<SessionStat>) -> Seq<(Seq<char>, Seq<char>, CountsView)> {
    v.map_values(|s: SessionStat| session_view(s))
}

/// The sessions that could be read, under the place where they run, or under the directory
/// where the log gives none.
pub open spec fn sessions_of(ss: Seq<SessionScan>) -> Seq<(Seq<char>, Seq<char>, CountsView)>
    decreases ss.len(),
{
    if ss.len() == 0 {
        Seq::empty()
    } else {
        let rest = sessions_of(ss.drop_last());
        let s = ss.last();
        match s.result {
            Ok(a) => rest.push(
                (
                    match a.1 {
                        Some(c) => c@,
                        None => s.slug@,
                    },
                    s.session_id@,
                    a.0.counts@,
                ),
            ),
            Err(_) => rest,
        }
    }
}

/// What could not be read, and why.
pub open spec fn errors_of(ss: Seq<SessionScan>) -> Seq<Seq<char>>
    decreases ss.len(),
{
    if ss.len() == 0 {
        Seq::empty()
    } else {
        let rest = errors_of(ss.drop_last());
        match ss.last().result {
            Ok(_) => rest,
            Err(e) => rest.push(ss.last().path@ + ": "@ + e@),
        }
    }
}

/// The table says of each model what the sessions used of it.
pub open spec fn tabulates(t: Seq<(Seq<char>, CountsView)>, ss: Seq<SessionScan>) -> bool {
    &&& counts::rising(t)
    &&& forall|n: Seq<char>| #[trigger] counts::listed(t, n) <==> scans_list(ss, n)
    &&& forall|n: Seq<char>| #[trigger] counts::counts_of(t, n) == scans_model(ss, n)
}

/// `sorted` holds what `all` holds, the most tokens first, in the old order where two have
/// as many.
pub open spec fn most_first(sorted: Seq<nat>, all: Seq<nat>, order: Seq<usize>) -> bool {
    &&& order::each_once(order, all.len())
    &&& sorted.len() == all.len()
    &&& forall|i: int| 0 <= i < sorted.len() ==> #[trigger] sorted[i] == all[order[i] as int]
    &&& forall|i: int, j: int|
        0 <= i < j < sorted.len() ==> (#[trigger] sorted[i]) > (#[trigger] sorted[j]) || (sorted[i]
            == sorted[j] && order[i] < order[j])
}

pub open spec fn row_tokens(t: Seq<(Seq<char>, CountsView)>) -> Seq<nat> {
    t.map_values(|r: (Seq<char>, CountsView)| counts::all_tokens(r.1))
}

pub open spec fn session_tokens(t: Seq<(Seq<char>, Seq<char>, CountsView)>) -> Seq<nat> {
    t.map_values(|r: (Seq<char>, Seq<char>, CountsView)| counts::all_tokens(r.2))
}

/// The models of `t` with the most used first.
pub open spec fn models_ordered(
    m: Seq<(Seq<char>, CountsView)>,
    t: Seq<(Seq<char>, CountsView)>,
) -> bool {
    exists|o: Seq<usize>|
        #[trigger] most_first(row_tokens(m), row_tokens(t), o) && forall|i: int|
            0 <= i < m.len() ==> #[trigger] m[i] == t[o[i] as int]
}

/// The sessions of `t` with the most used first.
pub open spec fn sessions_ordered(
    s: Seq<(Seq<char>, Seq<char>, CountsView)>,
    t: Seq<(Seq<char>, Seq<char>, CountsView)>,
) -> bool {
    exists|o: Seq<usize>|
        #[trigger] most_first(session_tokens(s), session_tokens(t), o) && forall|i: int|
            0 <= i < s.len() ==> #[trigger] s[i] == t[o[i] as int]
}

/// The sums fit.
pub open spec fn scans_fit(ss: Seq<SessionScan>) -> bool {
    counts::fits(scans_sum(ss)) && counts::all_tokens(scans_sum(ss)) <= u64::MAX
}

/// The report says what the sessions used, and what went wrong.
pub open spec fn reports(
    r: UsageReport,
    ss: Seq<SessionScan>,
    errors: Seq<Seq<char>>,
) -> bool {
    let sum = scans_sum(ss);
    let t = counts::rows(r.models@);
    let m = counts::rows(r.by_model@);
    let s = session_views(r.by_session@);
    &&& r.total.input == sum.input
    &&& r.total.output == sum.output
    &&& r.total.cache_read == sum.cache_read
    &&& r.total.reasoning == sum.reasoning
    &&& r.total.total == counts::all_tokens(sum)
    &&& tabulates(t, ss)
    &&& models_ordered(m, t)
    &&& sessions_ordered(s, sessions_of(ss))
    &&& r.session_count == ss.len()
    &&& r.scanned_files == ss.len()
    &&& r.errors@.map_values(|e: String| e@) == errors
}

proof fn lemma_scans_grow(ss: Seq<SessionScan>, i: int)
    requires
        0 <= i <= ss.len(),
    ensures
        counts::within(scans_sum(ss.take(i)), scans_sum(ss)),
    decreases ss.len() - i,
{
    if i == ss.len() {
        assert(ss.take(i) == ss);
    } else {
        lemma_scans_grow(ss, i + 1);
        assert(ss.take(i + 1).drop_last() == ss.take(i));
    }
}

/// A session's tokens are no more than those of all sessions.
proof fn lemma_session_within(ss: Seq<SessionScan>, i: int)
    requires
        0 <= i < sessions_of(ss).len(),
    ensures
        counts::within(sessions_of(ss)[i].2, scans_sum(ss)),
    decreases ss.len(),
{
    if ss.len() > 0 {
        let rest = sessions_of(ss.drop_last());
        if i < rest.len() {
            assert(sessions_of(ss)[i] == rest[i]);
            lemma_session_within(ss.drop_last(), i);
        }
    }
}

/// Whether the sums fit.
pub fn sums_fit(ss: &Vec<SessionScan>) -> (r: bool)
    ensures
        r == scans_fit(ss@),
{
    let mut sum = counts::no_counts();
    let mut i: usize = 0;
    assert(ss@.take(0).len() == 0);
    while i < ss.len()
        invariant
            i <= ss.len(),
            sum@ == scans_sum(ss@.take(i as int)),
        decreases ss.len() - i,
    {
        proof {
            assert(ss@.take(i + 1).drop_last() == ss@.take(i as int));
            assert(ss@.take(i + 1).last() == ss@[i as int]);
        }
        match &ss[i].result {
            Ok(a) => {
                match counts::try_add_counts(&sum, &a.0.counts) {
                    Some(s) => {
                        sum = s;
                    },
                    None => {
                        proof {
                            lemma_scans_grow(ss@, i + 1);
                        }
                        return false;
                    },
                }
            },
            Err(_) => {},
        }
        i += 1;
    }
    assert(ss@.take(i as int) == ss@);
    counts::try_token_sum(&sum).is_some()
}

/// Adds the models of one session to those of all.
fn add_rows(table: &mut Vec<ModelStat>, from: &Vec<ModelStat>)
    requires
        counts::rising(counts::rows(old(table)@)),
        counts::fits(
            counts::plus(
                counts::table_sum(counts::rows(old(table)@)),
                counts::table_sum(counts::rows(from@)),
            ),
        ),
    ensures
        counts::rising(counts::rows(final(table)@)),
        counts::table_sum(counts::rows(final(table)@)) == counts::plus(
            counts::table_sum(counts::rows(old(table)@)),
            counts::table_sum(counts::rows(from@)),
        ),
        forall|n: Seq<char>|
            #[trigger] counts::listed(counts::rows(final(table)@), n) <==> counts::listed(
                counts::rows(old(table)@),
                n,
            ) || counts::listed(counts::rows(from@), n),
        forall|n: Seq<char>|
            #[trigger] counts::counts_of(counts::rows(final(table)@), n) == counts::plus(
                counts::counts_of(counts::rows(old(table)@), n),
                counts::counts_of(counts::rows(from@), n),
            ),
{
    let ghost t0 = counts::rows(table@);
    let ghost f = counts::rows(from@);
    let mut i: usize = 0;
    assert(f.take(0).len() == 0);
    while i < from.len()
        invariant
            i <= from.len(),
            f == counts::rows(from@),
            counts::fits(counts::plus(counts::table_sum(t0), counts::table_sum(f))),
            counts::rising(counts::rows(table@)),
            counts::table_sum(counts::rows(table@)) == counts::plus(
                counts::table_sum(t0),
                counts::table_sum(f.take(i as int)),
            ),
            forall|n: Seq<char>|
                #[trigger] counts::listed(counts::rows(table@), n) <==> counts::listed(t0, n)
                    || counts::listed(f.take(i as int), n),
            forall|n: Seq<char>|
                #[trigger] counts::counts_of(counts::rows(table@), n) == counts::plus(
                    counts::counts_of(t0, n),
                    counts::counts_of(f.take(i as int), n),
                ),
        decreases from.len() - i,
    {
        let ghost before = counts::rows(table@);
        let ghost a = f.take(i as int);
        let ghost b = f.take(i + 1);
        proof {
            assert(f[i as int] == (from@[i as int].model@, from@[i as int].counts@));
            assert(b.drop_last() == a);
            assert(b.last() == f[i as int]);
            lemma_sum_grows(f, i + 1);
        }
        counts::add_row(table, from[i].model.as_str(), &from[i].counts);
        proof {
            let after = counts::rows(table@);
            let m = f[i as int].0;
            assert(counts::added(before, after, m, f[i as int].1));
            assert forall|n: Seq<char>| #[trigger] counts::listed(after, n) <==> counts::listed(
                t0,
                n,
            ) || counts::listed(b, n) by {
                assert(counts::listed(before, n) <==> counts::listed(t0, n) || counts::listed(
                    a,
                    n,
                ));
                assert(b[i as int].0 == m);
                if counts::listed(b, n) {
                    let j = choose|j: int| 0 <= j < b.len() && (#[trigger] b[j]).0 == n;
                    if j < i {
                        assert(a[j].0 == n);
                    }
                }
                if counts::listed(a, n) {
                    let j = choose|j: int| 0 <= j < a.len() && (#[trigger] a[j]).0 == n;
                    assert(b[j].0 == n);
                }
            }
            assert forall|n: Seq<char>| #[trigger]
                counts::counts_of(after, n) == counts::plus(
                counts::counts_of(t0, n),
                counts::counts_of(b, n),
            ) by {
                assert(counts::counts_of(before, n) == counts::plus(
                    counts::counts_of(t0, n),
                    counts::counts_of(a, n),
                ));
            }
        }
        i += 1;
    }
    assert(f.take(i as int) == f);
}

proof fn lemma_sum_grows(t: Seq<(Seq<char>, CountsView)>, i: int)
    requires
        0 <= i <= t.len(),
    ensures
        counts::within(counts::table_sum(t.take(i)), counts::table_sum(t)),
    decreases t.len() - i,
{
    if i == t.len() {
        assert(t.take(i) == t);
    } else {
        lemma_sum_grows(t, i + 1);
        assert(t.take(i + 1).drop_last() == t.take(i));
    }
}

/// The positions of `tokens`, the most first, in the old order where two are as many.
fn order_by_tokens(tokens: &Vec<u64>) -> (r: Vec<usize>)
    ensures
        most_first(
            r@.map_values(|p: usize| tokens@[p as int] as nat),
            tokens@.map_values(|t: u64| t as nat),
            r@,
        ),
{
    let n = tokens.len();
    let mut ranks: Vec<Rank> = Vec::new();
    let mut i: usize = 0;
    while i < n
        invariant
            i <= n,
            n == tokens.len(),
            ranks.len() == i,
            forall|j: int|
                0 <= j < i ==> (#[trigger] ranks@[j]).first == tokens@[j] && ranks@[j].second == 0
                    && ranks@[j].third == 0 && ranks@[j].fourth == n - 1 - j,
        decreases n - i,
    {
        ranks.push(Rank { first: tokens[i], second: 0, third: 0, fourth: (n - 1 - i) as u64 });
        i += 1;
    }
    let r = order::order_desc(&ranks);
    proof {
        let sorted = r@.map_values(|p: usize| tokens@[p as int] as nat);
        assert forall|i: int, j: int| 0 <= i < j < sorted.len() implies (#[trigger] sorted[i]) > (
        #[trigger] sorted[j]) || (sorted[i] == sorted[j] && r@[i] < r@[j]) by {
            assert(!order::rank_less(ranks@[r@[i] as int], ranks@[r@[j] as int]));
            assert(r@[i] != r@[j]);
        }
    }
    r
}

/// The models with the most used first.
pub fn order_models(t: &Vec<ModelStat>) -> (r: Vec<ModelStat>)
    requires
        forall|i: int|
            0 <= i < t.len() ==> counts::all_tokens((#[trigger] t@[i]).counts@) <= u64::MAX,
    ensures
        models_ordered(counts::rows(r@), counts::rows(t@)),
{
    let mut tokens: Vec<u64> = Vec::new();
    let mut i: usize = 0;
    while i < t.len()
        invariant
            i <= t.len(),
            tokens.len() == i,
            forall|i: int|
                0 <= i < t.len() ==> counts::all_tokens((#[trigger] t@[i]).counts@) <= u64::MAX,
            forall|j: int|
                0 <= j < i ==> #[trigger] tokens@[j] == counts::all_tokens(t@[j].counts@),
        decreases t.len() - i,
    {
        tokens.push(counts::token_sum(&t[i].counts));
        i += 1;
    }
    let order = order_by_tokens(&tokens);
    let mut out: Vec<ModelStat> = Vec::new();
    let mut k: usize = 0;
    while k < order.len()
        invariant
            k <= order.len(),
            order::each_once(order@, t@.len()),
            out.len() == k,
            forall|j: int|
                0 <= j < k ==> #[trigger] counts::rows(out@)[j] == counts::rows(
                    t@,
                )[order@[j] as int],
        decreases order.len() - k,
    {
        let ghost was = out@;
        let p = order[k];
        out.push(t[p].copied());
        proof {
            assert forall|j: int| 0 <= j < k + 1 implies #[trigger] counts::rows(out@)[j]
                == counts::rows(t@)[order@[j] as int] by {
                if j < k {
                    assert(counts::rows(was)[j] == counts::rows(out@)[j]);
                }
            }
        }
        k += 1;
    }
    proof {
        let a = row_tokens(counts::rows(out@));
        let b = row_tokens(counts::rows(t@));
        assert(tokens@.map_values(|t: u64| t as nat) == b);
        assert forall|j: int| 0 <= j < a.len() implies #[trigger] a[j] == b[order@[j] as int] by {
            assert(counts::rows(out@)[j] == counts::rows(t@)[order@[j] as int]);
        }
        assert(order@.map_values(|p: usize| tokens@[p as int] as nat) == a);
        assert(most_first(a, b, order@));
    }
    out
}

/// The sessions with the most used first.
pub fn order_sessions(t: &Vec<SessionStat>) -> (r: Vec<SessionStat>)
    requires
        forall|i: int|
            0 <= i < t.len() ==> counts::all_tokens((#[trigger] t@[i]).counts@) <= u64::MAX,
    ensures
        sessions_ordered(session_views(r@), session_views(t@)),
{
    let mut tokens: Vec<u64> = Vec::new();
    let mut i: usize = 0;
    while i < t.len()
        invariant
            i <= t.len(),
            tokens.len() == i,
            forall|i: int|
                0 <= i < t.len() ==> counts::all_tokens((#[trigger] t@[i]).counts@) <= u64::MAX,
            forall|j: int|
                0 <= j < i ==> #[trigger] tokens@[j] == counts::all_tokens(t@[j].counts@),
        decreases t.len() - i,
    {
        tokens.push(counts::token_sum(&t[i].counts));
        i += 1;
    }
    let order = order_by_tokens(&tokens);
    let mut out: Vec<SessionStat> = Vec::new();
    let mut k: usize = 0;
    while k < order.len()
        invariant
            k <= order.len(),
            order::each_once(order@, t@.len()),
            out.len() == k,
            forall|j: int|
                0 <= j < k ==> #[trigger] session_views(out@)[j] == session_views(
                    t@,
                )[order@[j] as int],
        decreases order.len() - k,
    {
        let ghost was = out@;
        let p = order[k];
        out.push(t[p].copied());
        proof {
            assert forall|j: int| 0 <= j < k + 1 implies #[trigger] session_views(out@)[j]
                == session_views(t@)[order@[j] as int] by {
                if j < k {
                    assert(session_views(was)[j] == session_views(out@)[j]);
                }
            }
        }
        k += 1;
    }
    proof {
        let a = session_tokens(session_views(out@));
        let b = session_tokens(session_views(t@));
        assert(tokens@.map_values(|t: u64| t as nat) == b);
        assert forall|j: int| 0 <= j < a.len() implies #[trigger] a[j] == b[order@[j] as int] by {
            assert(session_views(out@)[j] == session_views(t@)[order@[j] as int]);
        }
        assert(order@.map_values(|p: usize| tokens@[p as int] as nat) == a);
        assert(most_first(a, b, order@));
    }
    out
}

/// The report over the sessions.
pub fn report(ss: &Vec<SessionScan>) -> (r: UsageReport)
    requires
        forall|i: int| 0 <= i < ss.len() ==> (#[trigger] ss@[i]).wf(),
        scans_fit(ss@),
    ensures
        reports(r, ss@, errors_of(ss@)),
{
    let mut sum = counts::no_counts();
    let mut models: Vec<ModelStat> = Vec::new();
    let mut sessions: Vec<SessionStat> = Vec::new();
    let mut errors: Vec<String> = Vec::new();
    let mut i: usize = 0;
    proof {
        assert(ss@.take(0).len() == 0);
        assert(counts::rows(models@).len() == 0);
        assert(session_views(sessions@) == sessions_of(ss@.take(0)));
        assert(errors@.map_values(|e: String| e@) == errors_of(ss@.take(0)));
    }
    while i < ss.len()
        invariant
            i <= ss.len(),
            forall|i: int| 0 <= i < ss.len() ==> (#[trigger] ss@[i]).wf(),
            scans_fit(ss@),
            sum@ == scans_sum(ss@.take(i as int)),
            tabulates(counts::rows(models@), ss@.take(i as int)),
            counts::within(counts::table_sum(counts::rows(models@)), sum@),
            session_views(sessions@) == sessions_of(ss@.take(i as int)),
            errors@.map_values(|e: String| e@) == errors_of(ss@.take(i as int)),
        decreases ss.len() - i,
    {
        let ghost a = ss@.take(i as int);
        let ghost b = ss@.take(i + 1);
        let ghost before = counts::rows(models@);
        let ghost was = sessions@;
        let ghost had = errors@;
        proof {
            assert(b.drop_last() == a);
            assert(b.last() == ss@[i as int]);
            assert(ss@[i as int].wf());
            lemma_scans_grow(ss@, i + 1);
        }
        match &ss[i].result {
            Ok(x) => {
                sum = counts::add_counts(&sum, &x.0.counts);
                add_rows(&mut models, &x.0.by_model);
                let workspace = match &x.1 {
                    Some(c) => c.clone(),
                    None => ss[i].slug.clone(),
                };
                sessions.push(
                    SessionStat {
                        workspace,
                        session_id: ss[i].session_id.clone(),
                        counts: x.0.counts,
                    },
                );
                proof {
                    let t = counts::rows(models@);
                    assert forall|n: Seq<char>| #[trigger]
                        counts::listed(t, n) <==> scans_list(b, n) by {
                        assert(counts::listed(before, n) <==> scans_list(a, n));
                    }
                    assert forall|n: Seq<char>| #[trigger]
                        counts::counts_of(t, n) == scans_model(b, n) by {
                        assert(counts::counts_of(before, n) == scans_model(a, n));
                    }
                    assert(session_views(sessions@) == session_views(was).push(
                        session_view(sessions@.last()),
                    ));
                }
            },
            Err(e) => {
                let mut line = ss[i].path.clone();
                line.append(": ");
                line.append(e.as_str());
                errors.push(line);
                proof {
                    let t = counts::rows(models@);
                    let none = Seq::<(Seq<char>, CountsView)>::empty();
                    assert(scan_rows(ss@[i as int]) == none);
                    assert forall|n: Seq<char>| #[trigger]
                        counts::listed(t, n) <==> scans_list(b, n) by {
                        assert(counts::listed(before, n) <==> scans_list(a, n));
                        assert(!counts::listed(none, n));
                    }
                    assert forall|n: Seq<char>| #[trigger]
                        counts::counts_of(t, n) == scans_model(b, n) by {
                        assert(counts::counts_of(before, n) == scans_model(a, n));
                        assert(counts::counts_of(none, n) == counts::zero());
                    }
                    assert(errors@.map_values(|e: String| e@) == had.map_values(
                        |e: String| e@,
                    ).push(line@));
                }
            },
        }
        i += 1;
    }
    proof {
        assert(ss@.take(i as int) == ss@);
        let t = counts::rows(models@);
        assert forall|k: int| 0 <= k < models@.len() implies counts::all_tokens(
            (#[trigger] models@[k]).counts@,
        ) <= u64::MAX by {
            assert(t[k] == (models@[k].model@, models@[k].counts@));
            counts::lemma_row_within(t, k);
        }
        let s = sessions_of(ss@);
        assert forall|k: int| 0 <= k < sessions@.len() implies counts::all_tokens(
            (#[trigger] sessions@[k]).counts@,
        ) <= u64::MAX by {
            assert(s[k] == session_view(sessions@[k]));
            lemma_session_within(ss@, k);
        }
    }
    let by_model = order_models(&models);
    let by_session = order_sessions(&sessions);
    let total = TokenBreakdown {
        input: sum.input,
        output: sum.output,
        cache_read: sum.cache_read,
        reasoning: sum.reasoning,
        total: counts::token_sum(&sum),
    };
    UsageReport {
        total,
        models,
        by_model,
        by_session,
        session_count: ss.len(),
        scanned_files: ss.len(),
        errors,
    }
}

/// What is reported where there is no directory of sessions.
pub open spec fn no_sessions_text(dir: Seq<char>) -> Seq<char> {
    "未找到会话目录: "@ + dir
}

/// The report over the sessions under `dir`, nothing where the tokens are more than fit.
/// Where `dir` is no directory there are none, which the report says.
pub fn scan_sessions(dir: &str, is_dir: bool, ss: &Vec<SessionScan>) -> (r: Option<UsageReport>)
    requires
        forall|i: int| 0 <= i < ss.len() ==> (#[trigger] ss@[i]).wf(),
    ensures
        is_dir ==> (r is Some <==> scans_fit(ss@)),
        is_dir ==> (r matches Some(x) ==> reports(x, ss@, errors_of(ss@))),
        !is_dir ==> (r matches Some(x) && reports(x, Seq::empty(), seq![no_sessions_text(dir@)])),
{
    if !is_dir {
        let none: Vec<SessionScan> = Vec::new();
        assert(none@ == Seq::<SessionScan>::empty());
        let mut x = report(&none);
        x.errors = Vec::new();
        x.errors.push(text::joined_pair("未找到会话目录: ", dir));
        assert(x.errors@.map_values(|e: String| e@) == seq![no_sessions_text(dir@)]);
        return Some(x);
    }
    if sums_fit(ss) {
        Some(report(ss))
    } else {
        None
    }
}

/// The tokens of the sessions in a report.
pub open spec fn sessions_sum(s: Seq<(Seq<char>, Seq<char>, CountsView)>) -> CountsView
    decreases s.len(),
{
    if s.len() == 0 {
        counts::zero()
    } else {
        counts::plus(sessions_sum(s.drop_last()), s.last().2)
    }
}

/// The sessions of a report add up to its total, and its models to no more than that.
pub proof fn law_report_adds_up(ss: Seq<SessionScan>, t: Seq<(Seq<char>, CountsView)>)
    requires
        forall|i: int| 0 <= i < ss.len() ==> (#[trigger] ss[i]).wf(),
        tabulates(t, ss),
    ensures
        sessions_sum(sessions_of(ss)) == scans_sum(ss),
        forall|n: Seq<char>|
            counts::within(#[trigger] counts::counts_of(t, n), scans_sum(ss)),
    decreases ss.len(),
{
    lemma_sessions_sum(ss);
    assert forall|n: Seq<char>| counts::within(
        #[trigger] counts::counts_of(t, n),
        scans_sum(ss),
    ) by {
        lemma_model_within(ss, n);
    }
}

proof fn lemma_sessions_sum(ss: Seq<SessionScan>)
    ensures
        sessions_sum(sessions_of(ss)) == scans_sum(ss),
    decreases ss.len(),
{
    if ss.len() > 0 {
        lemma_sessions_sum(ss.drop_last());
        let rest = sessions_of(ss.drop_last());
        if ss.last().result is Ok {
            assert(sessions_of(ss).drop_last() == rest);
        }
    }
}

proof fn lemma_model_within(ss: Seq<SessionScan>, n: Seq<char>)
    requires
        forall|i: int| 0 <= i < ss.len() ==> (#[trigger] ss[i]).wf(),
    ensures
        counts::within(scans_model(ss, n), scans_sum(ss)),
    decreases ss.len(),
{
    if ss.len() > 0 {
        let init = ss.drop_last();
        assert forall|i: int| 0 <= i < init.len() implies (#[trigger] init[i]).wf() by {
            assert(init[i] == ss[i]);
        }
        lemma_model_within(init, n);
        assert(ss[ss.len() - 1].wf());
        counts::lemma_counts_within(scan_rows(ss.last()), n);
    }
}

} // verus!
