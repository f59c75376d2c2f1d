//! What the sessions used: the tokens of each log, and of all logs together by model and
//! by session.

use vstd::prelude::*;

use crate::counts;
use crate::counts::Counts;
use crate::counts::CountsView;
use crate::counts::ModelStat;
use crate::usage_log;
use crate::usage_log::LineView;
use crate::usage_log::LogLine;
use crate::usage_log::Unpacked;
use crate::usage_log::UsageView;

verus! {

/// What one log says was used, in all and of each model.
pub struct FileAgg {
    pub counts: Counts,
    pub by_model: Vec<ModelStat>,
}

impl FileAgg {
    /// The models come with rising names, and are together no more than the whole.
    pub open spec fn wf(&self) -> bool {
        &&& counts::rising(counts::rows(self.by_model@))
        &&& counts::within(counts::table_sum(counts::rows(self.by_model@)), self.counts@)
    }

    /// The same aggregate.
    pub fn copied(&self) -> (r: FileAgg)
        ensures
            r.counts == self.counts,
            counts::rows(r.by_model@) == counts::rows(self.by_model@),
    {
        FileAgg { counts: self.counts, by_model: copied_rows(&self.by_model) }
    }
}

fn copied_rows(v: &Vec<ModelStat>) -> (r: Vec<ModelStat>)
    ensures
        counts::rows(r@) == counts::rows(v@),
{
    let mut out: Vec<ModelStat> = Vec::new();
    let mut i: usize = 0;
    while i < v.len()
        invariant
            i <= v.len(),
            counts::rows(out@) == counts::rows(v@).take(i as int),
        decreases v.len() - i,
    {
        let ghost was = out@;
        out.push(v[i].copied());
        proof {
            let all = counts::rows(v@);
            assert(all[i as int] == (v@[i as int].model@, v@[i as int].counts@));
            assert(counts::rows(out@) == counts::rows(was).push(all[i as int]));
            assert(all.take(i + 1) == all.take(i as int).push(all[i as int]));
        }
        i += 1;
    }
    assert(counts::rows(v@).take(i as int) == counts::rows(v@));
    out
}

/// What the messages of a log used, one after the other.
pub open spec fn used(ls: Seq<LineView>) -> Seq<UsageView>
    decreases ls.len(),
{
    if ls.len() == 0 {
        Seq::empty()
    } else {
        match ls.last().usage {
            Some(u) => used(ls.drop_last()).push(u),
            None => used(ls.drop_last()),
        }
    }
}

/// All messages together.
pub open spec fn tally(us: Seq<UsageView>) -> CountsView
    decreases us.len(),
{
    if us.len() == 0 {
        counts::zero()
    } else {
        counts::plus(tally(us.drop_last()), us.last().counts)
    }
}

/// The messages of one model together.
pub open spec fn model_tally(us: Seq<UsageView>, name: Seq<char>) -> CountsView
    decreases us.len(),
{
    if us.len() == 0 {
        counts::zero()
    } else if us.last().model == Some(name) {
        counts::plus(model_tally(us.drop_last(), name), us.last().counts)
    } else {
        model_tally(us.drop_last(), name)
    }
}

/// Some message is of the model.
pub open spec fn model_used(us: Seq<UsageView>, name: Seq<char>) -> bool {
    exists|i: int| 0 <= i < us.len() && (#[trigger] us[i]).model == Some(name)
}

/// Where the session runs: the first place that a line gives.
pub open spec fn first_cwd(ls: Seq<LineView>) -> Option<Seq<char>>
    decreases ls.len(),
{
    if ls.len() == 0 {
        None
    } else {
        match ls[0].cwd {
            Some(c) => Some(c),
            None => first_cwd(ls.skip(1)),
        }
    }
}

/// The aggregate says what the messages used.
pub open spec fn aggregates(agg: FileAgg, us: Seq<UsageView>) -> bool {
    let t = counts::rows(agg.by_model@);
    &&& agg.wf()
    &&& agg.counts@ == tally(us)
    &&& forall|n: Seq<char>| #[trigger] counts::listed(t, n) <==> model_used(us, n)
    &&& forall|n: Seq<char>| #[trigger] counts::counts_of(t, n) == model_tally(us, n)
}

proof fn lemma_tally_grows(ls: Seq<LineView>, i: int)
    requires
        0 <= i <= ls.len(),
    ensures
        counts::within(tally(used(ls.take(i))), tally(used(ls))),
    decreases ls.len() - i,
{
    if i == ls.len() {
        assert(ls.take(i) == ls);
    } else {
        lemma_tally_grows(ls, i + 1);
        assert(ls.take(i + 1).drop_last() == ls.take(i));
        lemma_used_step(ls, i);
    }
}

proof fn lemma_used_step(ls: Seq<LineView>, i: int)
    requires
        0 <= i < ls.len(),
    ensures
        match ls[i].usage {
            Some(u) => used(ls.take(i + 1)) == used(ls.take(i)).push(u) && tally(
                used(ls.take(i + 1)),
            ) == counts::plus(tally(used(ls.take(i))), u.counts),
            None => used(ls.take(i + 1)) == used(ls.take(i)),
        },
{
    assert(ls.take(i + 1).drop_last() == ls.take(i));
    assert(ls.take(i + 1).last() == ls[i]);
    match ls[i].usage {
        Some(u) => {
            let us = used(ls.take(i));
            assert(us.push(u).drop_last() == us);
        },
        None => {},
    }
}

/// One message more: its model has one more, the others stay.
proof fn lemma_used_push(us: Seq<UsageView>, u: UsageView)
    ensures
        forall|n: Seq<char>|
            model_used(us.push(u), n) <==> #[trigger] model_used(us, n) || u.model == Some(n),
        forall|n: Seq<char>|
            #[trigger] model_tally(us.push(u), n) == (if u.model == Some(n) {
                counts::plus(model_tally(us, n), u.counts)
            } else {
                model_tally(us, n)
            }),
{
    let all = us.push(u);
    assert(all.drop_last() == us);
    assert forall|n: Seq<char>| model_used(all, n) <==> #[trigger] model_used(us, n) || u.model
        == Some(n) by {
        if model_used(all, n) {
            let i = choose|i: int| 0 <= i < all.len() && (#[trigger] all[i]).model == Some(n);
            if i < us.len() {
                assert(us[i].model == Some(n));
            }
        }
        if model_used(us, n) {
            let i = choose|i: int| 0 <= i < us.len() && (#[trigger] us[i]).model == Some(n);
            assert(all[i].model == Some(n));
        }
        if u.model == Some(n) {
            assert(all[us.len() as int].model == Some(n));
        }
    }
}

/// Whether what the messages used fits.
pub fn lines_fit(lines: &Vec<LogLine>) -> (r: bool)
    ensures
        r == counts::fits(tally(used(usage_log::lines_view(lines@)))),
{
    let ghost all = usage_log::lines_view(lines@);
    let mut sum = counts::no_counts();
    let mut i: usize = 0;
    assert(all.take(0).len() == 0);
    while i < lines.len()
        invariant
            i <= lines.len(),
            all == usage_log::lines_view(lines@),
            sum@ == tally(used(all.take(i as int))),
        decreases lines.len() - i,
    {
        proof {
            assert(all[i as int] == lines@[i as int]@);
            lemma_used_step(all, i as int);
        }
        match &lines[i].usage {
            Some(u) => {
                match counts::try_add_counts(&sum, &u.counts) {
                    Some(s) => {
                        sum = s;
                    },
                    None => {
                        proof {
                            lemma_tally_grows(all, i + 1);
                        }
                        return false;
                    },
                }
            },
            None => {},
        }
        i += 1;
    }
    assert(all.take(i as int) == all);
    true
}

/// What a log says was used, and where its session runs.
pub fn aggregate(lines: &Vec<LogLine>) -> (r: (FileAgg, Option<String>))
    requires
        counts::fits(tally(used(usage_log::lines_view(lines@)))),
    ensures
        aggregates(r.0, used(usage_log::lines_view(lines@))),
        usage_log::text_view(r.1) == first_cwd(usage_log::lines_view(lines@)),
{
    let ghost all = usage_log::lines_view(lines@);
    let mut sum = counts::no_counts();
    let mut table: Vec<ModelStat> = Vec::new();
    let mut cwd: Option<String> = None;
    let mut i: usize = 0;
    proof {
        assert(all.take(0).len() == 0);
        assert(all.skip(0) == all);
        assert(counts::rows(table@).len() == 0);
    }
    while i < lines.len()
        invariant
            i <= lines.len(),
            all == usage_log::lines_view(lines@),
            counts::fits(tally(used(all))),
            sum@ == tally(used(all.take(i as int))),
            counts::rising(counts::rows(table@)),
            counts::within(counts::table_sum(counts::rows(table@)), sum@),
            forall|n: Seq<char>|
                #[trigger] counts::listed(counts::rows(table@), n) <==> model_used(
                    used(all.take(i as int)),
                    n,
                ),
            forall|n: Seq<char>|
                #[trigger] counts::counts_of(counts::rows(table@), n) == model_tally(
                    used(all.take(i as int)),
                    n,
                ),
            match cwd {
                Some(c) => first_cwd(all) == Some(c@),
                None => first_cwd(all) == first_cwd(all.skip(i as int)),
            },
        decreases lines.len() - i,
    {
        proof {
            assert(all[i as int] == lines@[i as int]@);
            assert(all.skip(i as int)[0] == all[i as int]);
            assert(all.skip(i as int).skip(1) == all.skip(i + 1));
            lemma_used_step(all, i as int);
            lemma_tally_grows(all, i + 1);
        }
        if cwd.is_none() {
            match &lines[i].cwd {
                Some(c) => {
                    cwd = Some(c.clone());
                },
                None => {},
            }
        }
        match &lines[i].usage {
            Some(u) => {
                let ghost us = used(all.take(i as int));
                let ghost before = counts::rows(table@);
                proof {
                    lemma_used_push(us, u@);
                }
                sum = counts::add_counts(&sum, &u.counts);
                match &u.model {
                    Some(m) => {
                        counts::add_row(&mut table, m.as_str(), &u.counts);
                        proof {
                            let after = counts::rows(table@);
                            assert(counts::added(before, after, m@, u.counts@));
                            assert forall|n: Seq<char>| #[trigger]
                                counts::listed(after, n) <==> model_used(us.push(u@), n) by {
                                assert(counts::listed(before, n) <==> model_used(us, n));
                            }
                            assert forall|n: Seq<char>| #[trigger]
                                counts::counts_of(after, n) == model_tally(us.push(u@), n) by {
                                assert(counts::counts_of(before, n) == model_tally(us, n));
                            }
                        }
                    },
                    None => {
                        proof {
                            assert forall|n: Seq<char>| #[trigger]
                                counts::listed(before, n) <==> model_used(us.push(u@), n) by {
                                assert(model_used(us, n) <==> model_used(us.push(u@), n));
                            }
                            assert forall|n: Seq<char>| #[trigger]
                                counts::counts_of(before, n) == model_tally(us.push(u@), n) by {}
                        }
                    },
                }
            },
            None => {},
        }
        i += 1;
    }
    proof {
        assert(all.take(i as int) == all);
        assert(all.skip(i as int).len() == 0);
    }
    (FileAgg { counts: sum, by_model: table }, cwd)
}

/// What aggregating a log gives: why it cannot be read, what it says, or nothing where the
/// tokens are more than fit.
pub open spec fn outcome(
    r: Option<Result<(FileAgg, Option<String>), String>>,
    read: Result<Seq<LineView>, Seq<char>>,
) -> bool {
    match read {
        Err(e) => r matches Some(Err(t)) && t@ == e,
        Ok(ls) => if counts::fits(tally(used(ls))) {
            &&& r matches Some(Ok(a))
            &&& aggregates(a.0, used(ls))
            &&& usage_log::text_view(a.1) == first_cwd(ls)
        } else {
            r is None
        },
    }
}

/// Aggregates a log that was unpacked.
pub fn aggregate_unpacked(u: &Unpacked) -> (r: Option<
    Result<(FileAgg, Option<String>), String>,
>)
    ensures
        outcome(r, usage_log::log_read(*u)),
{
    match usage_log::read_log(u) {
        Err(e) => Some(Err(e)),
        Ok(lines) => {
            if lines_fit(&lines) {
                Some(Ok(aggregate(&lines)))
            } else {
                None
            }
        },
    }
}

/// What aggregating the file that holds `data` gives: what the lines of its zstd stream say,
/// or why they cannot be read.
pub open spec fn file_outcome(
    r: Option<Result<(FileAgg, Option<String>), String>>,
    data: Seq<u8>,
) -> bool {
    let stream = usage_log::zstd_stream(data, usage_log::LOG_ROOM as nat);
    outcome(r, usage_log::stream_read(stream.0, stream.1))
}

/// Aggregates the log whose file holds `data`.
pub fn aggregate_file(data: &[u8]) -> (r: Option<Result<(FileAgg, Option<String>), String>>)
    ensures
        file_outcome(r, data@),
{
    let u = usage_log::unpack(data);
    aggregate_unpacked(&u)
}

} // verus!
