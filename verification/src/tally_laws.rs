//! What reading the logs of the sessions, remembering them and adding them up promise.

use vstd::prelude::*;

use crate::cache;
use crate::cache::CachedScan;
use crate::cache::FileStamp;
use crate::cache::PathMap;
use crate::counts;
use crate::counts::CountsView;
use crate::counts::ModelStat;
use crate::order;
use crate::report_laws;
use crate::scan;
use crate::scan::ScanStep;
use crate::scan::SessionFile;
use crate::usage;
use crate::usage::FileAgg;
use crate::usage_log;
use crate::usage_log::LineView;
use crate::usage_log::LogLine;
use crate::usage_log::Unpacked;
use crate::usage_report;
use crate::usage_report::SessionScan;
use crate::usage_report::UsageReport;

verus! {

/// Of two texts the first char in which they differ decides, and a text comes behind its own
/// start.
pub proof fn law_text_order(p: Seq<char>, c: char, d: char, x: Seq<char>, y: Seq<char>)
    ensures
        order::text_less(p + seq![c] + x, p + seq![d] + y) <==> c < d || (c == d
            && order::text_less(x, y)),
        order::text_less(p, p + seq![c] + x),
        !order::text_less(p + seq![c] + x, p),
        !order::text_less(p, p),
    decreases p.len(),
{
    let a = p + seq![c] + x;
    let b = p + seq![d] + y;
    if p.len() == 0 {
        assert(a.skip(1) == x);
        assert(b.skip(1) == y);
    } else {
        let q = p.skip(1);
        law_text_order(q, c, d, x, y);
        assert(a.skip(1) == q + seq![c] + x);
        assert(b.skip(1) == q + seq![d] + y);
        assert(a[0] == p[0] && b[0] == p[0]);
    }
}

/// The rows are the same, name by name and count by count.
pub open spec fn same_rows(a: Seq<ModelStat>, b: Seq<ModelStat>) -> bool {
    &&& a.len() == b.len()
    &&& forall|i: int|
        0 <= i < a.len() ==> (#[trigger] a[i]).model@ == b[i].model@ && a[i].counts@
            == b[i].counts@
}

/// Both texts are there and the same, or neither is there.
pub open spec fn same_text(a: Option<String>, b: Option<String>) -> bool {
    &&& a is Some <==> b is Some
    &&& a is Some ==> a->0@ == b->0@
}

proof fn lemma_same_rows(a: Seq<ModelStat>, b: Seq<ModelStat>)
    requires
        counts::rows(a) == counts::rows(b),
    ensures
        same_rows(a, b),
{
    let x = counts::rows(a);
    let y = counts::rows(b);
    assert(x.len() == a.len() && y.len() == b.len());
    assert forall|i: int| 0 <= i < a.len() implies (#[trigger] a[i]).model@ == b[i].model@
        && a[i].counts@ == b[i].counts@ by {
        assert(x[i] == y[i]);
    }
}

/// A log that was read is good again only where the file has the same length and the same time
/// of its last change, and where both are known.
pub proof fn law_remembered(
    cache: &PathMap<CachedScan>,
    path: &Vec<u8>,
    stamp: &Option<FileStamp>,
    r: Option<(FileAgg, Option<String>)>,
)
    requires
        cache::cache_wf(cache@),
        call_ensures(cache::cached_scan, (cache, path, stamp), r),
    ensures
        r is Some <==> stamp is Some && cache@.contains_key(path@) && cache@[path@].stamp.len
            == stamp->0.len && cache@[path@].stamp.modified == stamp->0.modified,
        r matches Some(x) ==> {
            let c = cache@[path@];
            &&& x.0.counts == c.agg.counts
            &&& same_rows(x.0.by_model@, c.agg.by_model@)
            &&& same_text(x.1, c.cwd)
        },
{
    if r is Some {
        let x = r->0;
        lemma_same_rows(x.0.by_model@, cache@[path@].agg.by_model@);
    }
}

/// A file whose log is remembered is not read again; any other is.
pub proof fn law_scan_cached(
    known: &PathMap<CachedScan>,
    file: &SessionFile,
    stamp: &Option<FileStamp>,
    r: ScanStep,
)
    requires
        cache::cache_wf(known@),
        call_ensures(scan::scan_cached, (known, file, stamp), r),
    ensures
        ({
            let same = stamp is Some && known@.contains_key(file.path@)
                && known@[file.path@].stamp.len == stamp->0.len
                && known@[file.path@].stamp.modified == stamp->0.modified;
            &&& r is Read <==> !same
            &&& same ==> {
                let s = r->Done_0;
                let c = known@[file.path@];
                &&& r is Done
                &&& s.slug@ == file.slug@
                &&& s.session_id@ == file.session_id@
                &&& s.path@ == file.shown@
                &&& s.result is Ok
                &&& s.result->Ok_0.0.counts == c.agg.counts
                &&& same_rows(s.result->Ok_0.0.by_model@, c.agg.by_model@)
                &&& same_text(s.result->Ok_0.1, c.cwd)
            }
        }),
{
    if r is Done && r->Done_0.result is Ok && known@.contains_key(file.path@) {
        let x = r->Done_0.result->Ok_0;
        let c = known@[file.path@];
        if counts::rows(x.0.by_model@) == counts::rows(c.agg.by_model@) {
            lemma_same_rows(x.0.by_model@, c.agg.by_model@);
        }
    }
}

/// What was read of a file is reported of that file, and remembered under its path with its
/// stamp; what could not be read is reported as an error and not remembered.
pub proof fn law_scanned(
    before: Map<Seq<u8>, CachedScan>,
    after: Map<Seq<u8>, CachedScan>,
    file: SessionFile,
    stamp: Option<FileStamp>,
    outcome: Option<Result<(FileAgg, Option<String>), String>>,
    r: ScanStep,
    other: Seq<u8>,
)
    requires
        scan::leads_to(before, after, file, stamp, outcome, r),
    ensures
        outcome is None ==> r is TooMuch && after == before,
        outcome matches Some(o) ==> {
            let s = r->Done_0;
            &&& r is Done
            &&& s.slug@ == file.slug@
            &&& s.session_id@ == file.session_id@
            &&& s.path@ == file.shown@
            &&& s.result is Ok <==> o is Ok
            &&& o matches Ok(x) ==> {
                let c = after[file.path@];
                &&& s.result->Ok_0.0.counts == x.0.counts
                &&& same_rows(s.result->Ok_0.0.by_model@, x.0.by_model@)
                &&& same_text(s.result->Ok_0.1, x.1)
                &&& stamp is None ==> after == before
                &&& stamp is Some ==> {
                    &&& after.contains_key(file.path@)
                    &&& c.stamp == stamp->0
                    &&& c.agg.counts == x.0.counts
                    &&& same_rows(c.agg.by_model@, x.0.by_model@)
                    &&& same_text(c.cwd, x.1)
                    &&& other != file.path@ ==> (after.contains_key(other)
                        <==> before.contains_key(other)) && after[other] == before[other]
                }
            }
            &&& o matches Err(e) ==> s.result->Err_0@ == e@ && after == before
        },
{
    if outcome is Some && outcome->0 is Ok {
        let x = outcome->0->Ok_0;
        lemma_same_rows(r->Done_0.result->Ok_0.0.by_model@, x.0.by_model@);
        if stamp is Some {
            lemma_same_rows(after[file.path@].agg.by_model@, x.0.by_model@);
            assert(after.contains_key(other) || !after.contains_key(other));
        }
    }
}

/// The counts of a log are the sums over its lines that tell of usage, and a row stands for
/// each model that they name, in the order of the names.
pub proof fn law_aggregate(lines: &Vec<LogLine>, r: (FileAgg, Option<String>), i: int, j: int)
    requires
        counts::fits(usage::tally(usage::used(usage_log::lines_view(lines@)))),
        call_ensures(usage::aggregate, (lines,), r),
    ensures
        ({
            let us = usage::used(usage_log::lines_view(lines@));
            let rows = r.0.by_model@;
            &&& r.0.counts@ == usage::tally(us)
            &&& 0 <= i < rows.len() ==> {
                &&& rows[i].counts@ == usage::model_tally(us, rows[i].model@)
                &&& usage::model_used(us, rows[i].model@)
            }
            &&& 0 <= i < j < rows.len() ==> order::text_less(rows[i].model@, rows[j].model@)
            &&& 0 <= i < us.len() && us[i].model is Some ==> exists|k: int|
                0 <= k < rows.len() && (#[trigger] rows[k]).model@ == us[i].model->0
        }),
{
    let us = usage::used(usage_log::lines_view(lines@));
    let rows = r.0.by_model@;
    let t = counts::rows(rows);
    assert(t.len() == rows.len());
    assert forall|k: int| 0 <= k < rows.len() implies (#[trigger] t[k]) == (
        rows[k].model@,
        rows[k].counts@,
    ) by {}
    if 0 <= i < rows.len() {
        counts::law_row_holds_counts(t, i);
        assert(t[i].0 == rows[i].model@);
        assert(counts::listed(t, t[i].0));
        assert(counts::counts_of(t, t[i].0) == usage::model_tally(us, t[i].0));
    }
    if 0 <= i < j < rows.len() {
        assert(order::text_less(t[i].0, t[j].0));
    }
    if 0 <= i < us.len() && us[i].model is Some {
        let name = us[i].model->0;
        assert(usage::model_used(us, name));
        assert(counts::listed(t, name));
        let k = choose|k: int| 0 <= k < t.len() && (#[trigger] t[k]).0 == name;
        assert(rows[k].model@ == name);
    }
}

/// A log is what its stream unpacks to, read in parts of 8192 bytes.
pub proof fn law_file(
    r: Option<Result<(FileAgg, Option<String>), String>>,
    data: Seq<u8>,
)
    requires
        usage::file_outcome(r, data),
    ensures
        ({
            let s = usage_log::zstd_stream(data, 8192);
            match usage_log::stream_read(s.0, s.1) {
                Err(e) => r is Some && r->0 is Err && r->0->Err_0@ == e,
                Ok(ls) => {
                    let sum = usage::tally(usage::used(ls));
                    let fits = sum.input <= u64::MAX && sum.output <= u64::MAX && sum.cache_read
                        <= u64::MAX && sum.reasoning <= u64::MAX && sum.calls <= u64::MAX;
                    &&& r is None <==> !fits
                    &&& r is Some ==> r->0 is Ok && r->0->Ok_0.0.counts@ == sum
                        && usage_log::text_view(r->0->Ok_0.1) == usage::first_cwd(ls)
                },
            }
        }),
{
}

proof fn lemma_ended_part(a: Seq<u8>, b: Seq<u8>)
    requires
        forall|i: int| 0 <= i < b.len() ==> #[trigger] b[i] != 10,
        a.len() == 0 || a.last() == 10,
    ensures
        usage_log::ended_part(a + b) == a,
    decreases b.len(),
{
    if b.len() == 0 {
        assert(a + b == a);
    } else {
        let c = b.drop_last();
        assert forall|i: int| 0 <= i < c.len() implies #[trigger] c[i] != 10 by {
            assert(c[i] == b[i]);
        }
        lemma_ended_part(a, c);
        assert((a + b).drop_last() == a + c);
        assert((a + b).last() == b[b.len() - 1]);
    }
}

/// Of a stream that breaks off, the whole lines in front of the break are looked at: where they
/// are text, its error is that of the stream.
pub proof fn law_broken_stream(a: Seq<u8>, b: Seq<u8>, e: Seq<char>, i: int, t: String)
    requires
        forall|i: int| 0 <= i < b.len() ==> #[trigger] b[i] != 10,
        a.len() == 0 || a.last() == 10,
    ensures
        ({
            let ls = usage_log::byte_lines(a);
            let r = usage_log::stream_read(a + b, Some(e));
            &&& r is Err
            &&& (forall|k: int| 0 <= k < ls.len() ==> vstd::utf8::valid_utf8(#[trigger] ls[k]))
                ==> r->Err_0 == e
            &&& 0 <= i < ls.len() && !vstd::utf8::valid_utf8(ls[i]) ==> r->Err_0
                == "stream did not contain valid UTF-8"@
        }),
        usage_log::log_read(Unpacked::NotStarted(t)) == Err::<Seq<LineView>, Seq<char>>(
            "zstd 解压失败: "@ + t@,
        ),
{
    lemma_ended_part(a, b);
}

/// The sums fit exactly where each of them and their sum is a number of 64 bits; a report is
/// made exactly then.
pub proof fn law_sessions(
    dir: &str,
    is_dir: bool,
    ss: &Vec<SessionScan>,
    r: Option<UsageReport>,
)
    requires
        forall|i: int| 0 <= i < ss.len() ==> (#[trigger] ss@[i]).wf(),
        call_ensures(usage_report::scan_sessions, (dir, is_dir, ss), r),
    ensures
        ({
            let sum = usage_report::scans_sum(ss@);
            let fits = sum.calls <= u64::MAX && sum.input + sum.output + sum.cache_read
                + sum.reasoning <= u64::MAX;
            &&& is_dir ==> (r is Some <==> fits)
            &&& is_dir && r is Some ==> {
                let t = r->0.total;
                &&& t.input == sum.input
                &&& t.output == sum.output
                &&& t.cache_read == sum.cache_read
                &&& t.reasoning == sum.reasoning
                &&& t.total == sum.input + sum.output + sum.cache_read + sum.reasoning
                &&& r->0.session_count == ss.len()
                &&& r->0.scanned_files == ss.len()
                &&& r->0.errors.len() == usage_report::errors_of(ss@).len()
                &&& forall|i: int|
                    0 <= i < r->0.errors.len() ==> (#[trigger] r->0.errors@[i])@
                        == usage_report::errors_of(ss@)[i]
            }
            &&& !is_dir ==> {
                &&& r is Some
                &&& r->0.total.total == 0
                &&& r->0.by_model.len() == 0
                &&& r->0.by_session.len() == 0
                &&& r->0.session_count == 0
                &&& r->0.errors.len() == 1
                &&& r->0.errors@[0]@ == "未找到会话目录: "@ + dir@
            }
        }),
{
    if r is Some {
        let x = r->0;
        let es = x.errors@.map_values(|e: String| e@);
        assert(es.len() == x.errors.len());
        if !is_dir {
            let none = Seq::<SessionScan>::empty();
            let want = seq![usage_report::no_sessions_text(dir@)];
            assert(usage_report::reports(x, none, want));
            report_laws::law_rows(x, none, want);
            assert(es == want);
            assert(es[0] == x.errors@[0]@);
            assert(usage_report::session_views(x.by_session@).len() == x.by_session.len());
            assert(counts::rows(x.by_model@).len() == x.by_model.len());
            let t = counts::rows(x.models@);
            assert(t.len() == x.models.len());
            assert(t.len() == 0) by {
                if t.len() > 0 {
                    assert(counts::listed(t, t[0].0));
                    assert(usage_report::scans_list(none, t[0].0));
                }
            }
        } else {
            assert(usage_report::reports(x, ss@, usage_report::errors_of(ss@)));
            assert forall|i: int| 0 <= i < x.errors.len() implies (#[trigger] x.errors@[i])@
                == usage_report::errors_of(ss@)[i] by {
                assert(es[i] == x.errors@[i]@);
            }
        }
    }
}

/// Rows with as many tokens keep the order of the models' names, and the sessions the order in
/// which they were read.
pub proof fn law_ties(
    r: UsageReport,
    ss: Seq<SessionScan>,
    errors: Seq<Seq<char>>,
    i: int,
    j: int,
)
    requires
        usage_report::reports(r, ss, errors),
        0 <= i < j,
    ensures
        j < r.models.len() ==> order::text_less(r.models@[i].model@, r.models@[j].model@),
        j < r.by_model.len() ==> {
            let a = r.by_model@[i].counts;
            let b = r.by_model@[j].counts;
            a.input + a.output + a.cache_read + a.reasoning == b.input + b.output + b.cache_read
                + b.reasoning ==> order::text_less(r.by_model@[i].model@, r.by_model@[j].model@)
        },
        j < r.by_session.len() ==> {
            let all = usage_report::sessions_of(ss);
            let x = r.by_session@[i];
            let y = r.by_session@[j];
            let a = x.counts;
            let b = y.counts;
            exists|k: int, n: int|
                #![trigger all[k], all[n]]
                0 <= k < all.len() && 0 <= n < all.len() && k != n && all[k] == (
                    x.workspace@,
                    x.session_id@,
                    x.counts@,
                ) && all[n] == (y.workspace@, y.session_id@, y.counts@) && (a.input + a.output
                    + a.cache_read + a.reasoning == b.input + b.output + b.cache_read + b.reasoning
                    ==> k < n)
        },
{
    let t = counts::rows(r.models@);
    let m = counts::rows(r.by_model@);
    assert(t.len() == r.models.len() && m.len() == r.by_model.len());
    if j < t.len() {
        assert(t[i].0 == r.models@[i].model@ && t[j].0 == r.models@[j].model@);
        assert(order::text_less(t[i].0, t[j].0));
    }
    if j < m.len() {
        let mt = usage_report::row_tokens(m);
        let tt = usage_report::row_tokens(t);
        let o = choose|o: Seq<usize>|
            #[trigger] usage_report::most_first(mt, tt, o) && forall|i: int|
                0 <= i < m.len() ==> #[trigger] m[i] == t[o[i] as int];
        assert(mt.len() == m.len() && tt.len() == t.len());
        assert(mt[i] == counts::all_tokens(m[i].1) && mt[j] == counts::all_tokens(m[j].1));
        assert(m[i] == (r.by_model@[i].model@, r.by_model@[i].counts@));
        assert(m[j] == (r.by_model@[j].model@, r.by_model@[j].counts@));
        if mt[i] == mt[j] {
            assert(order::text_less(t[o[i] as int].0, t[o[j] as int].0));
        }
    }
    let v = usage_report::session_views(r.by_session@);
    assert(v.len() == r.by_session.len());
    if j < v.len() {
        let all = usage_report::sessions_of(ss);
        let vt = usage_report::session_tokens(v);
        let at = usage_report::session_tokens(all);
        let o = choose|o: Seq<usize>|
            #[trigger] usage_report::most_first(vt, at, o) && forall|i: int|
                0 <= i < v.len() ==> #[trigger] v[i] == all[o[i] as int];
        assert(vt.len() == v.len() && at.len() == all.len());
        assert(vt[i] == counts::all_tokens(v[i].2) && vt[j] == counts::all_tokens(v[j].2));
        let x = r.by_session@[i];
        let y = r.by_session@[j];
        assert(v[i] == (x.workspace@, x.session_id@, x.counts@));
        assert(v[j] == (y.workspace@, y.session_id@, y.counts@));
        let k = o[i] as int;
        let n = o[j] as int;
        assert(o[i] != o[j]);
        assert(all[k] == v[i] && all[n] == v[j]);
    }
}

/// A row of the report holds the counts of its model over all sessions, and every model that a
/// session used has a row.
pub proof fn law_model_rows(
    r: UsageReport,
    ss: Seq<SessionScan>,
    errors: Seq<Seq<char>>,
    i: int,
    s: int,
    k: int,
)
    requires
        usage_report::reports(r, ss, errors),
    ensures
        0 <= i < r.by_model.len() ==> r.by_model@[i].counts@ == usage_report::scans_model(
            ss,
            r.by_model@[i].model@,
        ),
        0 <= s < ss.len() && ss[s].result is Ok && 0 <= k < ss[s].result->Ok_0.0.by_model.len()
            ==> exists|n: int|
            0 <= n < r.by_model.len() && (#[trigger] r.by_model@[n]).model@
                == ss[s].result->Ok_0.0.by_model@[k].model@,
{
    let t = counts::rows(r.models@);
    let m = counts::rows(r.by_model@);
    assert(t.len() == r.models.len() && m.len() == r.by_model.len());
    let o = choose|o: Seq<usize>|
        #[trigger] usage_report::most_first(
            usage_report::row_tokens(m),
            usage_report::row_tokens(t),
            o,
        ) && forall|i: int| 0 <= i < m.len() ==> #[trigger] m[i] == t[o[i] as int];
    assert(usage_report::row_tokens(m).len() == m.len());
    assert(usage_report::row_tokens(t).len() == t.len());
    if 0 <= i < m.len() {
        let p = o[i] as int;
        assert(m[i] == (r.by_model@[i].model@, r.by_model@[i].counts@));
        assert(m[i] == t[p]);
        counts::law_row_holds_counts(t, p);
        assert(counts::counts_of(t, t[p].0) == usage_report::scans_model(ss, t[p].0));
    }
    if 0 <= s < ss.len() && ss[s].result is Ok && 0 <= k < ss[s].result->Ok_0.0.by_model.len() {
        let name = ss[s].result->Ok_0.0.by_model@[k].model@;
        let rows = usage_report::scan_rows(ss[s]);
        assert(rows[k].0 == name);
        assert(counts::listed(rows, name));
        lemma_listed(ss, s, name);
        assert(counts::listed(t, name));
        let p = choose|p: int| 0 <= p < t.len() && (#[trigger] t[p]).0 == name;
        let n = lemma_each_position(o, t.len() as int, p);
        assert(m[n] == t[o[n] as int]);
        assert(m[n] == (r.by_model@[n].model@, r.by_model@[n].counts@));
        assert(r.by_model@[n].model@ == name);
    }
}

proof fn lemma_listed(ss: Seq<SessionScan>, s: int, name: Seq<char>)
    requires
        0 <= s < ss.len(),
        counts::listed(usage_report::scan_rows(ss[s]), name),
    ensures
        usage_report::scans_list(ss, name),
    decreases ss.len(),
{
    if s < ss.len() - 1 {
        lemma_listed(ss.drop_last(), s, name);
    }
}

/// Positions that are all different, as many as there are, take each place.
proof fn lemma_each_position(o: Seq<usize>, n: int, p: int) -> (i: int)
    requires
        order::each_once(o, n as nat),
        0 <= p < n,
    ensures
        0 <= i < n,
        o[i] == p,
{
    let q = o.map_values(|x: usize| x as int);
    assert(q.no_duplicates()) by {
        assert forall|i: int, j: int| 0 <= i < q.len() && 0 <= j < q.len() && i != j implies q[i]
            != q[j] by {
            assert(o[i] != o[j]);
        }
    }
    let a = q.to_set();
    let b = vstd::set_lib::set_int_range(0, n);
    q.unique_seq_to_set();
    vstd::set_lib::lemma_int_range(0, n);
    assert(a.subset_of(b)) by {
        assert forall|x: int| a.contains(x) implies b.contains(x) by {
            let i = choose|i: int| 0 <= i < q.len() && q[i] == x;
            assert(o[i] < n);
        }
    }
    vstd::set_lib::lemma_subset_equality(a, b);
    assert(a.contains(p));
    let i = choose|i: int| 0 <= i < q.len() && q[i] == p;
    assert(o[i] == p);
    i
}

/// Adding up counts adds up each of them.
pub proof fn law_plus(a: CountsView, b: CountsView)
    ensures
        counts::plus(a, b).input == a.input + b.input,
        counts::plus(a, b).output == a.output + b.output,
        counts::plus(a, b).cache_read == a.cache_read + b.cache_read,
        counts::plus(a, b).reasoning == a.reasoning + b.reasoning,
        counts::plus(a, b).calls == a.calls + b.calls,
        counts::all_tokens(a) == a.input + a.output + a.cache_read + a.reasoning,
        counts::zero().input == 0 && counts::zero().output == 0 && counts::zero().cache_read == 0
            && counts::zero().reasoning == 0 && counts::zero().calls == 0,
{
}

} // verus!
