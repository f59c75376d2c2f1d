//! What a report of usage promises, in terms of the sessions and of its own rows.

use vstd::prelude::*;

use crate::counts;
use crate::counts::CountsView;
use crate::json;
use crate::json::JsonView;
use crate::text;
use crate::usage;
use crate::usage_log;
use crate::usage_log::LineView;
use crate::usage_log::UsageView;
use crate::usage_report;
use crate::usage_report::SessionScan;
use crate::usage_report::UsageReport;

verus! {

/// The total of a report is its input, output, cache and reasoning tokens together. Of two
/// models, and of two sessions, the one with more of these four together comes first.
pub proof fn law_total_and_order(
    r: UsageReport,
    ss: Seq<SessionScan>,
    errors: Seq<Seq<char>>,
    i: int,
    j: int,
)
    requires
        usage_report::reports(r, ss, errors),
        0 <= i < j,
    ensures
        r.total.total == r.total.input + r.total.output + r.total.cache_read + r.total.reasoning,
        j < r.by_model.len() ==> {
            let a = r.by_model@[i].counts;
            let b = r.by_model@[j].counts;
            a.input + a.output + a.cache_read + a.reasoning >= b.input + b.output + b.cache_read
                + b.reasoning
        },
        j < r.by_session.len() ==> {
            let a = r.by_session@[i].counts;
            let b = r.by_session@[j].counts;
            a.input + a.output + a.cache_read + a.reasoning >= b.input + b.output + b.cache_read
                + b.reasoning
        },
{
    let t = counts::rows(r.models@);
    let m = counts::rows(r.by_model@);
    let s = usage_report::session_views(r.by_session@);
    if j < r.by_model.len() {
        let o = choose|o: Seq<usize>|
            #[trigger] usage_report::most_first(
                usage_report::row_tokens(m),
                usage_report::row_tokens(t),
                o,
            ) && forall|i: int| 0 <= i < m.len() ==> #[trigger] m[i] == t[o[i] as int];
        let x = usage_report::row_tokens(m);
        assert(x[i] >= x[j]);
        assert(m[i].1 == r.by_model@[i].counts@);
        assert(m[j].1 == r.by_model@[j].counts@);
        assert(x[i] == counts::all_tokens(m[i].1));
        assert(x[j] == counts::all_tokens(m[j].1));
    }
    if j < r.by_session.len() {
        let all = usage_report::sessions_of(ss);
        let o = choose|o: Seq<usize>|
            #[trigger] usage_report::most_first(
                usage_report::session_tokens(s),
                usage_report::session_tokens(all),
                o,
            ) && forall|i: int| 0 <= i < s.len() ==> #[trigger] s[i] == all[o[i] as int];
        let x = usage_report::session_tokens(s);
        assert(x[i] >= x[j]);
        assert(s[i].2 == r.by_session@[i].counts@);
        assert(s[j].2 == r.by_session@[j].counts@);
        assert(x[i] == counts::all_tokens(s[i].2));
        assert(x[j] == counts::all_tokens(s[j].2));
    }
}

/// A report has a session for each log that could be read and an error for each other; no
/// model is in it twice; and it counts all logs.
pub proof fn law_rows(r: UsageReport, ss: Seq<SessionScan>, errors: Seq<Seq<char>>)
    requires
        usage_report::reports(r, ss, errors),
    ensures
        r.session_count == ss.len(),
        r.scanned_files == ss.len(),
        r.errors.len() == errors.len(),
        r.by_session.len() + usage_report::errors_of(ss).len() == ss.len(),
        r.by_model.len() == r.models.len(),
        forall|i: int, j: int|
            0 <= i < j < r.by_model.len() ==> (#[trigger] r.by_model@[i]).model@ != (
            #[trigger] r.by_model@[j]).model@,
{
    let t = counts::rows(r.models@);
    let m = counts::rows(r.by_model@);
    let s = usage_report::session_views(r.by_session@);
    let all = usage_report::sessions_of(ss);
    assert(errors.len() == r.errors@.map_values(|e: String| e@).len());
    let p = choose|o: Seq<usize>|
        #[trigger] usage_report::most_first(
            usage_report::session_tokens(s),
            usage_report::session_tokens(all),
            o,
        ) && forall|i: int| 0 <= i < s.len() ==> #[trigger] s[i] == all[o[i] as int];
    assert(usage_report::session_tokens(s).len() == s.len());
    assert(usage_report::session_tokens(all).len() == all.len());
    lemma_sessions_and_errors(ss);
    let o = choose|o: Seq<usize>|
        #[trigger] usage_report::most_first(
            usage_report::row_tokens(m),
            usage_report::row_tokens(t),
            o,
        ) && forall|i: int| 0 <= i < m.len() ==> #[trigger] m[i] == t[o[i] as int];
    assert(usage_report::row_tokens(m).len() == m.len());
    assert(usage_report::row_tokens(t).len() == t.len());
    assert forall|i: int, j: int| 0 <= i < j < r.by_model.len() implies (
    #[trigger] r.by_model@[i]).model@ != (#[trigger] r.by_model@[j]).model@ by {
        assert(m[i].0 == r.by_model@[i].model@);
        assert(m[j].0 == r.by_model@[j].model@);
        let a = o[i] as int;
        let b = o[j] as int;
        assert(o[i] != o[j]);
        assert(m[i] == t[a] && m[j] == t[b]);
        crate::order::lemma_text_less_irreflexive(t[a].0);
        if a < b {
            assert(crate::order::text_less(t[a].0, t[b].0));
        } else {
            assert(crate::order::text_less(t[b].0, t[a].0));
        }
    }
}

proof fn lemma_sessions_and_errors(ss: Seq<SessionScan>)
    ensures
        usage_report::sessions_of(ss).len() + usage_report::errors_of(ss).len() == ss.len(),
    decreases ss.len(),
{
    if ss.len() > 0 {
        lemma_sessions_and_errors(ss.drop_last());
    }
}

/// One more log that was read adds its tokens of each kind and its calls to the totals and to
/// those of its models, and one session under the place where it runs, or under its
/// directory where the log names none; one that could not be read adds one error with its
/// path and the reason, and nothing else.
pub proof fn law_one_more_session(ss: Seq<SessionScan>, s: SessionScan, name: Seq<char>)
    ensures
        ({
            let all = ss.push(s);
            let was = usage_report::scans_sum(ss);
            let sum = usage_report::scans_sum(all);
            let had = usage_report::scans_model(ss, name);
            let has = usage_report::scans_model(all, name);
            match s.result {
                Ok(x) => {
                    let c = x.0.counts;
                    let m = counts::counts_of(counts::rows(x.0.by_model@), name);
                    &&& sum.input == was.input + c.input
                    &&& sum.output == was.output + c.output
                    &&& sum.cache_read == was.cache_read + c.cache_read
                    &&& sum.reasoning == was.reasoning + c.reasoning
                    &&& sum.calls == was.calls + c.calls
                    &&& has.input == had.input + m.input
                    &&& has.output == had.output + m.output
                    &&& has.cache_read == had.cache_read + m.cache_read
                    &&& has.reasoning == had.reasoning + m.reasoning
                    &&& has.calls == had.calls + m.calls
                    &&& usage_report::sessions_of(all).len() == usage_report::sessions_of(ss).len()
                        + 1
                    &&& usage_report::sessions_of(all).last().1 == s.session_id@
                    &&& usage_report::sessions_of(all).last().2 == c@
                    &&& x.1 is Some ==> usage_report::sessions_of(all).last().0 == x.1->0@
                    &&& x.1 is None ==> usage_report::sessions_of(all).last().0 == s.slug@
                    &&& usage_report::errors_of(all) == usage_report::errors_of(ss)
                },
                Err(e) => {
                    &&& sum == was
                    &&& has == had
                    &&& usage_report::sessions_of(all) == usage_report::sessions_of(ss)
                    &&& usage_report::errors_of(all) == usage_report::errors_of(ss).push(
                        s.path@ + ": "@ + e@,
                    )
                },
            }
        }),
        usage_report::sessions_of(ss.push(s)).take(
            usage_report::sessions_of(ss).len() as int,
        ) == usage_report::sessions_of(ss),
{
    let all = ss.push(s);
    assert(all.drop_last() == ss);
    assert(all.last() == s);
    assert(usage_report::sessions_of(all).take(usage_report::sessions_of(ss).len() as int)
        == usage_report::sessions_of(ss));
    if s.result is Err {
        assert(counts::counts_of(usage_report::scan_rows(s), name) == counts::zero());
    }
}

/// One more line of a log counts where it is a final message of the assistant that says what
/// it used: one call, and its tokens of each kind, in all and of its model. Any other line
/// counts nothing. The first line that names a place decides where the session runs.
pub proof fn law_one_more_line(ls: Seq<LineView>, l: LineView, name: Seq<char>)
    ensures
        ({
            let was = usage::tally(usage::used(ls));
            let now = usage::tally(usage::used(ls.push(l)));
            let had = usage::model_tally(usage::used(ls), name);
            let has = usage::model_tally(usage::used(ls.push(l)), name);
            match l.usage {
                Some(u) => {
                    &&& now.input == was.input + u.counts.input
                    &&& now.output == was.output + u.counts.output
                    &&& now.cache_read == was.cache_read + u.counts.cache_read
                    &&& now.reasoning == was.reasoning + u.counts.reasoning
                    &&& now.calls == was.calls + u.counts.calls
                    &&& u.model == Some(name) ==> has.input == had.input + u.counts.input
                        && has.output == had.output + u.counts.output && has.cache_read
                        == had.cache_read + u.counts.cache_read && has.reasoning == had.reasoning
                        + u.counts.reasoning && has.calls == had.calls + u.counts.calls
                    &&& u.model != Some(name) ==> has == had
                },
                None => now == was && has == had,
            }
        }),
        usage::first_cwd(ls) is Some ==> usage::first_cwd(ls.push(l)) == usage::first_cwd(ls),
        usage::first_cwd(ls) is None ==> usage::first_cwd(ls.push(l)) == l.cwd,
{
    let all = ls.push(l);
    assert(all.drop_last() == ls);
    assert(all.last() == l);
    if l.usage is Some {
        let us = usage::used(ls);
        assert(us.push(l.usage->0).drop_last() == us);
    }
    lemma_first_cwd(ls, l);
}

proof fn lemma_first_cwd(ls: Seq<LineView>, l: LineView)
    ensures
        usage::first_cwd(ls.push(l)) == (if usage::first_cwd(ls) is Some {
            usage::first_cwd(ls)
        } else {
            l.cwd
        }),
    decreases ls.len(),
{
    let all = ls.push(l);
    if ls.len() == 0 {
        assert(all[0] == l);
        assert(all.skip(1).len() == 0);
        assert(usage::first_cwd(all.skip(1)) is None);
    } else {
        assert(all[0] == ls[0]);
        assert(all.skip(1) == ls.skip(1).push(l));
        lemma_first_cwd(ls.skip(1), l);
    }
}

/// What stands under a key of an object.
pub open spec fn under(v: JsonView, key: Seq<char>, x: JsonView) -> bool {
    v matches JsonView::Object(es) && exists|i: int|
        0 <= i < es.len() && (#[trigger] es[i]) == (key, x) && forall|j: int|
            0 <= j < i ==> (#[trigger] es[j]).0 != key
}

/// Nothing stands under the key.
pub open spec fn nothing_under(v: JsonView, key: Seq<char>) -> bool {
    v matches JsonView::Object(es) ==> forall|i: int|
        0 <= i < es.len() ==> (#[trigger] es[i]).0 != key
}

/// A key of an object gives what stands under it, the first where there are several.
pub proof fn law_field(v: JsonView, key: Seq<char>, x: JsonView)
    ensures
        under(v, key, x) ==> json::field(v, key) == Some(x),
        nothing_under(v, key) ==> json::field(v, key) is None,
{
    if let JsonView::Object(es) = v {
        lemma_entry_at(es, key);
        if under(v, key, x) {
            let i = choose|i: int|
                0 <= i < es.len() && (#[trigger] es[i]) == (key, x) && forall|j: int|
                    0 <= j < i ==> (#[trigger] es[j]).0 != key;
            let n = json::entry_at(es, key);
            if n < i {
                assert(es[n].0 == key);
            }
        }
    }
}

/// A value is read only as what it is.
pub proof fn law_kinds(v: JsonView)
    ensures
        json::str_of(Some(v)) is Some <==> v is Str,
        v matches JsonView::Str(s) ==> json::str_of(Some(v)) == Some(s),
        json::bool_of(Some(v)) is Some <==> v is Bool,
        v matches JsonView::Bool(b) ==> json::bool_of(Some(v)) == Some(b),
        json::u64_of(Some(v)) is Some <==> v is Number && v->Number_0 is Some,
        v matches JsonView::Number(n, _) ==> json::u64_of(Some(v)) == n,
        json::items_of(Some(v)) is Some <==> v is Array,
        v matches JsonView::Array(a) ==> json::items_of(Some(v)) == Some(a),
        json::first_of(Some(v)) is Some <==> v is Array && v->Array_0.len() > 0,
        v matches JsonView::Array(a) ==> (a.len() > 0 ==> json::first_of(Some(v)) == Some(a[0])),
        json::str_of(None) is None && json::bool_of(None) is None && json::u64_of(None) is None
            && json::items_of(None) is None && json::first_of(None) is None,
{
}

proof fn lemma_entry_at(es: Seq<(Seq<char>, JsonView)>, key: Seq<char>)
    ensures
        0 <= json::entry_at(es, key) <= es.len(),
        json::entry_at(es, key) < es.len() ==> es[json::entry_at(es, key)].0 == key,
        forall|i: int| 0 <= i < json::entry_at(es, key) ==> (#[trigger] es[i]).0 != key,
    decreases es.len(),
{
    if es.len() > 0 && es[0].0 != key {
        let rest = es.skip(1);
        lemma_entry_at(rest, key);
        assert forall|i: int| 0 <= i < json::entry_at(es, key) implies (#[trigger] es[i]).0
            != key by {
            if i > 0 {
                assert(es[i] == rest[i - 1]);
            }
        }
    }
}

/// The count under a key: a whole number that fits, else 0.
pub open spec fn gives(usage: JsonView, key: Seq<char>, n: nat) -> bool {
    ||| exists|x: JsonView|
        #[trigger] under(usage, key, x) && (match x {
            JsonView::Number(Some(k), _) => n == k,
            _ => n == 0,
        })
    ||| nothing_under(usage, key) && n == 0
}

/// A line of the type "assistant/message" whose data say what was used is one call, with the
/// tokens given under "inputTokens", "outputTokens", "cacheReadTokens" and
/// "reasoningTokens". It is of the model that the source of its message names.
pub proof fn law_message_line(
    v: JsonView,
    data: JsonView,
    used: JsonView,
    message: JsonView,
    source: JsonView,
    model: Seq<char>,
    input: nat,
    output: nat,
    cache_read: nat,
    reasoning: nat,
)
    requires
        under(v, "type"@, JsonView::Str("assistant/message"@)),
        under(v, "data"@, data),
        under(data, "usage"@, used),
        under(data, "message"@, message),
        under(message, "source"@, source),
        under(source, "model"@, JsonView::Str(model)),
        gives(used, "inputTokens"@, input),
        gives(used, "outputTokens"@, output),
        gives(used, "cacheReadTokens"@, cache_read),
        gives(used, "reasoningTokens"@, reasoning),
    ensures
        usage_log::line_of(v).usage == Some(
            UsageView {
                counts: CountsView { input, output, cache_read, reasoning, calls: 1 },
                model: Some(model),
            },
        ),
{
    law_field(v, "type"@, JsonView::Str("assistant/message"@));
    law_field(v, "data"@, data);
    law_field(data, "usage"@, used);
    law_field(data, "message"@, message);
    law_field(message, "source"@, source);
    law_field(source, "model"@, JsonView::Str(model));
    lemma_gives(used, "inputTokens"@, input);
    lemma_gives(used, "outputTokens"@, output);
    lemma_gives(used, "cacheReadTokens"@, cache_read);
    lemma_gives(used, "reasoningTokens"@, reasoning);
}

/// An answer that does not name its model counts, without one.
pub proof fn law_unnamed_model(
    v: JsonView,
    data: JsonView,
    used: JsonView,
    message: JsonView,
    source: JsonView,
)
    requires
        under(v, "type"@, JsonView::Str("assistant/message"@)),
        under(v, "data"@, data),
        under(data, "usage"@, used),
        nothing_under(data, "message"@) || (under(data, "message"@, message) && (nothing_under(
            message,
            "source"@,
        ) || (under(message, "source"@, source) && nothing_under(source, "model"@)))),
    ensures
        usage_log::line_of(v).usage is Some,
        usage_log::line_of(v).usage->0.model is None,
        usage_log::line_of(v).usage->0.counts.calls == 1,
{
    law_field(v, "type"@, JsonView::Str("assistant/message"@));
    law_field(v, "data"@, data);
    law_field(data, "usage"@, used);
    law_field(data, "message"@, message);
    law_field(message, "source"@, source);
    law_field(source, "model"@, JsonView::Null);
}

proof fn lemma_gives(used: JsonView, key: Seq<char>, n: nat)
    requires
        gives(used, key, n),
    ensures
        usage_log::token_count(used, key) == n,
{
    if nothing_under(used, key) && n == 0 {
        law_field(used, key, JsonView::Null);
    } else {
        let x = choose|x: JsonView|
            #[trigger] under(used, key, x) && (match x {
                JsonView::Number(Some(k), _) => n == k,
                _ => n == 0,
            });
        law_field(used, key, x);
    }
}

/// A line of another type, such as a chunk of a message, counts nothing, and neither does a
/// message that does not say what it used. Where the line names a place as text under "cwd",
/// that is the place it gives, whatever its type.
pub proof fn law_other_line(v: JsonView, kind: Seq<char>, data: JsonView, cwd: Seq<char>)
    ensures
        under(v, "type"@, JsonView::Str(kind)) && kind != "assistant/message"@
            ==> usage_log::line_of(v).usage is None,
        nothing_under(v, "type"@) ==> usage_log::line_of(v).usage is None,
        under(v, "data"@, data) && nothing_under(data, "usage"@) ==> usage_log::line_of(
            v,
        ).usage is None,
        nothing_under(v, "data"@) ==> usage_log::line_of(v).usage is None,
        under(v, "cwd"@, JsonView::Str(cwd)) ==> usage_log::line_of(v).cwd == Some(cwd),
        nothing_under(v, "cwd"@) ==> usage_log::line_of(v).cwd is None,
{
    law_field(v, "type"@, JsonView::Str(kind));
    law_field(v, "data"@, data);
    law_field(data, "usage"@, JsonView::Null);
    law_field(v, "cwd"@, JsonView::Str(cwd));
}

/// The lines of a log are what stands between its line breaks, each without the carriage
/// return in front of its line break.
pub proof fn law_log_lines(a: Seq<u8>, b: Seq<u8>)
    requires
        forall|i: int| 0 <= i < a.len() ==> #[trigger] a[i] != 10,
    ensures
        usage_log::byte_lines(a.push(10) + b) == seq![
            if a.len() > 0 && a.last() == 13 {
                a.drop_last()
            } else {
                a
            },
        ] + usage_log::byte_lines(b),
        a.len() > 0 ==> usage_log::byte_lines(a) == seq![a],
        usage_log::byte_lines(Seq::<u8>::empty()) == Seq::<Seq<u8>>::empty(),
{
    let s = a.push(10) + b;
    lemma_break(a, b);
    usage_log::lemma_break_at(s);
    assert(s.take(a.len() as int) == a);
    assert(s.skip(a.len() as int + 1) == b);
    lemma_no_break(a);
}

proof fn lemma_break(a: Seq<u8>, b: Seq<u8>)
    requires
        forall|i: int| 0 <= i < a.len() ==> #[trigger] a[i] != 10,
    ensures
        usage_log::break_at(a.push(10) + b) == a.len(),
    decreases a.len(),
{
    let s = a.push(10) + b;
    if a.len() > 0 {
        let r = a.skip(1);
        assert forall|i: int| 0 <= i < r.len() implies #[trigger] r[i] != 10 by {
            assert(r[i] == a[i + 1]);
        }
        lemma_break(r, b);
        assert(s[0] == a[0]);
        assert(s.skip(1) == r.push(10) + b);
    }
}

proof fn lemma_no_break(a: Seq<u8>)
    requires
        forall|i: int| 0 <= i < a.len() ==> #[trigger] a[i] != 10,
    ensures
        usage_log::break_at(a) == a.len(),
    decreases a.len(),
{
    if a.len() > 0 {
        let r = a.skip(1);
        assert forall|i: int| 0 <= i < r.len() implies #[trigger] r[i] != 10 by {
            assert(r[i] == a[i + 1]);
        }
        lemma_no_break(r);
    }
}

/// A line of a log that is JSON says what it holds; a blank one, and one that is no JSON,
/// says nothing and does not keep the others from being read.
pub proof fn law_log_line(ls: Seq<Seq<u8>>, l: Seq<u8>)
    ensures
        ({
            let t = vstd::utf8::decode_utf8(l);
            &&& json::json_text(t) is None || text::blank(t) ==> usage_log::log_of(ls.push(l))
                == usage_log::log_of(ls)
            &&& json::json_text(t) is Some && !text::blank(t) ==> usage_log::log_of(ls.push(l))
                == usage_log::log_of(ls).push(usage_log::line_of(json::json_text(t)->0))
        }),
{
    assert(ls.push(l).drop_last() == ls);
    assert(ls.push(l).last() == l);
}

/// A log whose lines are all valid UTF-8 is read where its stream ends; where the stream
/// fails, the reason is told. One line that is not valid UTF-8 makes the log unreadable.
pub proof fn law_log_read(out: Seq<u8>, e: Seq<char>, i: int)
    ensures
        ({
            let ls = usage_log::byte_lines(out);
            &&& (forall|k: int| 0 <= k < ls.len() ==> vstd::utf8::valid_utf8(#[trigger] ls[k]))
                ==> usage_log::stream_read(out, None) == Ok::<Seq<LineView>, Seq<char>>(
                usage_log::log_of(ls),
            )
            &&& 0 <= i < ls.len() && !vstd::utf8::valid_utf8(ls[i])
                ==> usage_log::stream_read(out, None) == Err::<Seq<LineView>, Seq<char>>(
                "stream did not contain valid UTF-8"@,
            )
            &&& usage_log::stream_read(out, Some(e)) is Err
        }),
{
}

} // verus!
