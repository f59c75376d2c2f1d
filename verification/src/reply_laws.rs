//! What is made of the gateway's replies: what curl wrote, and the models in it.

use vstd::prelude::*;

use crate::gateway;
use crate::gateway::CurlOutcome;
use crate::gateway::Request;
use crate::json;
use crate::json::JsonReply;
use crate::json::JsonView;
use crate::outside_text;
use crate::report_laws;
use crate::text;
use crate::text_laws;

verus! {

/// The chars are all digits.
pub open spec fn digits(d: Seq<char>) -> bool {
    d.len() > 0 && forall|i: int| 0 <= i < d.len() ==> '0' <= #[trigger] d[i] <= '9'
}

proof fn lemma_parts(body: Seq<char>, d: Seq<char>, success: bool)
    requires
        digits(d),
    ensures
        gateway::curl_parts(body + "\n__HTTP__"@ + d, success) == (
            match text::parsed_number(d, u32::MAX as nat) {
                Some(n) => n,
                None => 0,
            },
            body,
        ),
{
    reveal_strlit("\n__HTTP__");
    let p = "\n__HTTP__"@;
    let raw = body + p + d;
    let i = body.len() as int;
    assert(raw.subrange(i, i + 9) == p);
    assert(text::occurs_at(raw, p, i));
    assert forall|j: int| i < j implies !text::occurs_at(raw, p, j) by {
        if text::occurs_at(raw, p, j) {
            assert(raw.subrange(j, j + 9)[0] == p[0]);
            assert(raw[j] == '\n');
            if j < i + 9 {
                assert(raw[j] == p[j - i]);
            } else {
                assert(raw[j] == d[j - i - 9]);
            }
        }
    }
    gateway::lemma_last_before(raw, p, raw.len() as int + 1, i);
    assert(raw.skip(i + 9) == d);
    assert(raw.take(i) == body);
    let none = Seq::<char>::empty();
    assert(none + d + none == d);
    text_laws::law_trimmed(none, d, none);
}

/// The status is the number behind the last marker, and the body is all in front of it.
pub proof fn law_curl_status(body: Seq<char>, code: nat, success: bool)
    requires
        code <= u32::MAX,
    ensures
        gateway::curl_parts(body + "\n__HTTP__"@ + text::decimal(code), success) == (code, body),
        gateway::curl_parts(body + "\n__HTTP__000"@, success) == (0nat, body),
{
    text_laws::lemma_decimal(code);
    text_laws::law_decimal(code, 0, u32::MAX as nat);
    assert(digits(text::decimal(code))) by {
        let d = text::decimal(code);
        assert forall|i: int| 0 <= i < d.len() implies '0' <= #[trigger] d[i] <= '9' by {
            assert(text::is_digit(d[i]));
        }
    }
    lemma_parts(body, text::decimal(code), success);
    reveal_strlit("\n__HTTP__000");
    reveal_strlit("\n__HTTP__");
    let z = seq!['0', '0', '0'];
    assert(body + "\n__HTTP__000"@ =~= body + "\n__HTTP__"@ + z);
    lemma_parts(body, z, success);
    assert(text::all_digits(z));
    assert(z.drop_last() =~= seq!['0', '0']);
    assert(seq!['0', '0'].drop_last() =~= seq!['0']);
    assert(seq!['0'].drop_last() =~= Seq::<char>::empty());
    assert(text::digits_value(Seq::<char>::empty()) == 0);
    assert(text::digits_value(seq!['0']) == 0);
    assert(text::digits_value(seq!['0', '0']) == 0);
    assert(text::digits_value(z) == 0);
    assert(text::parsed_number(z, u32::MAX as nat) == Some(0nat));
}

/// Without a marker all is the body, and the status is that of a success or none.
pub proof fn law_curl_unmarked(raw: Seq<char>, success: bool)
    requires
        !text_laws::inside(raw, "\n__HTTP__"@),
    ensures
        gateway::curl_parts(raw, success) == (
            if success {
                200nat
            } else {
                0nat
            },
            raw,
        ),
{
    text_laws::law_found(raw, "\n__HTTP__"@);
    gateway::lemma_none_before(raw, "\n__HTTP__"@, raw.len() as int + 1);
}

/// Curl that cannot be run is an error; a reply with a body or a status is none; and without
/// either it is the complaint that curl wrote, a refused connection under a name of its own.
pub proof fn law_curl(
    o: &CurlOutcome,
    body: Seq<char>,
    code: nat,
    r: Result<JsonReply, String>,
)
    requires
        call_ensures(gateway::curl_json, (o,), r),
        code <= u32::MAX,
    ensures
        o matches CurlOutcome::NotRun(e) ==> r is Err && r->Err_0@ == "无法执行 curl: "@ + e@,
        o matches CurlOutcome::Ran { stdout, stderr, success } ==> {
            let out = outside_text::lossy(stdout@);
            let err = outside_text::lossy(stderr@);
            let low = outside_text::lower(err);
            let refused = text_laws::inside(low, "connection refused"@) || text_laws::inside(
                low,
                "couldn't connect"@,
            ) || text_laws::inside(low, "could not connect"@) || text_laws::inside(
                low,
                "failed to connect"@,
            );
            &&& out == body + "\n__HTTP__"@ + text::decimal(code) && (code > 0 || body.len() > 0
                || *success) ==> {
                &&& r is Ok
                &&& r->Ok_0.status == code
                &&& r->Ok_0.json@ == json::body_json(body)
                &&& r->Ok_0.shown@ == json::json_print(json::body_json(body))
            }
            &&& !*success && (out.len() == 0 || out == "\n__HTTP__000"@) ==> {
                &&& r is Err
                &&& refused ==> r->Err_0@ == "connection_refused"@
                &&& !refused && text::blank(err) ==> r->Err_0@ == "curl 失败"@
                &&& !refused && !text::blank(err) ==> r->Err_0@ == text::trimmed(err)
            }
        },
{
    law_curl_status(body, code, true);
    law_curl_status(body, code, false);
    match o {
        CurlOutcome::NotRun(e) => {},
        CurlOutcome::Ran { stdout, stderr, success } => {
            let out = outside_text::lossy(stdout@);
            let err = outside_text::lossy(stderr@);
            let low = outside_text::lower(err);
            text_laws::law_found(low, "connection refused"@);
            text_laws::law_found(low, "couldn't connect"@);
            text_laws::law_found(low, "could not connect"@);
            text_laws::law_found(low, "failed to connect"@);
            let none = Seq::<char>::empty();
            if !*success && out.len() == 0 {
                reveal_strlit("\n__HTTP__");
                if text_laws::inside(out, "\n__HTTP__"@) {
                    let (a, b) = choose|a: Seq<char>, b: Seq<char>|
                        out == #[trigger] (a + "\n__HTTP__"@ + b);
                }
                law_curl_unmarked(out, false);
            }
            if out == "\n__HTTP__000"@ {
                law_curl_status(none, 0, *success);
                assert(none + "\n__HTTP__000"@ =~= "\n__HTTP__000"@);
            }
        },
    }
}

/// A body without text is nothing, one that is JSON is that, and any other is its text, cut
/// after 400 chars.
pub proof fn law_body(body: Seq<char>)
    ensures
        text::blank(body) ==> json::body_json(body) is Null,
        !text::blank(body) && json::json_text(body) is Some ==> json::body_json(body)
            == json::json_text(body)->0,
        !text::blank(body) && json::json_text(body) is None && body.len() <= 400
            ==> json::body_json(body) == JsonView::Str(body),
        !text::blank(body) && json::json_text(body) is None && body.len() > 400
            ==> json::body_json(body) == JsonView::Str(body.subrange(0, 400)),
{
}

/// Curl is run quietly, with the time that the request has but a second at least, told to put
/// the status behind the body, and with the address last; a question goes with its payload.
pub proof fn law_curl_args(q: &Request, r: Vec<String>)
    requires
        call_ensures(gateway::curl_args, (q,), r),
    ensures
        q matches Request::Get { url, secs } ==> {
            &&& r.len() == 8
            &&& r@[0]@ == "-sS"@
            &&& r@[1]@ == "-m"@
            &&& secs > 0 ==> r@[2]@ == text::decimal(secs as nat)
            &&& secs == 0 ==> r@[2]@ == text::decimal(1)
            &&& r@[3]@ == "-w"@
            &&& r@[4]@ == "\n__HTTP__%{http_code}"@
            &&& r@[5]@ == "-H"@
            &&& r@[6]@ == "Authorization: Bearer dummy"@
            &&& r@[7]@ == url@
        },
        q matches Request::Post { url, payload, secs } ==> {
            &&& r.len() == 14
            &&& r@[0]@ == "-sS"@
            &&& r@[1]@ == "-m"@
            &&& secs > 0 ==> r@[2]@ == text::decimal(secs as nat)
            &&& secs == 0 ==> r@[2]@ == text::decimal(1)
            &&& r@[3]@ == "-w"@
            &&& r@[4]@ == "\n__HTTP__%{http_code}"@
            &&& r@[5]@ == "-X"@
            &&& r@[6]@ == "POST"@
            &&& r@[7]@ == "-H"@
            &&& r@[8]@ == "Authorization: Bearer dummy"@
            &&& r@[9]@ == "-H"@
            &&& r@[10]@ == "Content-Type: application/json"@
            &&& r@[11]@ == "-d"@
            &&& r@[12]@ == payload@
            &&& r@[13]@ == url@
        },
{
    let v = r@.map_values(|s: String| s@);
    assert(v == gateway::curl_args_view(*q));
    assert forall|i: int| 0 <= i < r@.len() implies (#[trigger] r@[i])@ == v[i] by {}
    assert(v.len() == r@.len());
}

/// One row more: a model counts where its id starts with the gateway's prefix and is new, and
/// its name is that of the model behind it, or its id without the prefix.
pub proof fn law_one_more_model(
    rows: Seq<JsonView>,
    row: JsonView,
    id: Seq<char>,
    rest: Seq<char>,
    by: JsonView,
    name: Seq<char>,
)
    ensures
        ({
            let was = gateway::gateway_rows(rows);
            let now = gateway::gateway_rows(rows.push(row));
            let known = exists|i: int| 0 <= i < was.len() && (#[trigger] was[i]).0 == id;
            &&& report_laws::under(row, "id"@, JsonView::Str(id)) ==> {
                &&& id == "llm-gateway--"@ + rest && !known && report_laws::under(
                    row,
                    "cc_switch"@,
                    by,
                ) && report_laws::under(by, "upstream_model"@, JsonView::Str(name)) ==> now
                    == was.push((id, name))
                &&& id == "llm-gateway--"@ + rest && !known && report_laws::nothing_under(
                    row,
                    "cc_switch"@,
                ) ==> now == was.push((id, rest))
                &&& id == "llm-gateway--"@ + rest && !known && report_laws::under(
                    row,
                    "cc_switch"@,
                    by,
                ) && report_laws::nothing_under(by, "upstream_model"@) ==> now == was.push(
                    (id, rest),
                )
                &&& known ==> now == was
                &&& !text_laws::starts_in(id, "llm-gateway--"@) ==> now == was
            }
            &&& report_laws::nothing_under(row, "id"@) ==> now == was
        }),
        gateway::gateway_rows(Seq::empty()).len() == 0,
{
    let all = rows.push(row);
    assert(all.drop_last() == rows);
    assert(all.last() == row);
    report_laws::law_field(row, "id"@, JsonView::Str(id));
    report_laws::law_field(row, "cc_switch"@, by);
    report_laws::law_field(by, "upstream_model"@, JsonView::Str(name));
    text_laws::law_found(id, "llm-gateway--"@);
    if id == "llm-gateway--"@ + rest {
        assert(text_laws::starts_in(id, "llm-gateway--"@));
        assert(id.skip("llm-gateway--"@.len() as int) == rest);
    }
}

/// One row more among all ids, and where the rows stand.
pub proof fn law_one_more_id(rows: Seq<JsonView>, row: JsonView, id: Seq<char>, v: JsonView)
    ensures
        report_laws::under(row, "id"@, JsonView::Str(id)) ==> gateway::ids_of(rows.push(row))
            == gateway::ids_of(rows).push(id),
        report_laws::nothing_under(row, "id"@) ==> gateway::ids_of(rows.push(row))
            == gateway::ids_of(rows),
        gateway::ids_of(Seq::empty()).len() == 0,
        report_laws::under(v, "data"@, JsonView::Array(rows)) ==> gateway::rows_of(v) == rows,
        report_laws::nothing_under(v, "data"@) ==> gateway::rows_of(v).len() == 0,
{
    let all = rows.push(row);
    assert(all.drop_last() == rows);
    assert(all.last() == row);
    report_laws::law_field(row, "id"@, JsonView::Str(id));
    report_laws::law_field(v, "data"@, JsonView::Array(rows));
}

/// The models are there only for a reply with the status 200 that offers one of the gateway's;
/// anything else is an error that says what is wrong.
pub proof fn law_models_or_error(proxy: Seq<char>, reply: Result<JsonReply, String>)
    ensures
        ({
            let r = gateway::gateway_or_err(proxy, reply);
            &&& reply matches Err(e) ==> r is Err && (e@ == "connection_refused"@ ==> r->Err_0
                == "连不上 AIS Switch（"@ + proxy
                + "）。请打开 AIS Switch 并打开 Codex 路由。"@) && (e@
                != "connection_refused"@ ==> r->Err_0 == e@)
            &&& reply matches Ok(x) ==> {
                let found = gateway::gateway_rows(gateway::rows_of(x.json@));
                let all = gateway::ids_of(gateway::rows_of(x.json@));
                &&& r is Ok <==> x.status == 200 && found.len() > 0
                &&& r is Ok ==> r->Ok_0 == found
                &&& x.status != 200 ==> r->Err_0 == "/models HTTP "@ + text::decimal(
                    x.status as nat,
                )
                &&& x.status == 200 && found.len() == 0 ==> r->Err_0
                    == "没有 llm-gateway--* 模型（共 "@ + text::decimal(all.len())
                    + " 个）。请在 Codex 页把 LLM Gateway 加入路由池并刷新。"@
            }
        }),
{
}

/// The models are asked for under the proxy, and an answer is awaited for eight seconds.
pub proof fn law_models_request(proxy: &str, r: Request)
    requires
        call_ensures(gateway::models_request, (proxy,), r),
    ensures
        r is Get,
        r->Get_url@ == proxy@ + "/codex/v1/models"@,
        r->Get_secs == 8,
{
}

} // verus!
