//! The gateway: requests to it, its replies, and the models that it offers.

use vstd::prelude::*;

use crate::json;
use crate::json::Json;
use crate::json::JsonReply;
use crate::json::JsonView;
use crate::outside_text;
use crate::provider;
use crate::provider::GatewayModel;
use crate::text;

verus! {

/// The base address of the gateway where none is given.
pub const DEFAULT_PROXY: &'static str = "http://127.0.0.1:15721";

/// What the ids of the gateway's models start with.
pub const GATEWAY_PREFIX: &'static str = "llm-gateway--";

/// The base address of the gateway.
pub fn proxy(given: Option<String>) -> (r: String)
    ensures
        r@ == match given {
            Some(p) => p@,
            None => DEFAULT_PROXY@,
        },
{
    match given {
        Some(p) => p,
        None => DEFAULT_PROXY.to_owned(),
    }
}

/// What running curl gave: why it could not be run, or what it wrote and whether it
/// succeeded.
pub enum CurlOutcome {
    NotRun(String),
    Ran { stdout: Vec<u8>, stderr: Vec<u8>, success: bool },
}

/// The position of the last occurrence of `p` in `s` that starts before `n`.
pub open spec fn last_before(s: Seq<char>, p: Seq<char>, n: int) -> Option<int>
    decreases n,
{
    if n <= 0 {
        None
    } else if text::occurs_at(s, p, n - 1) {
        Some(n - 1)
    } else {
        last_before(s, p, n - 1)
    }
}

/// The position of the last occurrence of `p` in `s`.
pub open spec fn last_at(s: Seq<char>, p: Seq<char>) -> Option<int> {
    last_before(s, p, s.len() as int + 1)
}

/// The number that a text is once white space around it is gone, 0 where it is none.
pub open spec fn code_of(s: Seq<char>) -> nat {
    match text::parsed_number(text::trimmed(s), u32::MAX as nat) {
        Some(n) => n,
        None => 0,
    }
}

/// What curl wrote: the body up to the last status mark, and the status behind it. Without
/// a mark all is body, and the status is 200 where curl succeeded and 0 where it did not.
pub open spec fn curl_parts(raw: Seq<char>, success: bool) -> (nat, Seq<char>) {
    match last_at(raw, "\n__HTTP__"@) {
        Some(i) => (code_of(raw.skip(i + 9)), raw.take(i)),
        None => (
            if success {
                200
            } else {
                0
            },
            raw,
        ),
    }
}

/// The text says that no connection was made.
pub open spec fn says_refused(err: Seq<char>) -> bool {
    let l = outside_text::lower(err);
    ||| text::occurs(l, "connection refused"@)
    ||| text::occurs(l, "couldn't connect"@)
    ||| text::occurs(l, "could not connect"@)
    ||| text::occurs(l, "failed to connect"@)
}

/// The error that curl's complaint stands for.
pub open spec fn curl_error(err: Seq<char>) -> Seq<char> {
    if says_refused(err) {
        "connection_refused"@
    } else if text::blank(err) {
        "curl 失败"@
    } else {
        text::trimmed(err)
    }
}

/// The status and body that running curl gave, or the error.
pub open spec fn curl_result(o: CurlOutcome) -> Result<(nat, Seq<char>), Seq<char>> {
    match o {
        CurlOutcome::NotRun(e) => Err("无法执行 curl: "@ + e@),
        CurlOutcome::Ran { stdout, stderr, success } => {
            let (status, body) = curl_parts(outside_text::lossy(stdout@), success);
            if status == 0 && body.len() == 0 && !success {
                Err(curl_error(outside_text::lossy(stderr@)))
            } else {
                Ok((status, body))
            }
        },
    }
}

pub proof fn lemma_last_before(s: Seq<char>, p: Seq<char>, n: int, i: int)
    requires
        0 <= i < n,
        text::occurs_at(s, p, i),
        forall|j: int| i < j ==> !text::occurs_at(s, p, j),
    ensures
        last_before(s, p, n) == Some(i),
    decreases n,
{
    if n - 1 > i {
        lemma_last_before(s, p, n - 1, i);
    }
}

pub proof fn lemma_none_before(s: Seq<char>, p: Seq<char>, n: int)
    requires
        !text::occurs(s, p),
    ensures
        last_before(s, p, n) is None,
    decreases n,
{
    if n > 0 {
        lemma_none_before(s, p, n - 1);
    }
}

/// The status and body in what curl wrote.
pub fn curl_status(raw: &str, success: bool) -> (r: (u32, String))
    ensures
        r.0 == curl_parts(raw@, success).0,
        r.1@ == curl_parts(raw@, success).1,
{
    let mark = "\n__HTTP__";
    proof {
        reveal_strlit("\n__HTTP__");
    }
    match text::rfind(raw, mark) {
        Some(i) => {
            proof {
                lemma_last_before(raw@, mark@, raw@.len() as int + 1, i as int);
                assert(mark@.len() == 9);
            }
            let end = text::char_count(raw);
            let rest = text::slice(raw, i + 9, end);
            assert(rest@ == raw@.skip(i + 9));
            let code: u32 = match text::parse_number(
                text::trim(rest.as_str()).as_str(),
                u32::MAX as u64,
            ) {
                Some(n) => n as u32,
                None => 0,
            };
            let body = text::slice(raw, 0, i);
            assert(body@ == raw@.take(i as int));
            (code, body)
        },
        None => {
            proof {
                lemma_none_before(raw@, mark@, raw@.len() as int + 1);
            }
            (
                if success {
                    200
                } else {
                    0
                },
                raw.to_owned(),
            )
        },
    }
}

/// The error that curl's complaint stands for.
pub fn curl_complaint(err: &str) -> (r: String)
    ensures
        r@ == curl_error(err@),
{
    let l = outside_text::lower_text(err);
    let l = l.as_str();
    if text::contains(l, "connection refused") || text::contains(l, "couldn't connect")
        || text::contains(l, "could not connect") || text::contains(l, "failed to connect") {
        return "connection_refused".to_owned();
    }
    if text::is_blank(err) {
        return "curl 失败".to_owned();
    }
    text::trim(err)
}

/// The status and body that running curl gave, or the error.
pub fn curl_body(o: &CurlOutcome) -> (r: Result<(u32, String), String>)
    ensures
        match r {
            Ok(x) => curl_result(*o) == Ok::<(nat, Seq<char>), Seq<char>>((x.0 as nat, x.1@)),
            Err(e) => curl_result(*o) == Err::<(nat, Seq<char>), Seq<char>>(e@),
        },
{
    match o {
        CurlOutcome::NotRun(e) => Err(text::joined_pair("无法执行 curl: ", e.as_str())),
        CurlOutcome::Ran { stdout, stderr, success } => {
            let raw = outside_text::lossy_text(stdout);
            let (status, body) = curl_status(raw.as_str(), *success);
            if status == 0 && text::char_count(body.as_str()) == 0 && !*success {
                let err = outside_text::lossy_text(stderr);
                return Err(curl_complaint(err.as_str()));
            }
            Ok((status, body))
        },
    }
}

/// A request to the gateway.
pub enum Request {
    Get { url: String, secs: u64 },
    Post { url: String, payload: String, secs: u64 },
}

/// The arguments of curl for a request that may take `secs` seconds, one at least. The
/// status follows the body behind a mark.
pub open spec fn curl_args_view(q: Request) -> Seq<Seq<char>> {
    match q {
        Request::Get { url, secs } => seq![
            "-sS"@,
            "-m"@,
            text::decimal(if secs == 0 { 1 } else { secs as nat }),
            "-w"@,
            "\n__HTTP__%{http_code}"@,
            "-H"@,
            "Authorization: Bearer dummy"@,
            url@,
        ],
        Request::Post { url, payload, secs } => seq![
            "-sS"@,
            "-m"@,
            text::decimal(if secs == 0 { 1 } else { secs as nat }),
            "-w"@,
            "\n__HTTP__%{http_code}"@,
            "-X"@,
            "POST"@,
            "-H"@,
            "Authorization: Bearer dummy"@,
            "-H"@,
            "Content-Type: application/json"@,
            "-d"@,
            payload@,
            url@,
        ],
    }
}

/// The arguments of curl for a request.
pub fn curl_args(q: &Request) -> (r: Vec<String>)
    ensures
        r@.map_values(|s: String| s@) == curl_args_view(*q),
{
    let secs: u64 = match q {
        Request::Get { url: _, secs } => *secs,
        Request::Post { url: _, payload: _, secs } => *secs,
    };
    let secs: u64 = if secs == 0 {
        1
    } else {
        secs
    };
    let mut out: Vec<String> = Vec::new();
    out.push("-sS".to_owned());
    out.push("-m".to_owned());
    out.push(text::show_number(secs));
    out.push("-w".to_owned());
    out.push("\n__HTTP__%{http_code}".to_owned());
    match q {
        Request::Get { url, secs: _ } => {
            out.push("-H".to_owned());
            out.push("Authorization: Bearer dummy".to_owned());
            out.push(url.clone());
        },
        Request::Post { url, payload, secs: _ } => {
            out.push("-X".to_owned());
            out.push("POST".to_owned());
            out.push("-H".to_owned());
            out.push("Authorization: Bearer dummy".to_owned());
            out.push("-H".to_owned());
            out.push("Content-Type: application/json".to_owned());
            out.push("-d".to_owned());
            out.push(payload.clone());
            out.push(url.clone());
        },
    }
    assert(out@.map_values(|s: String| s@) == curl_args_view(*q));
    out
}

/// The reply that running curl gave, or the error.
pub fn curl_json(o: &CurlOutcome) -> (r: Result<JsonReply, String>)
    ensures
        match r {
            Ok(x) => {
                &&& curl_result(*o) is Ok
                &&& x.status == curl_result(*o)->Ok_0.0
                &&& x.json@ == json::body_json(curl_result(*o)->Ok_0.1)
                &&& x.shown@ == json::json_print(json::body_json(curl_result(*o)->Ok_0.1))
            },
            Err(e) => curl_result(*o) == Err::<(nat, Seq<char>), Seq<char>>(e@),
        },
{
    match curl_body(o) {
        Ok(x) => Ok(json::parse_json_body(x.0, x.1.as_str())),
        Err(e) => Err(e),
    }
}

/// The ids that the rows of a list of models give.
pub open spec fn ids_of(rows: Seq<JsonView>) -> Seq<Seq<char>>
    decreases rows.len(),
{
    if rows.len() == 0 {
        Seq::empty()
    } else {
        let rest = ids_of(rows.drop_last());
        match json::str_of(json::field(rows.last(), "id"@)) {
            Some(id) => rest.push(id),
            None => rest,
        }
    }
}

/// The id is one of the gateway.
pub open spec fn gateway_id(id: Seq<char>) -> bool {
    GATEWAY_PREFIX@.is_prefix_of(id)
}

/// The name of the model in a row: what the row says, else its id without the prefix.
pub open spec fn row_name(row: JsonView, id: Seq<char>) -> Seq<char> {
    match json::str_of(
        json::field_of(json::field(row, "cc_switch"@), "upstream_model"@),
    ) {
        Some(n) => n,
        None => id.skip(GATEWAY_PREFIX@.len() as int),
    }
}

/// Some model has the id.
pub open spec fn has_id(models: Seq<(Seq<char>, Seq<char>)>, id: Seq<char>) -> bool {
    exists|i: int| 0 <= i < models.len() && (#[trigger] models[i]).0 == id
}

/// The gateway's models in the rows of a list, each id once.
pub open spec fn gateway_rows(rows: Seq<JsonView>) -> Seq<(Seq<char>, Seq<char>)>
    decreases rows.len(),
{
    if rows.len() == 0 {
        Seq::empty()
    } else {
        let rest = gateway_rows(rows.drop_last());
        match json::str_of(json::field(rows.last(), "id"@)) {
            Some(id) => if gateway_id(id) && !has_id(rest, id) {
                rest.push((id, row_name(rows.last(), id)))
            } else {
                rest
            },
            None => rest,
        }
    }
}

/// The rows of a list of models.
pub open spec fn rows_of(v: JsonView) -> Seq<JsonView> {
    match json::items_of(json::field(v, "data"@)) {
        Some(rows) => rows,
        None => Seq::empty(),
    }
}

fn known(models: &Vec<GatewayModel>, id: &str) -> (r: bool)
    ensures
        r == has_id(provider::model_pairs(models@), id@),
{
    let ghost all = provider::model_pairs(models@);
    let mut i: usize = 0;
    while i < models.len()
        invariant
            i <= models.len(),
            all == provider::model_pairs(models@),
            forall|j: int| 0 <= j < i ==> (#[trigger] all[j]).0 != id@,
        decreases models.len() - i,
    {
        assert(all[i as int].0 == models@[i as int].id@);
        if text::same_text(models[i].id.as_str(), id) {
            return true;
        }
        i += 1;
    }
    false
}

/// The gateway's models in a list of models, each id once, and the ids of all models.
pub fn parse_gateway_models(v: &Json) -> (r: (Vec<GatewayModel>, Vec<String>))
    ensures
        provider::model_pairs(r.0@) == gateway_rows(rows_of(v@)),
        r.1@.map_values(|s: String| s@) == ids_of(rows_of(v@)),
{
    let mut all: Vec<String> = Vec::new();
    let mut gw: Vec<GatewayModel> = Vec::new();
    proof {
        assert(provider::model_pairs(gw@) == gateway_rows(Seq::empty()));
        assert(all@.map_values(|s: String| s@) == ids_of(Seq::empty()));
    }
    match json::as_array(json::get(Some(v), "data")) {
        None => {},
        Some(items) => {
            let ghost rows = items@.map_values(|x: Json| x@);
            let mut i: usize = 0;
            assert(rows.take(0) == Seq::<JsonView>::empty());
            while i < items.len()
                invariant
                    i <= items.len(),
                    rows == items@.map_values(|x: Json| x@),
                    provider::model_pairs(gw@) == gateway_rows(rows.take(i as int)),
                    all@.map_values(|s: String| s@) == ids_of(rows.take(i as int)),
                decreases items.len() - i,
            {
                let ghost gw0 = gw@;
                let ghost all0 = all@;
                proof {
                    assert(rows[i as int] == items@[i as int]@);
                    assert(rows.take(i + 1).drop_last() == rows.take(i as int));
                    assert(rows.take(i + 1).last() == rows[i as int]);
                }
                let row = Some(&items[i]);
                match json::as_str(json::get(row, "id")) {
                    None => {},
                    Some(id) => {
                        all.push(id.to_owned());
                        assert(all@.map_values(|s: String| s@) == all0.map_values(
                            |s: String| s@,
                        ).push(id@));
                        if text::starts_with(id, GATEWAY_PREFIX) && !known(&gw, id) {
                            let told = json::as_str(
                                json::get(json::get(row, "cc_switch"), "upstream_model"),
                            );
                            let name = match told {
                                Some(n) => n.to_owned(),
                                None => {
                                    let n = text::char_count(GATEWAY_PREFIX);
                                    let end = text::char_count(id);
                                    let s = text::slice(id, n, end);
                                    assert(s@ == id@.skip(n as int));
                                    s
                                },
                            };
                            gw.push(GatewayModel { id: id.to_owned(), name });
                            assert(provider::model_pairs(gw@) == provider::model_pairs(
                                gw0,
                            ).push((id@, name@)));
                        }
                    },
                }
                i += 1;
            }
            assert(rows.take(i as int) == rows);
        },
    }
    (gw, all)
}

/// The position of the first model whose id ends with the name of the default; the number
/// of models where there is none.
pub open spec fn flash_at(models: Seq<(Seq<char>, Seq<char>)>) -> int
    decreases models.len(),
{
    if models.len() == 0 || "deepseek-v4-flash"@.is_suffix_of(models[0].0) {
        0
    } else {
        1 + flash_at(models.skip(1))
    }
}

/// The id of the default model: the first that ends with its name, else the first, else
/// none.
pub open spec fn default_id(models: Seq<(Seq<char>, Seq<char>)>) -> Seq<char> {
    let n = flash_at(models);
    if n < models.len() {
        models[n].0
    } else if models.len() > 0 {
        models[0].0
    } else {
        Seq::empty()
    }
}

/// The id of the default model.
pub fn pick_default_model(models: &Vec<GatewayModel>) -> (r: String)
    ensures
        r@ == default_id(provider::model_pairs(models@)),
{
    let ghost all = provider::model_pairs(models@);
    let mut i: usize = 0;
    assert(all.skip(0) == all);
    while i < models.len()
        invariant
            i <= models.len(),
            all == provider::model_pairs(models@),
            flash_at(all) == i + flash_at(all.skip(i as int)),
        decreases models.len() - i,
    {
        proof {
            assert(all.skip(i as int)[0] == (models@[i as int].id@, models@[i as int].name@));
            assert(all.skip(i as int).skip(1) == all.skip(i + 1));
        }
        if text::ends_with(models[i].id.as_str(), "deepseek-v4-flash") {
            return models[i].id.clone();
        }
        i += 1;
    }
    assert(all.skip(i as int).len() == 0);
    if models.len() > 0 {
        assert(all[0].0 == models@[0].id@);
        models[0].id.clone()
    } else {
        String::new()
    }
}

/// The ids of models.
pub open spec fn model_ids(models: Seq<(Seq<char>, Seq<char>)>) -> Seq<Seq<char>> {
    models.map_values(|m: (Seq<char>, Seq<char>)| m.0)
}

/// The ids of models.
pub fn ids(models: &Vec<GatewayModel>) -> (r: Vec<String>)
    ensures
        r@.map_values(|s: String| s@) == model_ids(provider::model_pairs(models@)),
{
    let ghost want = model_ids(provider::model_pairs(models@));
    let mut out: Vec<String> = Vec::new();
    let mut i: usize = 0;
    while i < models.len()
        invariant
            i <= models.len(),
            want == model_ids(provider::model_pairs(models@)),
            out@.map_values(|s: String| s@) == want.take(i as int),
        decreases models.len() - i,
    {
        let ghost was = out@;
        out.push(models[i].id.clone());
        proof {
            assert(want[i as int] == models@[i as int].id@);
            assert(out@.map_values(|s: String| s@) == was.map_values(|s: String| s@).push(
                want[i as int],
            ));
            assert(want.take(i + 1) == want.take(i as int).push(want[i as int]));
        }
        i += 1;
    }
    assert(want.take(i as int) == want);
    out
}

/// The request for the list of models.
pub fn models_request(proxy: &str) -> (r: Request)
    ensures
        r matches Request::Get { url, secs } && url@ == proxy@ + "/codex/v1/models"@ && secs == 8,
{
    Request::Get { url: text::joined_pair(proxy, "/codex/v1/models"), secs: 8 }
}

/// The gateway's models in the reply to the request for them, or what is wrong.
pub open spec fn gateway_or_err(
    proxy: Seq<char>,
    reply: Result<JsonReply, String>,
) -> Result<Seq<(Seq<char>, Seq<char>)>, Seq<char>> {
    match reply {
        Err(e) => if e@ == "connection_refused"@ {
            Err(
                "连不上 AIS Switch（"@ + proxy + "）。请打开 AIS Switch 并打开 Codex 路由。"@,
            )
        } else {
            Err(e@)
        },
        Ok(x) => if x.status != 200 {
            Err("/models HTTP "@ + text::decimal(x.status as nat))
        } else if gateway_rows(rows_of(x.json@)).len() == 0 {
            Err(
                "没有 llm-gateway--* 模型（共 "@ + text::decimal(ids_of(rows_of(x.json@)).len())
                    + " 个）。请在 Codex 页把 LLM Gateway 加入路由池并刷新。"@,
            )
        } else {
            Ok(gateway_rows(rows_of(x.json@)))
        },
    }
}

/// The gateway's models in the reply to the request for them, or what is wrong.
pub fn fetch_gateway_or_err(proxy: &str, reply: &Result<JsonReply, String>) -> (r: Result<
    Vec<GatewayModel>,
    String,
>)
    ensures
        match r {
            Ok(m) => gateway_or_err(proxy@, *reply) == Ok::<
                Seq<(Seq<char>, Seq<char>)>,
                Seq<char>,
            >(provider::model_pairs(m@)),
            Err(e) => gateway_or_err(proxy@, *reply) == Err::<
                Seq<(Seq<char>, Seq<char>)>,
                Seq<char>,
            >(e@),
        },
{
    match reply {
        Err(e) => {
            if text::same_text(e.as_str(), "connection_refused") {
                Err(
                    text::joined_three(
                        "连不上 AIS Switch（",
                        proxy,
                        "）。请打开 AIS Switch 并打开 Codex 路由。",
                    ),
                )
            } else {
                Err(e.clone())
            }
        },
        Ok(x) => {
            if x.status != 200 {
                return Err(
                    text::joined_pair(
                        "/models HTTP ",
                        text::show_number(x.status as u64).as_str(),
                    ),
                );
            }
            let (gw, all) = parse_gateway_models(&x.json);
            assert(provider::model_pairs(gw@).len() == gw.len());
            assert(all@.map_values(|s: String| s@).len() == all.len());
            if gw.len() == 0 {
                return Err(
                    text::joined_three(
                        "没有 llm-gateway--* 模型（共 ",
                        text::show_number(all.len() as u64).as_str(),
                        " 个）。请在 Codex 页把 LLM Gateway 加入路由池并刷新。",
                    ),
                );
            }
            Ok(gw)
        },
    }
}

/// The models that are found are the gateway's, each id once, and all of them: the ids in
/// the list that start with the gateway's prefix.
pub proof fn law_gateway_models(rows: Seq<JsonView>)
    ensures
        forall|i: int|
            0 <= i < gateway_rows(rows).len() ==> gateway_id((#[trigger] gateway_rows(rows)[i]).0),
        forall|i: int, j: int|
            0 <= i < j < gateway_rows(rows).len() ==> (#[trigger] gateway_rows(rows)[i]).0 != (
            #[trigger] gateway_rows(rows)[j]).0,
        forall|id: Seq<char>|
            #[trigger] has_id(gateway_rows(rows), id) <==> gateway_id(id) && ids_of(
                rows,
            ).contains(id),
    decreases rows.len(),
{
    if rows.len() > 0 {
        let init = rows.drop_last();
        law_gateway_models(init);
        let rest = gateway_rows(init);
        let all = gateway_rows(rows);
        let ids0 = ids_of(init);
        let ids1 = ids_of(rows);
        match json::str_of(json::field(rows.last(), "id"@)) {
            Some(x) => {
                assert(ids1 == ids0.push(x));
                assert forall|id: Seq<char>| #[trigger] has_id(all, id) <==> gateway_id(id)
                    && ids1.contains(id) by {
                    assert(has_id(rest, id) <==> gateway_id(id) && ids0.contains(id));
                    if ids0.contains(id) {
                        let k = choose|k: int| 0 <= k < ids0.len() && ids0[k] == id;
                        assert(ids1[k] == id);
                    }
                    if ids1.contains(id) {
                        let k = choose|k: int| 0 <= k < ids1.len() && ids1[k] == id;
                        if k < ids0.len() {
                            assert(ids0[k] == id);
                        }
                    }
                    assert(ids1[ids0.len() as int] == x);
                    if has_id(rest, id) {
                        let k = choose|k: int| 0 <= k < rest.len() && (#[trigger] rest[k]).0 == id;
                        assert(all[k].0 == id);
                    }
                    if has_id(all, id) {
                        let k = choose|k: int| 0 <= k < all.len() && (#[trigger] all[k]).0 == id;
                        if k < rest.len() {
                            assert(rest[k].0 == id);
                        }
                    }
                    if gateway_id(x) && !has_id(rest, x) {
                        assert(all[rest.len() as int].0 == x);
                    }
                }
            },
            None => {},
        }
    } else {
        assert forall|id: Seq<char>| #[trigger] has_id(gateway_rows(rows), id) <==> gateway_id(id)
            && ids_of(rows).contains(id) by {}
    }
}

proof fn lemma_flash_at(models: Seq<(Seq<char>, Seq<char>)>)
    ensures
        0 <= flash_at(models) <= models.len(),
    decreases models.len(),
{
    if models.len() > 0 {
        lemma_flash_at(models.skip(1));
    }
}

/// The default is one of the models, where there are any.
pub proof fn law_default_is_offered(models: Seq<(Seq<char>, Seq<char>)>)
    requires
        models.len() > 0,
    ensures
        has_id(models, default_id(models)),
{
    lemma_flash_at(models);
    let n = flash_at(models);
    if n < models.len() {
        assert(models[n].0 == default_id(models));
    } else {
        assert(models[0].0 == default_id(models));
    }
}

} // verus!
