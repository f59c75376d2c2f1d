use dsh_harness::check::{
    check, check_start, AisCheckResult, AisStep, CheckAction, CheckEvent, CheckState,
};
use dsh_harness::gateway::{
    curl_args, curl_body, curl_json, fetch_gateway_or_err, ids, parse_gateway_models,
    pick_default_model, proxy, CurlOutcome, Request, DEFAULT_PROXY,
};
use dsh_harness::json::{parse, parse_json_body, Json, JsonReply};
use dsh_harness::provider::GatewayModel;

fn text(s: &str) -> Json {
    Json::Str(s.to_string())
}

fn object(entries: Vec<(&str, Json)>) -> Json {
    Json::Object(entries.into_iter().map(|(k, v)| (k.to_string(), v)).collect())
}

fn ran(stdout: &str, stderr: &str, success: bool) -> CurlOutcome {
    CurlOutcome::Ran { stdout: stdout.as_bytes().to_vec(), stderr: stderr.as_bytes().to_vec(), success }
}

fn reply(status: u32, body: &str) -> Result<JsonReply, String> {
    curl_json(&ran(&format!("{body}\n__HTTP__{status}"), "", true))
}

const MODELS: &str = r#"{"data":[{"id":"llm-gateway--deepseek-v4-flash","cc_switch":{"upstream_model":"deepseek-v4-flash"}},{"id":"llm-gateway--glm-5.2","cc_switch":{"upstream_model":"glm-5.2"}}]}"#;

#[test]
fn parse_models_filters_gateway() {
    let v = object(vec![(
        "data",
        Json::Array(vec![
            object(vec![
                ("id", text("llm-gateway--glm-5.2")),
                ("cc_switch", object(vec![("upstream_model", text("glm-5.2"))])),
            ]),
            object(vec![("id", text("user@npt.sg--gpt-5.4"))]),
        ]),
    )]);
    let (gw, all) = parse_gateway_models(&v);
    assert_eq!(all.len(), 2);
    assert_eq!(gw.len(), 1);
    assert_eq!(gw[0].name, "glm-5.2");
}

#[test]
fn models_come_once_and_in_order() {
    let v = parse(r#"{"data":[{"id":"llm-gateway--b"},{"x":1},{"id":7},{"id":"llm-gateway--a","cc_switch":{"upstream_model":"A"}},{"id":"llm-gateway--b","cc_switch":{"upstream_model":"B"}},{"id":"z"}]}"#).unwrap();
    let (gw, all) = parse_gateway_models(&v);
    assert_eq!(ids(&gw), vec!["llm-gateway--b", "llm-gateway--a"]);
    assert_eq!(gw[0].name, "b");
    assert_eq!(gw[1].name, "A");
    assert_eq!(all, vec!["llm-gateway--b", "llm-gateway--a", "llm-gateway--b", "z"]);
    let (gw, all) = parse_gateway_models(&parse(r#"{"data":{"id":"llm-gateway--b"}}"#).unwrap());
    assert!(gw.is_empty() && all.is_empty());
}

#[test]
fn default_is_the_flash_model() {
    let m = |id: &str| GatewayModel { id: id.to_string(), name: "n".to_string() };
    assert_eq!(pick_default_model(&vec![m("a"), m("x-deepseek-v4-flash"), m("deepseek-v4-flash")]), "x-deepseek-v4-flash");
    assert_eq!(pick_default_model(&vec![m("a"), m("b")]), "a");
    assert_eq!(pick_default_model(&vec![]), "");
}

#[test]
fn proxy_can_be_given() {
    assert_eq!(proxy(None), "http://127.0.0.1:15721");
    assert_eq!(proxy(Some("http://x".to_string())), "http://x");
}

#[test]
fn json_is_read_and_shown() {
    let r = parse_json_body(200, r#" {"b": [1, -2, 1.5, true, null], "a": "x"} "#);
    assert_eq!(r.status, 200);
    assert!(matches!(&r.json, Json::Object(e) if e.len() == 2));
    assert!(r.shown.contains(r#"[1,-2,1.5,true,null]"#));
    let r = parse_json_body(204, " \n");
    assert!(matches!(r.json, Json::Null));
    assert_eq!(r.shown, "null");
    let r = parse_json_body(500, &"é".repeat(500));
    assert!(matches!(&r.json, Json::Str(s) if s.chars().count() == 400));
    assert_eq!(r.shown.chars().count(), 402);
    assert!(parse("{").is_none());
    assert!(matches!(parse("18446744073709551615"), Some(Json::Number(Some(u64::MAX), _))));
    assert!(matches!(parse("-1"), Some(Json::Number(None, s)) if s == "-1"));
}

#[test]
fn curl_output_is_split_at_the_last_mark() {
    assert_eq!(curl_body(&ran("a\n__HTTP__1\n__HTTP__ 404 \n", "", true)), Ok((404, "a\n__HTTP__1".to_string())));
    assert_eq!(curl_body(&ran("a\n__HTTP__x", "", true)), Ok((0, "a".to_string())));
    assert_eq!(curl_body(&ran("a", "", true)), Ok((200, "a".to_string())));
    assert_eq!(curl_body(&ran("a", "boom", false)), Ok((0, "a".to_string())));
    assert_eq!(curl_body(&ran("\n__HTTP__000", "", true)), Ok((0, "".to_string())));
    let odd = CurlOutcome::Ran { stdout: vec![b'a', 0xff], stderr: vec![], success: true };
    assert_eq!(curl_body(&odd), Ok((200, "a\u{fffd}".to_string())));
}

#[test]
fn curl_complaints_are_told_apart() {
    let refused = Err("connection_refused".to_string());
    assert_eq!(curl_body(&ran("\n__HTTP__000", "curl: (7) Failed to connect to x", false)), refused);
    assert_eq!(curl_body(&ran("", "COULDN'T CONNECT", false)), refused);
    assert_eq!(curl_body(&ran("", "could not connect", false)), refused);
    assert_eq!(curl_body(&ran("", "Connection Refused", false)), refused);
    assert_eq!(curl_body(&ran("", " timed out \n", false)), Err("timed out".to_string()));
    assert_eq!(curl_body(&ran("", " \n", false)), Err("curl 失败".to_string()));
    assert_eq!(curl_body(&CurlOutcome::NotRun("gone".to_string())), Err("无法执行 curl: gone".to_string()));
}

#[test]
fn curl_is_called_with_a_mark() {
    let get = curl_args(&Request::Get { url: "u".to_string(), secs: 0 });
    assert_eq!(get, vec!["-sS", "-m", "1", "-w", "\n__HTTP__%{http_code}", "-H", "Authorization: Bearer dummy", "u"]);
    let post = curl_args(&Request::Post { url: "u".to_string(), payload: "p".to_string(), secs: 30 });
    assert_eq!(
        post,
        vec![
            "-sS", "-m", "30", "-w", "\n__HTTP__%{http_code}", "-X", "POST", "-H", "Authorization: Bearer dummy",
            "-H", "Content-Type: application/json", "-d", "p", "u"
        ]
    );
}

#[test]
fn missing_models_are_explained() {
    let told = |r: &Result<JsonReply, String>| match fetch_gateway_or_err("P", r) {
        Ok(_) => panic!("no error"),
        Err(e) => e,
    };
    assert_eq!(told(&Err("connection_refused".to_string())), "连不上 AIS Switch（P）。请打开 AIS Switch 并打开 Codex 路由。");
    assert_eq!(told(&Err("other".to_string())), "other");
    assert_eq!(told(&reply(503, "{}")), "/models HTTP 503");
    assert_eq!(
        told(&reply(200, r#"{"data":[{"id":"x"}]}"#)),
        "没有 llm-gateway--* 模型（共 1 个）。请在 Codex 页把 LLM Gateway 加入路由池并刷新。"
    );
    assert_eq!(fetch_gateway_or_err("P", &reply(200, MODELS)).map(|m| m.len()), Ok(2));
}

fn asked(action: &CheckAction) -> (String, u64) {
    match action {
        CheckAction::Ask(Request::Get { url, secs }) => (url.clone(), *secs),
        CheckAction::Ask(Request::Post { url, secs, .. }) => (url.clone(), *secs),
        _ => panic!("nothing asked"),
    }
}

fn finish(state: CheckState, action: CheckAction) -> AisCheckResult {
    assert!(matches!(action, CheckAction::ReadConfig));
    let config = CheckEvent::Config {
        settings: "    ais-codex:\n".to_string(),
        cred: "AIS_CODEX_API_KEY: local\n".to_string(),
    };
    match check(state, config).1 {
        CheckAction::Done(r) => r,
        _ => panic!("not done"),
    }
}

fn detail(s: &AisStep) -> (bool, &str, &str) {
    (s.ok, s.name.as_str(), s.detail.as_str())
}

fn step_of(replies: Vec<Result<JsonReply, String>>) -> AisStep {
    let (mut state, mut action) = check_start("P");
    for r in replies {
        (state, action) = check(state, CheckEvent::Reply(r));
    }
    let _ = action;
    state.steps.pop().unwrap()
}

#[test]
fn check_passes_where_every_probe_does() {
    let (state, action) = check_start(DEFAULT_PROXY);
    assert_eq!(asked(&action), ("http://127.0.0.1:15721/health".to_string(), 5));
    let (state, action) = check(state, CheckEvent::Reply(reply(200, r#"{"ok":true}"#)));
    assert_eq!(asked(&action), ("http://127.0.0.1:15721/status".to_string(), 5));
    let (state, action) = check(state, CheckEvent::Reply(reply(200, r#"{"running":true,"port":15721}"#)));
    assert_eq!(asked(&action), ("http://127.0.0.1:15721/codex/v1/models".to_string(), 8));
    let (state, action) = check(state, CheckEvent::Reply(reply(200, MODELS)));
    assert_eq!(asked(&action), ("http://127.0.0.1:15721/codex/v1/chat/completions".to_string(), 30));
    assert!(matches!(&action, CheckAction::Ask(Request::Post { payload, .. })
        if payload == r#"{"model":"llm-gateway--deepseek-v4-flash","messages":[{"role":"user","content":"ping"}],"stream":false}"#));
    let (state, action) = check(state, CheckEvent::Reply(reply(200, r#"{"choices":[{"message":{"content":"pong"}}]}"#)));
    let r = finish(state, action);
    assert!(r.ok && r.has_provider && r.has_key && !r.proxy_down);
    assert_eq!(r.models, vec!["llm-gateway--deepseek-v4-flash", "llm-gateway--glm-5.2"]);
    assert_eq!(r.reply.as_deref(), Some("pong"));
    let steps: Vec<_> = r.steps.iter().map(detail).collect();
    assert_eq!(
        steps,
        vec![
            (true, "/health", "ok"),
            (true, "/status", "running port=15721"),
            (true, "/models", "Gateway 2 / 共 2"),
            (true, "chat/completions", "HTTP 200 reply=\"pong\""),
        ]
    );
}

#[test]
fn check_ends_where_the_connection_is_refused() {
    let (state, _) = check_start("P");
    let (state, action) = check(state, CheckEvent::Reply(Err("connection_refused".to_string())));
    let r = finish(state, action);
    assert!(!r.ok && r.proxy_down && r.models.is_empty() && r.reply.is_none());
    assert_eq!(r.steps.len(), 1);
    assert_eq!(detail(&r.steps[0]), (false, "/health", "连不上 P。请打开 AIS Switch，并打开 Codex 路由总开关。"));
}

#[test]
fn check_goes_on_after_other_failures() {
    let (state, _) = check_start("P");
    let (state, _) = check(state, CheckEvent::Reply(Err("timed out".to_string())));
    assert!(state.proxy_down && !state.ok);
    let (state, _) = check(state, CheckEvent::Reply(reply(200, "{}")));
    let (state, action) = check(state, CheckEvent::Reply(Err("e".to_string())));
    let r = finish(state, action);
    let steps: Vec<_> = r.steps.iter().map(detail).collect();
    assert_eq!(
        steps,
        vec![
            (false, "/health", "timed out"),
            (false, "/status", "Codex 代理未 running，请打开 Codex 路由"),
            (false, "/models", "e"),
        ]
    );
}

#[test]
fn failing_probes_are_described() {
    let ok = || reply(200, r#"{"running":true}"#);
    assert_eq!(detail(&step_of(vec![reply(500, r#"{"a":1}"#)])), (false, "/health", "HTTP 500: {\"a\":1}"));
    assert_eq!(detail(&step_of(vec![ok(), reply(404, "")])), (false, "/status", "HTTP 404: null"));
    assert_eq!(detail(&step_of(vec![ok(), Err("x".to_string())])), (false, "/status", "x"));
    assert_eq!(detail(&step_of(vec![ok(), ok()])), (true, "/status", "running port=0"));
    assert_eq!(detail(&step_of(vec![ok(), ok(), reply(500, "oops")])), (false, "/models", "HTTP 500: \"oops\""));
    assert_eq!(
        detail(&step_of(vec![ok(), ok(), reply(200, r#"{"data":[{"id":"a"}]}"#)])),
        (false, "/models", "共 1 个模型，没有 llm-gateway--*。请把 LLM Gateway 加入 Codex 路由池并刷新。")
    );
    for id in ["u@x", "npt.sg--m"] {
        assert_eq!(
            detail(&step_of(vec![ok(), ok(), reply(200, &format!(r#"{{"data":[{{"id":"{id}"}}]}}"#))])),
            (false, "/models", "共 1 个模型，没有 llm-gateway--*。请把 LLM Gateway 加入 Codex 路由池并刷新。 当前像是只有个人 ChatGPT 路由。")
        );
    }
}

#[test]
fn failing_answers_are_described() {
    let chat = |r: Result<JsonReply, String>| step_of(vec![reply(200, ""), reply(200, ""), reply(200, MODELS), r]);
    assert_eq!(detail(&chat(Err("x".to_string()))), (false, "chat/completions", "x"));
    assert_eq!(
        detail(&chat(reply(500, r#"{"error":{"provider":"default","message":"m"}}"#))),
        (false, "chat/completions", "请求打到了 Codex default（ChatGPT），不是 LLM Gateway。必须用 llm-gateway-- 前缀的模型 id。")
    );
    assert_eq!(
        detail(&chat(reply(500, r#"{"error":{"provider":"p","message":"m"}}"#))),
        (false, "chat/completions", "HTTP 500: m")
    );
    assert_eq!(detail(&chat(reply(500, r#"{"x":1}"#))), (false, "chat/completions", "HTTP 500: {\"x\":1}"));
    assert_eq!(detail(&chat(reply(200, "{}"))), (true, "chat/completions", "HTTP 200 reply=\"\""));
    let long = [r#"{"choices":[{"message":{"content":"\""#, &"a".repeat(100), r#""}}]}"#].concat();
    let s = chat(reply(200, &long));
    assert_eq!(s.detail, format!("HTTP 200 reply=\"\\\"{}\"", "a".repeat(79)));
}
