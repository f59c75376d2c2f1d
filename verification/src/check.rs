//! The health check of the gateway: one probe after the other, each of which adds a step
//! to the result. The probes are asked for here and run elsewhere.

use vstd::prelude::*;

use crate::credentials;
use crate::gateway;
use crate::gateway::Request;
use crate::json;
use crate::json::JsonReply;
use crate::json::JsonView;
use crate::outside_text;
use crate::provider;
use crate::text;

verus! {

/// One step of the check.
pub struct AisStep {
    pub ok: bool,
    pub name: String,
    pub detail: String,
}

/// The result of the check.
pub struct AisCheckResult {
    pub ok: bool,
    pub steps: Vec<AisStep>,
    pub models: Vec<String>,
    pub has_provider: bool,
    pub has_key: bool,
    pub reply: Option<String>,
    /// The gateway could not be reached.
    pub proxy_down: bool,
}

/// The probe whose outcome is awaited.
#[derive(Clone, Copy)]
pub enum CheckStage {
    Health,
    Status,
    Models,
    Chat,
    Config,
    Over,
}

/// How far the check has come.
pub struct CheckState {
    pub proxy: String,
    pub stage: CheckStage,
    pub ok: bool,
    pub steps: Vec<AisStep>,
    pub models: Vec<String>,
    pub reply: Option<String>,
    pub proxy_down: bool,
}

/// The outcome of a probe: a reply, or the texts of the two files.
pub enum CheckEvent {
    Reply(Result<JsonReply, String>),
    Config { settings: String, cred: String },
}

/// What to do next: ask the gateway, read the two files, or show the result.
pub enum CheckAction {
    Ask(Request),
    ReadConfig,
    Done(AisCheckResult),
}

/// One step of the check.
pub struct StepView {
    pub ok: bool,
    pub name: Seq<char>,
    pub detail: Seq<char>,
}

/// What the check has found so far.
pub struct CheckView {
    pub ok: bool,
    pub steps: Seq<StepView>,
    pub models: Seq<Seq<char>>,
    pub reply: Option<Seq<char>>,
    pub proxy_down: bool,
}

pub open spec fn step_view(s: AisStep) -> StepView {
    StepView { ok: s.ok, name: s.name@, detail: s.detail@ }
}

pub open spec fn steps_view(v: Seq<AisStep>) -> Seq<StepView> {
    v.map_values(|s: AisStep| step_view(s))
}

pub open spec fn reply_view(s: Option<String>) -> Option<Seq<char>> {
    match s {
        Some(t) => Some(t@),
        None => None,
    }
}

pub open spec fn found(
    ok: bool,
    steps: Seq<AisStep>,
    models: Seq<String>,
    reply: Option<String>,
    proxy_down: bool,
) -> CheckView {
    CheckView {
        ok,
        steps: steps_view(steps),
        models: models.map_values(|s: String| s@),
        reply: reply_view(reply),
        proxy_down,
    }
}

impl View for CheckState {
    type V = CheckView;

    open spec fn view(&self) -> CheckView {
        found(self.ok, self.steps@, self.models@, self.reply, self.proxy_down)
    }
}

/// The result shows what was found.
pub open spec fn result_view(r: AisCheckResult) -> CheckView {
    found(r.ok, r.steps@, r.models@, r.reply, r.proxy_down)
}

/// Every step is a success.
pub open spec fn all_ok(steps: Seq<StepView>) -> bool {
    forall|i: int| 0 <= i < steps.len() ==> (#[trigger] steps[i]).ok
}

/// What holds of the check at each stage: it is well as long as every step is, not where
/// the gateway could not be reached, and at the end only where models were found and one
/// answered.
pub open spec fn sound(stage: CheckStage, c: CheckView) -> bool {
    &&& c.ok <==> all_ok(c.steps)
    &&& c.proxy_down ==> !c.ok
    &&& stage is Chat ==> c.models.len() > 0
    &&& (stage is Config || stage is Over) && c.ok ==> c.models.len() > 0 && c.reply is Some
}

/// `c` with one step more.
pub open spec fn noted(c: CheckView, s: StepView) -> CheckView {
    CheckView { ok: c.ok && s.ok, steps: c.steps.push(s), ..c }
}

pub open spec fn http_detail(x: JsonReply) -> Seq<char> {
    "HTTP "@ + text::decimal(x.status as nat) + ": "@ + x.shown@
}

/// The gateway refused the connection.
pub open spec fn refused(x: Result<JsonReply, String>) -> bool {
    x matches Err(e) && e@ == "connection_refused"@
}

pub open spec fn health_step(proxy: Seq<char>, x: Result<JsonReply, String>) -> StepView {
    match x {
        Ok(v) => if v.status == 200 {
            StepView { ok: true, name: "/health"@, detail: "ok"@ }
        } else {
            StepView { ok: false, name: "/health"@, detail: http_detail(v) }
        },
        Err(e) => StepView {
            ok: false,
            name: "/health"@,
            detail: if refused(x) {
                "连不上 "@ + proxy + "。请打开 AIS Switch，并打开 Codex 路由总开关。"@
            } else {
                e@
            },
        },
    }
}

pub open spec fn status_step(x: Result<JsonReply, String>) -> StepView {
    match x {
        Ok(v) => if v.status != 200 {
            StepView { ok: false, name: "/status"@, detail: http_detail(v) }
        } else if json::bool_of(json::field(v.json@, "running"@)) == Some(true) {
            StepView {
                ok: true,
                name: "/status"@,
                detail: "running port="@ + text::decimal(
                    match json::u64_of(json::field(v.json@, "port"@)) {
                        Some(n) => n as nat,
                        None => 0,
                    },
                ),
            }
        } else {
            StepView {
                ok: false,
                name: "/status"@,
                detail: "Codex 代理未 running，请打开 Codex 路由"@,
            }
        },
        Err(e) => StepView { ok: false, name: "/status"@, detail: e@ },
    }
}

/// The id looks like that of a personal route.
pub open spec fn personal(id: Seq<char>) -> bool {
    text::occurs(id, "@"@) || text::occurs(id, "npt.sg--"@)
}

/// Some id looks like that of a personal route.
pub open spec fn some_personal(ids: Seq<Seq<char>>) -> bool {
    exists|i: int| 0 <= i < ids.len() && personal(#[trigger] ids[i])
}

/// The gateway's models in a reply, none where it is no success.
pub open spec fn models_found(x: Result<JsonReply, String>) -> Seq<(Seq<char>, Seq<char>)> {
    match x {
        Ok(v) => if v.status == 200 {
            gateway::gateway_rows(gateway::rows_of(v.json@))
        } else {
            Seq::empty()
        },
        Err(_) => Seq::empty(),
    }
}

pub open spec fn models_step(x: Result<JsonReply, String>) -> StepView {
    match x {
        Ok(v) => {
            let gw = gateway::gateway_rows(gateway::rows_of(v.json@));
            let all = gateway::ids_of(gateway::rows_of(v.json@));
            if v.status != 200 {
                StepView { ok: false, name: "/models"@, detail: http_detail(v) }
            } else if gw.len() == 0 {
                let d = "共 "@ + text::decimal(all.len())
                    + " 个模型，没有 llm-gateway--*。请把 LLM Gateway 加入 Codex 路由池并刷新。"@;
                StepView {
                    ok: false,
                    name: "/models"@,
                    detail: if some_personal(all) {
                        d + " 当前像是只有个人 ChatGPT 路由。"@
                    } else {
                        d
                    },
                }
            } else {
                StepView {
                    ok: true,
                    name: "/models"@,
                    detail: "Gateway "@ + text::decimal(gw.len()) + " / 共 "@ + text::decimal(
                        all.len(),
                    ),
                }
            }
        },
        Err(e) => StepView { ok: false, name: "/models"@, detail: e@ },
    }
}

/// The start of the answer of a model.
pub open spec fn answer(v: JsonView) -> Seq<char> {
    let choice = json::first_of(json::field(v, "choices"@));
    match json::str_of(json::field_of(json::field_of(choice, "message"@), "content"@)) {
        Some(s) => text::first_chars(s, 80),
        None => Seq::empty(),
    }
}

pub open spec fn chat_step(x: Result<JsonReply, String>) -> StepView {
    match x {
        Ok(v) => if v.status == 200 {
            StepView {
                ok: true,
                name: "chat/completions"@,
                detail: "HTTP 200 reply="@ + outside_text::quoted(answer(v.json@)),
            }
        } else {
            let error = json::field(v.json@, "error"@);
            let from = json::str_of(json::field_of(error, "provider"@));
            let told = json::str_of(json::field_of(error, "message"@));
            StepView {
                ok: false,
                name: "chat/completions"@,
                detail: if from == Some("default"@) {
                    "请求打到了 Codex default（ChatGPT），不是 LLM Gateway。必须用 llm-gateway-- 前缀的模型 id。"@
                } else {
                    "HTTP "@ + text::decimal(v.status as nat) + ": "@ + match told {
                        Some(m) => m,
                        None => v.shown@,
                    }
                },
            }
        },
        Err(e) => StepView { ok: false, name: "chat/completions"@, detail: e@ },
    }
}

/// What is found once the awaited reply is there.
pub open spec fn after(
    stage: CheckStage,
    c: CheckView,
    proxy: Seq<char>,
    x: Result<JsonReply, String>,
) -> CheckView {
    match stage {
        CheckStage::Health => CheckView {
            proxy_down: x is Err,
            ..noted(c, health_step(proxy, x))
        },
        CheckStage::Status => noted(c, status_step(x)),
        CheckStage::Models => CheckView {
            models: gateway::model_ids(models_found(x)),
            ..noted(c, models_step(x))
        },
        CheckStage::Chat => CheckView {
            reply: match x {
                Ok(v) => if v.status == 200 {
                    Some(answer(v.json@))
                } else {
                    None
                },
                Err(_) => None,
            },
            ..noted(c, chat_step(x))
        },
        _ => c,
    }
}

/// The stage that follows: a refused connection ends the probes, and only a model that
/// was found is asked.
pub open spec fn stage_after(stage: CheckStage, x: Result<JsonReply, String>) -> CheckStage {
    match stage {
        CheckStage::Health => if refused(x) {
            CheckStage::Config
        } else {
            CheckStage::Status
        },
        CheckStage::Status => CheckStage::Models,
        CheckStage::Models => if models_found(x).len() > 0 {
            CheckStage::Chat
        } else {
            CheckStage::Config
        },
        _ => CheckStage::Config,
    }
}

/// The question to a model.
pub open spec fn payload(id: Seq<char>) -> Seq<char> {
    "{\"model\":\""@ + id
        + "\",\"messages\":[{\"role\":\"user\",\"content\":\"ping\"}],\"stream\":false}"@
}

/// The action asks what the stage needs.
pub open spec fn asks(
    action: CheckAction,
    stage: CheckStage,
    proxy: Seq<char>,
    id: Seq<char>,
) -> bool {
    match stage {
        CheckStage::Health => action matches CheckAction::Ask(Request::Get { url, secs }) && url@
            == proxy + "/health"@ && secs == 5,
        CheckStage::Status => action matches CheckAction::Ask(Request::Get { url, secs }) && url@
            == proxy + "/status"@ && secs == 5,
        CheckStage::Models => action matches CheckAction::Ask(Request::Get { url, secs }) && url@
            == proxy + "/codex/v1/models"@ && secs == 8,
        CheckStage::Chat => action matches CheckAction::Ask(
            Request::Post { url, payload: p, secs },
        ) && url@ == proxy + "/codex/v1/chat/completions"@ && p@ == payload(id) && secs == 30,
        CheckStage::Config => action is ReadConfig,
        CheckStage::Over => action is Done,
    }
}

/// The event is what the stage awaits.
pub open spec fn awaited(stage: CheckStage, event: CheckEvent) -> bool {
    match event {
        CheckEvent::Reply(_) => !(stage is Config) && !(stage is Over),
        CheckEvent::Config { .. } => stage is Config,
    }
}

/// A step.
pub fn step(ok: bool, name: &str, detail: &str) -> (r: AisStep)
    ensures
        step_view(r) == (StepView { ok, name: name@, detail: detail@ }),
{
    AisStep { ok, name: name.to_owned(), detail: detail.to_owned() }
}

fn show_http(x: &JsonReply, told: &str) -> (r: String)
    ensures
        r@ == "HTTP "@ + text::decimal(x.status as nat) + ": "@ + told@,
{
    let mut out = text::joined_three("HTTP ", text::show_number(x.status as u64).as_str(), ": ");
    out.append(told);
    out
}

fn is_refused(x: &Result<JsonReply, String>) -> (r: bool)
    ensures
        r == refused(*x),
{
    match x {
        Ok(_) => false,
        Err(e) => text::same_text(e.as_str(), "connection_refused"),
    }
}

/// The step of the first probe.
pub fn check_health(proxy: &str, x: &Result<JsonReply, String>) -> (r: AisStep)
    ensures
        step_view(r) == health_step(proxy@, *x),
{
    match x {
        Ok(v) => {
            if v.status == 200 {
                step(true, "/health", "ok")
            } else {
                step(false, "/health", show_http(v, v.shown.as_str()).as_str())
            }
        },
        Err(e) => {
            if is_refused(x) {
                let detail = text::joined_three(
                    "连不上 ",
                    proxy,
                    "。请打开 AIS Switch，并打开 Codex 路由总开关。",
                );
                step(false, "/health", detail.as_str())
            } else {
                step(false, "/health", e.as_str())
            }
        },
    }
}

/// The step of the second probe.
pub fn check_status(x: &Result<JsonReply, String>) -> (r: AisStep)
    ensures
        step_view(r) == status_step(*x),
{
    match x {
        Ok(v) => {
            if v.status != 200 {
                return step(false, "/status", show_http(v, v.shown.as_str()).as_str());
            }
            let running = match json::as_bool(json::get(Some(&v.json), "running")) {
                Some(b) => b,
                None => false,
            };
            let port: u64 = match json::as_u64(json::get(Some(&v.json), "port")) {
                Some(n) => n,
                None => 0,
            };
            if running {
                let detail = text::joined_pair("running port=", text::show_number(port).as_str());
                step(true, "/status", detail.as_str())
            } else {
                step(false, "/status", "Codex 代理未 running，请打开 Codex 路由")
            }
        },
        Err(e) => step(false, "/status", e.as_str()),
    }
}

fn any_personal(ids: &Vec<String>) -> (r: bool)
    ensures
        r == some_personal(ids@.map_values(|s: String| s@)),
{
    let ghost all = ids@.map_values(|s: String| s@);
    let mut i: usize = 0;
    while i < ids.len()
        invariant
            i <= ids.len(),
            all == ids@.map_values(|s: String| s@),
            forall|j: int| 0 <= j < i ==> !personal(#[trigger] all[j]),
        decreases ids.len() - i,
    {
        assert(all[i as int] == ids@[i as int]@);
        if text::contains(ids[i].as_str(), "@") || text::contains(ids[i].as_str(), "npt.sg--") {
            return true;
        }
        i += 1;
    }
    false
}

/// The step of the third probe, with the gateway's models.
pub fn check_models(x: &Result<JsonReply, String>) -> (r: (
    AisStep,
    Vec<provider::GatewayModel>,
))
    ensures
        step_view(r.0) == models_step(*x),
        provider::model_pairs(r.1@) == models_found(*x),
{
    let none: Vec<provider::GatewayModel> = Vec::new();
    assert(provider::model_pairs(none@) == Seq::<(Seq<char>, Seq<char>)>::empty());
    match x {
        Ok(v) => {
            if v.status != 200 {
                return (step(false, "/models", show_http(v, v.shown.as_str()).as_str()), none);
            }
            let (gw, all) = gateway::parse_gateway_models(&v.json);
            assert(provider::model_pairs(gw@).len() == gw.len());
            assert(all@.map_values(|s: String| s@).len() == all.len());
            let total = text::show_number(all.len() as u64);
            if gw.len() == 0 {
                let mut d = text::joined_three(
                    "共 ",
                    total.as_str(),
                    " 个模型，没有 llm-gateway--*。请把 LLM Gateway 加入 Codex 路由池并刷新。",
                );
                if any_personal(&all) {
                    d.append(" 当前像是只有个人 ChatGPT 路由。");
                }
                (step(false, "/models", d.as_str()), gw)
            } else {
                let mut d = text::joined_three(
                    "Gateway ",
                    text::show_number(gw.len() as u64).as_str(),
                    " / 共 ",
                );
                d.append(total.as_str());
                (step(true, "/models", d.as_str()), gw)
            }
        },
        Err(e) => (step(false, "/models", e.as_str()), none),
    }
}

/// The step of the last probe, with the answer.
pub fn check_chat(x: &Result<JsonReply, String>) -> (r: (AisStep, Option<String>))
    ensures
        step_view(r.0) == chat_step(*x),
        reply_view(r.1) == (match *x {
            Ok(v) => if v.status == 200 {
                Some(answer(v.json@))
            } else {
                None
            },
            Err(_) => None,
        }),
{
    match x {
        Ok(v) => {
            if v.status == 200 {
                let choice = json::first(json::get(Some(&v.json), "choices"));
                let content = json::get(json::get(choice, "message"), "content");
                let reply = match json::as_str(content) {
                    Some(s) => text::take_chars(s, 80),
                    None => String::new(),
                };
                assert(reply@ == answer(v.json@));
                let detail = text::joined_pair(
                    "HTTP 200 reply=",
                    outside_text::quoted_text(reply.as_str()).as_str(),
                );
                (step(true, "chat/completions", detail.as_str()), Some(reply))
            } else {
                let error = json::get(Some(&v.json), "error");
                let from_default = match json::as_str(json::get(error, "provider")) {
                    Some(p) => text::same_text(p, "default"),
                    None => false,
                };
                let told = match json::as_str(json::get(error, "message")) {
                    Some(m) => m,
                    None => v.shown.as_str(),
                };
                let detail = if from_default {
                    "请求打到了 Codex default（ChatGPT），不是 LLM Gateway。必须用 llm-gateway-- 前缀的模型 id。".to_owned()
                } else {
                    show_http(v, told)
                };
                (step(false, "chat/completions", detail.as_str()), None)
            }
        },
        Err(e) => (step(false, "chat/completions", e.as_str()), None),
    }
}

/// The start of the check.
pub fn check_start(proxy: &str) -> (r: (CheckState, CheckAction))
    ensures
        r.0.proxy@ == proxy@,
        r.0.stage is Health,
        r.0@ == (CheckView {
            ok: true,
            steps: Seq::empty(),
            models: Seq::empty(),
            reply: None,
            proxy_down: false,
        }),
        sound(r.0.stage, r.0@),
        asks(r.1, CheckStage::Health, proxy@, Seq::empty()),
{
    let state = CheckState {
        proxy: proxy.to_owned(),
        stage: CheckStage::Health,
        ok: true,
        steps: Vec::new(),
        models: Vec::new(),
        reply: None,
        proxy_down: false,
    };
    assert(state@.steps == Seq::<StepView>::empty());
    assert(state@.models == Seq::<Seq<char>>::empty());
    let url = text::joined_pair(proxy, "/health");
    (state, CheckAction::Ask(Request::Get { url, secs: 5 }))
}

proof fn lemma_noted(c: CheckView, s: StepView)
    requires
        c.ok <==> all_ok(c.steps),
    ensures
        noted(c, s).ok <==> all_ok(noted(c, s).steps),
{
    let all = c.steps.push(s);
    if all_ok(c.steps) && s.ok {
        assert forall|i: int| 0 <= i < all.len() implies (#[trigger] all[i]).ok by {
            if i < c.steps.len() {
                assert(all[i] == c.steps[i]);
            }
        }
    }
    if all_ok(all) {
        assert forall|i: int| 0 <= i < c.steps.len() implies (#[trigger] c.steps[i]).ok by {
            assert(all[i] == c.steps[i]);
        }
        assert(all[c.steps.len() as int] == s);
    }
}

/// Each stage keeps what holds of the check.
proof fn lemma_sound(
    stage: CheckStage,
    c: CheckView,
    proxy: Seq<char>,
    x: Result<JsonReply, String>,
)
    requires
        sound(stage, c),
        !(stage is Over),
        !(stage is Config),
    ensures
        sound(stage_after(stage, x), after(stage, c, proxy, x)),
{
    lemma_noted(c, health_step(proxy, x));
    lemma_noted(c, status_step(x));
    lemma_noted(c, models_step(x));
    lemma_noted(c, chat_step(x));
    assert(gateway::model_ids(models_found(x)).len() == models_found(x).len());
}

/// One turn of the check: takes the outcome of the probe that was awaited, and says what to
/// do next. At the end it shows the result, which is well only where every step was.
pub fn check(state: CheckState, event: CheckEvent) -> (r: (CheckState, CheckAction))
    requires
        awaited(state.stage, event),
        sound(state.stage, state@),
    ensures
        r.0.proxy@ == state.proxy@,
        sound(r.0.stage, r.0@),
        match event {
            CheckEvent::Reply(x) => {
                &&& r.0.stage == stage_after(state.stage, x)
                &&& r.0@ == after(state.stage, state@, state.proxy@, x)
                &&& asks(
                    r.1,
                    r.0.stage,
                    state.proxy@,
                    gateway::default_id(models_found(x)),
                )
            },
            CheckEvent::Config { settings, cred } => {
                &&& r.0.stage is Over
                &&& r.0@ == state@
                &&& r.1 matches CheckAction::Done(res)
                &&& result_view(res) == state@
                &&& sound(CheckStage::Over, result_view(res))
                &&& res.has_provider == provider::provider_in(settings@)
                &&& res.has_key == credentials::key_in(cred@)
            },
        },
{
    let ghost c = state@;
    let mut state = state;
    let ghost proxy = state.proxy@;
    match event {
        CheckEvent::Config { settings, cred } => {
            let steps = copied_steps(&state.steps);
            let models = copied_texts(&state.models);
            let reply = match &state.reply {
                Some(t) => Some(t.clone()),
                None => None,
            };
            let res = AisCheckResult {
                ok: state.ok,
                steps,
                models,
                has_provider: provider::has_provider(settings.as_str()),
                has_key: credentials::has_key(cred.as_str()),
                reply,
                proxy_down: state.proxy_down,
            };
            state.stage = CheckStage::Over;
            (state, CheckAction::Done(res))
        },
        CheckEvent::Reply(x) => {
            let ghost old_steps = state.steps@;
            proof {
                lemma_sound(state.stage, c, proxy, x);
            }
            let mut id = String::new();
            match state.stage {
                CheckStage::Health => {
                    let s = check_health(state.proxy.as_str(), &x);
                    state.ok = state.ok && s.ok;
                    state.steps.push(s);
                    state.proxy_down = x.is_err();
                    state.stage = if is_refused(&x) {
                        CheckStage::Config
                    } else {
                        CheckStage::Status
                    };
                    assert(steps_view(state.steps@) == steps_view(old_steps).push(step_view(s)));
                },
                CheckStage::Status => {
                    let s = check_status(&x);
                    state.ok = state.ok && s.ok;
                    state.steps.push(s);
                    state.stage = CheckStage::Models;
                    assert(steps_view(state.steps@) == steps_view(old_steps).push(step_view(s)));
                },
                CheckStage::Models => {
                    let (s, gw) = check_models(&x);
                    state.ok = state.ok && s.ok;
                    state.steps.push(s);
                    state.models = gateway::ids(&gw);
                    id = gateway::pick_default_model(&gw);
                    assert(provider::model_pairs(gw@).len() == gw.len());
                    state.stage = if gw.len() > 0 {
                        CheckStage::Chat
                    } else {
                        CheckStage::Config
                    };
                    assert(steps_view(state.steps@) == steps_view(old_steps).push(step_view(s)));
                },
                CheckStage::Chat => {
                    let (s, reply) = check_chat(&x);
                    state.ok = state.ok && s.ok;
                    state.steps.push(s);
                    state.reply = reply;
                    state.stage = CheckStage::Config;
                    assert(steps_view(state.steps@) == steps_view(old_steps).push(step_view(s)));
                },
                CheckStage::Config => {},
                CheckStage::Over => {},
            }
            let action = match state.stage {
                CheckStage::Status => CheckAction::Ask(
                    Request::Get {
                        url: text::joined_pair(state.proxy.as_str(), "/status"),
                        secs: 5,
                    },
                ),
                CheckStage::Models => CheckAction::Ask(
                    gateway::models_request(state.proxy.as_str()),
                ),
                CheckStage::Chat => CheckAction::Ask(
                    Request::Post {
                        url: text::joined_pair(
                            state.proxy.as_str(),
                            "/codex/v1/chat/completions",
                        ),
                        payload: text::joined_three(
                            "{\"model\":\"",
                            id.as_str(),
                            "\",\"messages\":[{\"role\":\"user\",\"content\":\"ping\"}],\"stream\":false}",
                        ),
                        secs: 30,
                    },
                ),
                _ => CheckAction::ReadConfig,
            };
            (state, action)
        },
    }
}

fn copied_steps(v: &Vec<AisStep>) -> (r: Vec<AisStep>)
    ensures
        steps_view(r@) == steps_view(v@),
{
    let mut out: Vec<AisStep> = Vec::new();
    let mut i: usize = 0;
    while i < v.len()
        invariant
            i <= v.len(),
            steps_view(out@) == steps_view(v@).take(i as int),
        decreases v.len() - i,
    {
        let ghost was = out@;
        out.push(step(v[i].ok, v[i].name.as_str(), v[i].detail.as_str()));
        proof {
            let all = steps_view(v@);
            assert(all[i as int] == step_view(v@[i as int]));
            assert(steps_view(out@) == steps_view(was).push(all[i as int]));
            assert(all.take(i + 1) == all.take(i as int).push(all[i as int]));
        }
        i += 1;
    }
    assert(steps_view(v@).take(i as int) == steps_view(v@));
    out
}

fn copied_texts(v: &Vec<String>) -> (r: Vec<String>)
    ensures
        r@.map_values(|s: String| s@) == v@.map_values(|s: String| s@),
{
    let ghost all = v@.map_values(|s: String| s@);
    let mut out: Vec<String> = Vec::new();
    let mut i: usize = 0;
    while i < v.len()
        invariant
            i <= v.len(),
            all == v@.map_values(|s: String| s@),
            out@.map_values(|s: String| s@) == all.take(i as int),
        decreases v.len() - i,
    {
        let ghost was = out@;
        out.push(v[i].clone());
        proof {
            assert(all[i as int] == v@[i as int]@);
            assert(out@.map_values(|s: String| s@) == was.map_values(|s: String| s@).push(
                all[i as int],
            ));
            assert(all.take(i + 1) == all.take(i as int).push(all[i as int]));
        }
        i += 1;
    }
    assert(all.take(i as int) == all);
    out
}

/// What the whole check finds for the replies to its four probes.
pub open spec fn check_run(
    proxy: Seq<char>,
    health: Result<JsonReply, String>,
    status: Result<JsonReply, String>,
    models: Result<JsonReply, String>,
    chat: Result<JsonReply, String>,
) -> CheckView {
    let start = CheckView {
        ok: true,
        steps: Seq::empty(),
        models: Seq::empty(),
        reply: None,
        proxy_down: false,
    };
    let a = after(CheckStage::Health, start, proxy, health);
    if stage_after(CheckStage::Health, health) is Config {
        a
    } else {
        let b = after(CheckStage::Status, a, proxy, status);
        let c = after(CheckStage::Models, b, proxy, models);
        if stage_after(CheckStage::Models, models) is Chat {
            after(CheckStage::Chat, c, proxy, chat)
        } else {
            c
        }
    }
}

pub open spec fn answered(x: Result<JsonReply, String>) -> bool {
    x matches Ok(v) && v.status == 200
}

/// The check is well exactly where all four probes succeed: the gateway is reached and
/// runs, offers a model of its own, and that model answers. It says that the gateway is
/// down exactly where the first probe gets no reply, and a refused connection is its only
/// step.
pub proof fn law_check_run(
    proxy: Seq<char>,
    health: Result<JsonReply, String>,
    status: Result<JsonReply, String>,
    models: Result<JsonReply, String>,
    chat: Result<JsonReply, String>,
)
    ensures
        check_run(proxy, health, status, models, chat).ok <==> answered(health) && answered(status)
            && json::bool_of(json::field(status->Ok_0.json@, "running"@)) == Some(true)
            && models_found(models).len() > 0 && answered(chat),
        check_run(proxy, health, status, models, chat).proxy_down <==> health is Err,
        refused(health) ==> check_run(proxy, health, status, models, chat).steps.len() == 1,
        check_run(proxy, health, status, models, chat).ok ==> check_run(
            proxy,
            health,
            status,
            models,
            chat,
        ).reply == Some(answer(chat->Ok_0.json@)),
{
}

} // verus!
