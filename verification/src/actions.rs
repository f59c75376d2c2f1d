//! What the user can do with the gateway: set it up, refresh its models, remove it, open
//! its app. The files are read and written elsewhere; what to write is decided here.

use vstd::prelude::*;

use crate::credentials;
use crate::default_model;
use crate::gateway;
use crate::gateway::Request;
use crate::json::JsonReply;
use crate::outside_text;
use crate::provider;
use crate::provider::GatewayModel;
use crate::text;

verus! {

/// The outcome of an action.
pub struct AisActionResult {
    pub ok: bool,
    pub message: String,
    pub models: Vec<String>,
}

/// The outcome of an action.
pub struct ActionView {
    pub ok: bool,
    pub message: Seq<char>,
    pub models: Seq<Seq<char>>,
}

impl View for AisActionResult {
    type V = ActionView;

    open spec fn view(&self) -> ActionView {
        ActionView {
            ok: self.ok,
            message: self.message@,
            models: self.models@.map_values(|s: String| s@),
        }
    }
}

/// The files of the configuration. A file that cannot be read is empty; of the kept default
/// model `saved` is nothing where it cannot be read.
pub struct ConfigFiles {
    pub settings: String,
    pub settings_exists: bool,
    pub cred: String,
    pub cred_exists: bool,
    pub saved: Option<String>,
    pub saved_exists: bool,
}

/// A change to the files.
pub enum ConfigWrite {
    /// Write the settings.
    Settings(String),
    /// Write the credentials, for the owner only.
    Credentials(String),
    /// Keep the default model, for the owner only.
    SaveDefault(String),
    /// Drop the kept default model.
    DropDefault,
}

/// A change to the files.
pub enum WriteView {
    Settings(Seq<char>),
    Credentials(Seq<char>),
    SaveDefault(Seq<char>),
    DropDefault,
}

impl View for ConfigWrite {
    type V = WriteView;

    open spec fn view(&self) -> WriteView {
        match self {
            ConfigWrite::Settings(s) => WriteView::Settings(s@),
            ConfigWrite::Credentials(s) => WriteView::Credentials(s@),
            ConfigWrite::SaveDefault(s) => WriteView::SaveDefault(s@),
            ConfigWrite::DropDefault => WriteView::DropDefault,
        }
    }
}

impl ConfigWrite {
    /// The same change.
    pub fn copied(&self) -> (r: ConfigWrite)
        ensures
            r@ == self@,
    {
        match self {
            ConfigWrite::Settings(s) => ConfigWrite::Settings(s.clone()),
            ConfigWrite::Credentials(s) => ConfigWrite::Credentials(s.clone()),
            ConfigWrite::SaveDefault(s) => ConfigWrite::SaveDefault(s.clone()),
            ConfigWrite::DropDefault => ConfigWrite::DropDefault,
        }
    }

    /// The permissions with which the file is written, where they are fixed.
    pub fn mode(&self) -> (r: Option<u32>)
        ensures
            r == (match self@ {
                WriteView::Settings(_) => None,
                WriteView::DropDefault => None,
                _ => Some(0o600u32),
            }),
    {
        match self {
            ConfigWrite::Settings(_) => None,
            ConfigWrite::DropDefault => None,
            _ => Some(0o600),
        }
    }
}

pub open spec fn writes(v: Seq<ConfigWrite>) -> Seq<WriteView> {
    v.map_values(|w: ConfigWrite| w@)
}

/// The settings that a setup writes.
pub open spec fn setup_settings(
    settings: Seq<char>,
    proxy: Seq<char>,
    models: Seq<(Seq<char>, Seq<char>)>,
    set_default: bool,
) -> Seq<char> {
    let s = provider::with_provider(settings, proxy, models);
    if set_default {
        default_model::with_default_model(s, gateway::default_id(models))
    } else {
        s
    }
}

/// The credentials that a setup writes.
pub open spec fn setup_cred(cred: Seq<char>, exists: bool) -> Seq<char> {
    credentials::with_key(
        if exists {
            cred
        } else {
            "version: 1\nrefs:\n"@
        },
    )
}

/// What a setup writes: the default model is kept first, unless one is kept already.
pub open spec fn setup_plan(
    f: ConfigFiles,
    proxy: Seq<char>,
    models: Seq<(Seq<char>, Seq<char>)>,
    set_default: bool,
) -> Seq<WriteView> {
    (if set_default && !f.saved_exists {
        seq![
            WriteView::SaveDefault(
                default_model::saved_default(
                    provider::with_provider(f.settings@, proxy, models),
                ),
            ),
        ]
    } else {
        Seq::empty()
    }) + seq![
        WriteView::Settings(setup_settings(f.settings@, proxy, models, set_default)),
        WriteView::Credentials(setup_cred(f.cred@, f.cred_exists)),
    ]
}

/// The settings that a removal leaves.
pub open spec fn removed_settings(settings: Seq<char>, saved: Option<Seq<char>>) -> Seq<char> {
    default_model::restored(saved, provider::without_provider(settings))
}

/// The credentials that a removal leaves.
pub open spec fn removed_cred(cred: Seq<char>) -> Seq<char> {
    let c = credentials::without_key(cred);
    if text::blank(c) {
        "version: 1\nrefs:\n"@
    } else {
        c
    }
}

pub open spec fn text_view(s: Option<String>) -> Option<Seq<char>> {
    match s {
        Some(t) => Some(t@),
        None => None,
    }
}

/// What a removal writes: the settings unless there were none and none are left, the
/// credentials where there were some; then the kept default model is dropped.
pub open spec fn remove_plan(f: ConfigFiles) -> Seq<WriteView> {
    let s = removed_settings(f.settings@, text_view(f.saved));
    (if f.settings_exists || !text::blank(s) {
        seq![WriteView::Settings(s)]
    } else {
        Seq::empty()
    }) + (if f.cred_exists {
        seq![WriteView::Credentials(removed_cred(f.cred@))]
    } else {
        Seq::empty()
    }) + seq![WriteView::DropDefault]
}

/// What a setup writes.
pub fn apply_setup(
    f: &ConfigFiles,
    proxy: &str,
    models: &Vec<GatewayModel>,
    set_default: bool,
) -> (r: Vec<ConfigWrite>)
    ensures
        writes(r@) == setup_plan(*f, proxy@, provider::model_pairs(models@), set_default),
{
    let mut out: Vec<ConfigWrite> = Vec::new();
    let mut settings = provider::upsert_ais_codex_provider(f.settings.as_str(), proxy, models);
    if set_default {
        match default_model::save_default_model_backup(f.saved_exists, settings.as_str()) {
            Some(b) => {
                out.push(ConfigWrite::SaveDefault(b));
            },
            None => {},
        }
        let id = gateway::pick_default_model(models);
        settings = default_model::upsert_default_model(settings.as_str(), id.as_str());
    }
    let cred = if f.cred_exists {
        credentials::upsert_credential(f.cred.as_str())
    } else {
        credentials::upsert_credential("version: 1\nrefs:\n")
    };
    out.push(ConfigWrite::Settings(settings));
    out.push(ConfigWrite::Credentials(cred));
    assert(writes(out@) == setup_plan(*f, proxy@, provider::model_pairs(models@), set_default));
    out
}

/// What a removal writes.
pub fn apply_remove(f: &ConfigFiles) -> (r: Vec<ConfigWrite>)
    ensures
        writes(r@) == remove_plan(*f),
{
    let mut out: Vec<ConfigWrite> = Vec::new();
    let without = provider::remove_ais_codex_provider(f.settings.as_str());
    let saved = match &f.saved {
        Some(s) => Some(s.as_str()),
        None => None,
    };
    let settings = default_model::restore_default_model(true, saved, without.as_str());
    if f.settings_exists || !text::is_blank(settings.as_str()) {
        out.push(ConfigWrite::Settings(settings));
    }
    if f.cred_exists {
        let cred = credentials::remove_credential(f.cred.as_str());
        if text::is_blank(cred.as_str()) {
            out.push(ConfigWrite::Credentials("version: 1\nrefs:\n".to_owned()));
        } else {
            out.push(ConfigWrite::Credentials(cred));
        }
    }
    out.push(ConfigWrite::DropDefault);
    assert(writes(out@) == remove_plan(*f));
    out
}

/// The changes that are still to be made, and what to report at the end.
pub struct Writing {
    pub queue: Vec<ConfigWrite>,
    pub next: usize,
    pub message: String,
    pub models: Vec<String>,
    pub shown: Vec<String>,
}

/// How far an action has come.
pub enum TaskStage {
    /// The configuration is to be locked.
    Locking,
    /// The files are to be read.
    Reading(Vec<GatewayModel>),
    /// The gateway is asked for its models; the settings are those read before.
    Asking(String),
    /// The files are being written.
    Writing(Writing),
    Over,
}

/// What came of what was to be done.
pub enum TaskEvent {
    Locked(Result<(), String>),
    Files(Result<ConfigFiles, String>),
    Reply(Result<JsonReply, String>),
    Written(Result<(), String>),
}

/// What to do next.
pub enum TaskAction {
    ReadFiles,
    Ask(Request),
    Write(ConfigWrite),
    Done(AisActionResult),
}

/// The event is what the stage awaits.
pub open spec fn awaited(stage: TaskStage, event: TaskEvent) -> bool {
    match stage {
        TaskStage::Locking => event is Locked,
        TaskStage::Reading(_) => event is Files,
        TaskStage::Asking(_) => event is Reply,
        TaskStage::Writing(w) => event is Written && w.next < w.queue.len(),
        TaskStage::Over => false,
    }
}

pub open spec fn failed(message: Seq<char>, models: Seq<Seq<char>>) -> ActionView {
    ActionView { ok: false, message, models }
}

/// The action ends with `want`.
pub open spec fn ends(r: (TaskStage, TaskAction), want: ActionView) -> bool {
    &&& r.0 is Over
    &&& r.1 matches TaskAction::Done(x)
    &&& x@ == want
}

/// The models are asked for.
pub open spec fn asks_models(a: TaskAction, proxy: Seq<char>) -> bool {
    a matches TaskAction::Ask(Request::Get { url, secs }) && url@ == proxy + "/codex/v1/models"@
        && secs == 8
}

/// The changes `plan` are begun: the first is asked for. Where one fails `models` are
/// reported with the error, and where all are made `message` with the models `shown`.
pub open spec fn begins(
    r: (TaskStage, TaskAction),
    plan: Seq<WriteView>,
    message: Seq<char>,
    models: Seq<Seq<char>>,
    shown: Seq<Seq<char>>,
) -> bool {
    &&& r.0 matches TaskStage::Writing(w)
    &&& writes(w.queue@) == plan
    &&& plan.len() > 0
    &&& w.next == 0
    &&& w.message@ == message
    &&& w.models@.map_values(|s: String| s@) == models
    &&& w.shown@.map_values(|s: String| s@) == shown
    &&& r.1 matches TaskAction::Write(x)
    &&& x@ == plan[0]
}

/// One change was made or failed: a failure ends the action, except that of dropping the
/// kept default model; else the next change is asked for, or the end is reported.
pub open spec fn goes_on(w: Writing, e: Result<(), String>, r: (TaskStage, TaskAction)) -> bool {
    let plan = writes(w.queue@);
    if e is Err && !(plan[w.next as int] is DropDefault) {
        ends(r, failed(e->Err_0@, w.models@.map_values(|s: String| s@)))
    } else if w.next + 1 < plan.len() {
        &&& r.0 matches TaskStage::Writing(v)
        &&& writes(v.queue@) == plan
        &&& v.next == w.next + 1
        &&& v.message@ == w.message@
        &&& v.models == w.models
        &&& v.shown == w.shown
        &&& r.1 matches TaskAction::Write(x)
        &&& x@ == plan[w.next + 1]
    } else {
        ends(
            r,
            ActionView {
                ok: true,
                message: w.message@,
                models: w.shown@.map_values(|s: String| s@),
            },
        )
    }
}

fn end(ok: bool, message: String, models: Vec<String>) -> (r: (TaskStage, TaskAction))
    ensures
        ends(
            r,
            ActionView { ok, message: message@, models: models@.map_values(|s: String| s@) },
        ),
{
    (TaskStage::Over, TaskAction::Done(AisActionResult { ok, message, models }))
}

fn fail(message: String) -> (r: (TaskStage, TaskAction))
    ensures
        ends(r, failed(message@, Seq::empty())),
{
    let none: Vec<String> = Vec::new();
    assert(none@.map_values(|s: String| s@) == Seq::<Seq<char>>::empty());
    end(false, message, none)
}

fn begin(
    queue: Vec<ConfigWrite>,
    message: String,
    models: Vec<String>,
    shown: Vec<String>,
) -> (r: (TaskStage, TaskAction))
    requires
        queue.len() > 0,
    ensures
        begins(
            r,
            writes(queue@),
            message@,
            models@.map_values(|s: String| s@),
            shown@.map_values(|s: String| s@),
        ),
{
    let first = queue[0].copied();
    assert(writes(queue@)[0] == queue@[0]@);
    (
        TaskStage::Writing(Writing { queue, next: 0, message, models, shown }),
        TaskAction::Write(first),
    )
}

fn go_on(w: Writing, e: Result<(), String>) -> (r: (TaskStage, TaskAction))
    requires
        w.next < w.queue.len(),
    ensures
        goes_on(w, e, r),
{
    let drops = match w.queue[w.next] {
        ConfigWrite::DropDefault => true,
        _ => false,
    };
    assert(writes(w.queue@)[w.next as int] == w.queue@[w.next as int]@);
    match e {
        Err(m) => {
            if !drops {
                return end(false, m, w.models);
            }
        },
        Ok(_) => {},
    }
    let next = w.next + 1;
    if next < w.queue.len() {
        let x = w.queue[next].copied();
        assert(writes(w.queue@)[next as int] == w.queue@[next as int]@);
        (
            TaskStage::Writing(
                Writing {
                    queue: w.queue,
                    next,
                    message: w.message,
                    models: w.models,
                    shown: w.shown,
                },
            ),
            TaskAction::Write(x),
        )
    } else {
        end(true, w.message, w.shown)
    }
}

/// What a setup reports at the end.
pub open spec fn setup_message(n: nat, set_default: bool) -> Seq<char> {
    "已写入 ais-codex（"@ + text::decimal(n)
        + " 个模型）。保持 AIS Switch 开着，新开会话后选 llm-gateway--deepseek-v4-flash。"@ + (
    if set_default {
        " 已把默认模型切到 Gateway Flash。"@
    } else {
        " 未改默认模型。"@
    })
}

/// What a refresh reports at the end.
pub open spec fn refresh_message(n: nat) -> Seq<char> {
    "已刷新 "@ + text::decimal(n)
        + " 个 Gateway 模型（未改默认模型 / 凭据）。新开会话后生效。"@
}

/// One turn of setting the gateway up: lock, ask for the models, read the files, write them.
pub fn setup(
    set_default: bool,
    proxy: &str,
    stage: TaskStage,
    event: TaskEvent,
) -> (r: (TaskStage, TaskAction))
    requires
        awaited(stage, event),
    ensures
        match (stage, event) {
            (TaskStage::Locking, TaskEvent::Locked(e)) => match e {
                Ok(_) => r.0 is Asking && asks_models(r.1, proxy@),
                Err(m) => ends(r, failed(m@, Seq::empty())),
            },
            (TaskStage::Asking(_), TaskEvent::Reply(x)) => match gateway::gateway_or_err(
                proxy@,
                x,
            ) {
                Ok(gw) => r.0 matches TaskStage::Reading(m) && provider::model_pairs(m@) == gw
                    && r.1 is ReadFiles,
                Err(m) => ends(r, failed(m, Seq::empty())),
            },
            (TaskStage::Reading(m), TaskEvent::Files(f)) => {
                let gw = provider::model_pairs(m@);
                match f {
                    Ok(f) => begins(
                        r,
                        setup_plan(f, proxy@, gw, set_default),
                        setup_message(gw.len(), set_default),
                        gateway::model_ids(gw),
                        gateway::model_ids(gw),
                    ),
                    Err(e) => ends(r, failed(e@, gateway::model_ids(gw))),
                }
            },
            (TaskStage::Writing(w), TaskEvent::Written(e)) => goes_on(w, e, r),
            _ => true,
        },
{
    match (stage, event) {
        (TaskStage::Locking, TaskEvent::Locked(e)) => match e {
            Ok(_) => (
                TaskStage::Asking(String::new()),
                TaskAction::Ask(gateway::models_request(proxy)),
            ),
            Err(m) => fail(m),
        },
        (TaskStage::Asking(_), TaskEvent::Reply(x)) => match gateway::fetch_gateway_or_err(
            proxy,
            &x,
        ) {
            Ok(gw) => (TaskStage::Reading(gw), TaskAction::ReadFiles),
            Err(m) => fail(m),
        },
        (TaskStage::Reading(m), TaskEvent::Files(f)) => match f {
            Ok(f) => {
                let queue = apply_setup(&f, proxy, &m, set_default);
                assert(provider::model_pairs(m@).len() == m.len());
                assert(writes(queue@).len() == queue.len());
                let mut message = text::joined_three(
                    "已写入 ais-codex（",
                    text::show_number(m.len() as u64).as_str(),
                    " 个模型）。保持 AIS Switch 开着，新开会话后选 llm-gateway--deepseek-v4-flash。",
                );
                if set_default {
                    message.append(" 已把默认模型切到 Gateway Flash。");
                } else {
                    message.append(" 未改默认模型。");
                }
                begin(queue, message, gateway::ids(&m), gateway::ids(&m))
            },
            Err(e) => end(false, e, gateway::ids(&m)),
        },
        (TaskStage::Writing(w), TaskEvent::Written(e)) => go_on(w, e),
        _ => fail(String::new()),
    }
}

/// One turn of refreshing the models: lock, read the files, ask for the models, write the
/// settings. Settings without the gateway's entry end it before anything is asked.
pub fn refresh(proxy: &str, stage: TaskStage, event: TaskEvent) -> (r: (TaskStage, TaskAction))
    requires
        awaited(stage, event),
    ensures
        match (stage, event) {
            (TaskStage::Locking, TaskEvent::Locked(e)) => match e {
                Ok(_) => r.0 matches TaskStage::Reading(m) && m.len() == 0 && r.1 is ReadFiles,
                Err(m) => ends(r, failed(m@, Seq::empty())),
            },
            (TaskStage::Reading(_), TaskEvent::Files(f)) => match f {
                Ok(f) => if provider::provider_in(f.settings@) {
                    r.0 matches TaskStage::Asking(s) && s@ == f.settings@ && asks_models(
                        r.1,
                        proxy@,
                    )
                } else {
                    ends(
                        r,
                        failed("本地还没有 ais-codex，请先点「接入」。"@, Seq::empty()),
                    )
                },
                Err(_) => ends(
                    r,
                    failed("本地还没有 ais-codex，请先点「接入」。"@, Seq::empty()),
                ),
            },
            (TaskStage::Asking(s), TaskEvent::Reply(x)) => match gateway::gateway_or_err(
                proxy@,
                x,
            ) {
                Ok(gw) => begins(
                    r,
                    seq![WriteView::Settings(provider::with_provider(s@, proxy@, gw))],
                    refresh_message(gw.len()),
                    gateway::model_ids(gw),
                    gateway::model_ids(gw),
                ),
                Err(m) => ends(r, failed(m, Seq::empty())),
            },
            (TaskStage::Writing(w), TaskEvent::Written(e)) => goes_on(w, e, r),
            _ => true,
        },
{
    match (stage, event) {
        (TaskStage::Locking, TaskEvent::Locked(e)) => match e {
            Ok(_) => (TaskStage::Reading(Vec::new()), TaskAction::ReadFiles),
            Err(m) => fail(m),
        },
        (TaskStage::Reading(_), TaskEvent::Files(f)) => {
            match f {
                Ok(f) => {
                    if provider::has_provider(f.settings.as_str()) {
                        return (
                            TaskStage::Asking(f.settings),
                            TaskAction::Ask(gateway::models_request(proxy)),
                        );
                    }
                },
                Err(_) => {},
            }
            fail("本地还没有 ais-codex，请先点「接入」。".to_owned())
        },
        (TaskStage::Asking(s), TaskEvent::Reply(x)) => match gateway::fetch_gateway_or_err(
            proxy,
            &x,
        ) {
            Ok(gw) => {
                let next = provider::upsert_ais_codex_provider(s.as_str(), proxy, &gw);
                let mut queue: Vec<ConfigWrite> = Vec::new();
                queue.push(ConfigWrite::Settings(next));
                assert(provider::model_pairs(gw@).len() == gw.len());
                assert(writes(queue@) == seq![WriteView::Settings(next@)]);
                let message = text::joined_three(
                    "已刷新 ",
                    text::show_number(gw.len() as u64).as_str(),
                    " 个 Gateway 模型（未改默认模型 / 凭据）。新开会话后生效。",
                );
                begin(queue, message, gateway::ids(&gw), gateway::ids(&gw))
            },
            Err(m) => fail(m),
        },
        (TaskStage::Writing(w), TaskEvent::Written(e)) => go_on(w, e),
        _ => fail(String::new()),
    }
}

/// One turn of removing the gateway: lock, read the files, write them.
pub fn remove(stage: TaskStage, event: TaskEvent) -> (r: (TaskStage, TaskAction))
    requires
        awaited(stage, event),
        !(stage is Asking),
    ensures
        match (stage, event) {
            (TaskStage::Locking, TaskEvent::Locked(e)) => match e {
                Ok(_) => r.0 matches TaskStage::Reading(m) && m.len() == 0 && r.1 is ReadFiles,
                Err(m) => ends(r, failed(m@, Seq::empty())),
            },
            (TaskStage::Reading(_), TaskEvent::Files(f)) => match f {
                Ok(f) => begins(
                    r,
                    remove_plan(f),
                    "已移除 ais-codex 与 AIS_CODEX_API_KEY。官方 DEEPSEEK_API_KEY 未动；默认模型已还原（若接入时设为默认）。新开会话后生效。"@,
                    Seq::empty(),
                    Seq::empty(),
                ),
                Err(e) => ends(r, failed(e@, Seq::empty())),
            },
            (TaskStage::Writing(w), TaskEvent::Written(e)) => goes_on(w, e, r),
            _ => true,
        },
{
    match (stage, event) {
        (TaskStage::Locking, TaskEvent::Locked(e)) => match e {
            Ok(_) => (TaskStage::Reading(Vec::new()), TaskAction::ReadFiles),
            Err(m) => fail(m),
        },
        (TaskStage::Reading(_), TaskEvent::Files(f)) => match f {
            Ok(f) => {
                let queue = apply_remove(&f);
                assert(writes(queue@).len() == queue.len());
                let none: Vec<String> = Vec::new();
                let also: Vec<String> = Vec::new();
                assert(none@.map_values(|s: String| s@) == Seq::<Seq<char>>::empty());
                assert(also@.map_values(|s: String| s@) == Seq::<Seq<char>>::empty());
                begin(
                    queue,
                    "已移除 ais-codex 与 AIS_CODEX_API_KEY。官方 DEEPSEEK_API_KEY 未动；默认模型已还原（若接入时设为默认）。新开会话后生效。".to_owned(),
                    none,
                    also,
                )
            },
            Err(e) => fail(e),
        },
        (TaskStage::Writing(w), TaskEvent::Written(e)) => go_on(w, e),
        _ => fail(String::new()),
    }
}

/// What running a program gave: why it could not be run, or what it complained of and
/// whether it succeeded.
pub enum OpenOutcome {
    NotRun(String),
    Ran { stderr: Vec<u8>, success: bool },
}

/// What opening the app reports.
pub open spec fn open_view(o: OpenOutcome) -> ActionView {
    match o {
        OpenOutcome::NotRun(e) => failed("无法执行 open: "@ + e@, Seq::empty()),
        OpenOutcome::Ran { stderr, success } => {
            let err = outside_text::lossy(stderr@);
            if success {
                ActionView {
                    ok: true,
                    message: "已打开 AIS Switch。请确认 Codex 路由已开，然后点「体检」。"@,
                    models: Seq::empty(),
                }
            } else if text::blank(err) {
                failed(
                    "打不开 AIS Switch，请确认已安装到 /Applications。"@,
                    Seq::empty(),
                )
            } else {
                failed("打不开 AIS Switch："@ + text::trimmed(err), Seq::empty())
            }
        },
    }
}

/// What opening the app reports.
pub fn open_app(o: &OpenOutcome) -> (r: AisActionResult)
    ensures
        r@ == open_view(*o),
{
    let none: Vec<String> = Vec::new();
    assert(none@.map_values(|s: String| s@) == Seq::<Seq<char>>::empty());
    match o {
        OpenOutcome::NotRun(e) => AisActionResult {
            ok: false,
            message: text::joined_pair("无法执行 open: ", e.as_str()),
            models: none,
        },
        OpenOutcome::Ran { stderr, success } => {
            if *success {
                return AisActionResult {
                    ok: true,
                    message: "已打开 AIS Switch。请确认 Codex 路由已开，然后点「体检」。".to_owned(),
                    models: none,
                };
            }
            let err = outside_text::lossy_text(stderr);
            let message = if text::is_blank(err.as_str()) {
                "打不开 AIS Switch，请确认已安装到 /Applications。".to_owned()
            } else {
                text::joined_pair("打不开 AIS Switch：", text::trim(err.as_str()).as_str())
            };
            AisActionResult { ok: false, message, models: none }
        },
    }
}

} // verus!
