use dsh_harness::actions::{
    apply_remove, apply_setup, open_app, refresh, remove, setup, AisActionResult, ConfigFiles, ConfigWrite, OpenOutcome,
    TaskAction, TaskEvent, TaskStage,
};
use dsh_harness::check::{check, check_start, AisCheckResult, CheckAction, CheckEvent};
use dsh_harness::files::{
    backup_name, config_home_display, credentials_path, default_model_backup_path, dsh_home,
    lock_path, settings_path, temp_name, write_failed, write_with_backup, WriteFailure, WriteStep,
};
use dsh_harness::gateway::{curl_json, CurlOutcome, Request, DEFAULT_PROXY};
use dsh_harness::json::JsonReply;
use dsh_harness::provider::{GatewayModel, PROVIDER_ID};

const MODELS: &str = r#"{"data":[{"id":"llm-gateway--deepseek-v4-flash","cc_switch":{"upstream_model":"deepseek-v4-flash"}},{"id":"llm-gateway--glm-5.2","cc_switch":{"upstream_model":"glm-5.2"}}]}"#;

fn reply(body: &str) -> Result<JsonReply, String> {
    let stdout = format!("{body}\n__HTTP__200").into_bytes();
    curl_json(&CurlOutcome::Ran { stdout, stderr: vec![], success: true })
}

fn models() -> Result<JsonReply, String> {
    reply(MODELS)
}

/// The files, as a disk would hold them.
struct Disk {
    settings: Option<String>,
    cred: Option<String>,
    saved: Option<String>,
}

impl Disk {
    fn files(&self) -> ConfigFiles {
        ConfigFiles {
            settings: self.settings.clone().unwrap_or_default(),
            settings_exists: self.settings.is_some(),
            cred: self.cred.clone().unwrap_or_default(),
            cred_exists: self.cred.is_some(),
            saved: self.saved.clone(),
            saved_exists: self.saved.is_some(),
        }
    }

    fn write(&mut self, w: ConfigWrite) {
        match w {
            ConfigWrite::Settings(s) => self.settings = Some(s),
            ConfigWrite::Credentials(s) => self.cred = Some(s),
            ConfigWrite::SaveDefault(s) => self.saved = Some(s),
            ConfigWrite::DropDefault => self.saved = None,
        }
    }

    fn check(&self) -> AisCheckResult {
        let (mut state, mut action) = check_start(DEFAULT_PROXY);
        loop {
            let event = match action {
                CheckAction::Done(r) => return r,
                CheckAction::ReadConfig => CheckEvent::Config {
                    settings: self.settings.clone().unwrap_or_default(),
                    cred: self.cred.clone().unwrap_or_default(),
                },
                CheckAction::Ask(Request::Get { url, .. }) => CheckEvent::Reply(reply(match url.as_str() {
                    "http://127.0.0.1:15721/health" => r#"{"ok":true}"#,
                    "http://127.0.0.1:15721/status" => r#"{"running":true,"port":15721}"#,
                    "http://127.0.0.1:15721/codex/v1/models" => MODELS,
                    other => panic!("asked {other}"),
                })),
                CheckAction::Ask(Request::Post { url, .. }) => {
                    assert_eq!(url, "http://127.0.0.1:15721/codex/v1/chat/completions");
                    CheckEvent::Reply(reply(r#"{"choices":[{"message":{"content":"pong"}}]}"#))
                }
            };
            (state, action) = check(state, event);
        }
    }

    fn run(&mut self, turn: impl Fn(TaskStage, TaskEvent) -> (TaskStage, TaskAction)) -> AisActionResult {
        let mut now = turn(TaskStage::Locking, TaskEvent::Locked(Ok(())));
        loop {
            let (stage, action) = now;
            let event = match action {
                TaskAction::Done(r) => return r,
                TaskAction::ReadFiles => TaskEvent::Files(Ok(self.files())),
                TaskAction::Ask(Request::Get { url, secs }) => {
                    assert_eq!((url.as_str(), secs), ("http://127.0.0.1:15721/codex/v1/models", 8));
                    TaskEvent::Reply(models())
                }
                TaskAction::Ask(_) => panic!("posted"),
                TaskAction::Write(w) => {
                    self.write(w);
                    TaskEvent::Written(Ok(()))
                }
            };
            now = turn(stage, event);
        }
    }
}

fn set_up(set_default: bool) -> impl Fn(TaskStage, TaskEvent) -> (TaskStage, TaskAction) {
    move |s, e| setup(set_default, DEFAULT_PROXY, s, e)
}

#[test]
fn integration_check_setup_refresh_remove() {
    let before = [
        "ui-theme:\n",
        "  preference: system\n",
        "\n",
        "llm-pi-ai:\n",
        "  providers:\n",
        "    other:\n",
        "      api: openai-completions\n",
        "      baseURL: http://example.invalid/v1\n",
        "\n",
        "agent-default-model:\n",
        "  provider: deepseek-official\n",
        "  model: deepseek-v4-flash\n",
        "  reasoningEffort: high\n",
    ]
    .concat();
    let mut disk = Disk {
        settings: Some(before.clone()),
        cred: Some("version: 1\nrefs:\n  DEEPSEEK_API_KEY: sk-test\n".to_string()),
        saved: None,
    };

    let r = disk.check();
    assert!(r.ok);
    assert_eq!(r.models.len(), 2);
    assert!(!r.proxy_down);
    assert_eq!(r.reply.as_deref(), Some("pong"));
    assert!(!r.has_provider);

    let s = disk.run(set_up(true));
    assert!(s.ok, "setup: {}", s.message);
    let after = disk.settings.clone().unwrap();
    assert_eq!(after.matches(&format!("    {PROVIDER_ID}:")).count(), 1);
    assert!(after.contains("provider: ais-codex"));
    assert!(after.contains("    other:"));
    let cred = disk.cred.clone().unwrap();
    assert!(cred.contains("AIS_CODEX_API_KEY"));
    assert!(disk.saved.clone().unwrap().contains("deepseek-official"));

    let s2 = disk.run(set_up(true));
    assert!(s2.ok, "setup2: {}", s2.message);
    let after2 = disk.settings.clone().unwrap();
    assert_eq!(after2.matches(&format!("    {PROVIDER_ID}:")).count(), 1);
    assert_eq!(after2, after);
    assert!(disk.saved.clone().unwrap().contains("deepseek-official"));

    let r = disk.run(|s, e| refresh(DEFAULT_PROXY, s, e));
    assert!(r.ok, "refresh: {}", r.message);
    let after3 = disk.settings.clone().unwrap();
    assert_eq!(after3.matches(&format!("    {PROVIDER_ID}:")).count(), 1);
    assert!(after3.contains("llm-gateway--glm-5.2"));

    let r = disk.run(remove);
    assert!(r.ok, "remove: {}", r.message);
    let after4 = disk.settings.clone().unwrap();
    assert!(!after4.contains(PROVIDER_ID));
    assert!(after4.contains("    other:"));
    assert!(after4.contains("provider: deepseek-official"));
    assert_eq!(after4, before);
    let cred4 = disk.cred.clone().unwrap();
    assert!(!cred4.contains("AIS_CODEX_API_KEY"));
    assert!(cred4.contains("sk-test"));
    assert!(disk.saved.is_none());
}

fn set_up_times(settings: &str, times: usize) -> String {
    let mut disk = Disk { settings: Some(settings.to_string()), cred: None, saved: None };
    for _ in 0..times {
        assert!(disk.run(set_up(true)).ok);
    }
    disk.settings.unwrap()
}

#[test]
fn setting_up_again_changes_nothing() {
    for s in [
        "\n\nagent-default-model:\n  provider: p\n",
        "llm-pi-ai:\n  providers:\n    other:\n      api: x\n\n\n",
        "llm-pi-ai:\n  providers:\n    ais-codex:\n      api: x\nb: 1",
    ] {
        assert_eq!(set_up_times(s, 2), set_up_times(s, 1));
    }
    let s = "a: 1\n";
    assert_ne!(set_up_times(s, 2), set_up_times(s, 1));
    assert_eq!(set_up_times(s, 3), set_up_times(s, 2));
}

fn named(ids: &[&str]) -> Vec<GatewayModel> {
    ids.iter().map(|id| GatewayModel { id: id.to_string(), name: id.to_string() }).collect()
}

impl Disk {
    fn set_up_with(&mut self, ids: &[&str]) {
        for w in apply_setup(&self.files(), DEFAULT_PROXY, &named(ids), true) {
            self.write(w);
        }
    }

    fn removed(&mut self) {
        for w in apply_remove(&self.files()) {
            self.write(w);
        }
    }
}

#[test]
fn setting_up_with_other_models_leaves_one_entry() {
    for s in ["", "a: 1\n", "a: 1", "llm-pi-ai:\n  providers:\n    other:\n      api: x\n\nagent-default-model:\n  provider: p\n"] {
        let mut disk = Disk { settings: Some(s.to_string()), cred: Some("refs:\n".to_string()), saved: None };
        disk.set_up_with(&["m"]);
        let cred = disk.cred.clone();
        let saved = disk.saved.clone();
        let count = |d: &Disk| d.settings.as_ref().unwrap().lines().filter(|l| l.starts_with("    ais-codex:")).count();
        assert_eq!(count(&disk), 1);
        disk.set_up_with(&["n", "o"]);
        assert_eq!(count(&disk), 1);
        assert!(disk.settings.clone().unwrap().contains("  model: n\n"));
        assert!(!disk.settings.clone().unwrap().contains("- id: m\n"));
        assert_eq!(disk.cred, cred);
        assert_eq!(disk.saved, saved);
        assert_eq!(saved.unwrap().trim_end(), s.find("agent").map(|i| s[i..].trim_end()).unwrap_or(""));
    }
}

#[test]
fn removal_gives_the_files_back() {
    for s in [
        "llm-pi-ai:\n  providers:\n    other:\n      api: x\n",
        "# head\nllm-pi-ai:\n  providers:\n    other:\n      api: x\n\nb: 1\n",
        "agent-default-model:\n  provider: p\n\nllm-pi-ai:\n  providers:\n    o:\n    p:\nb: 1\n",
    ] {
        let cred = "version: 1\nrefs:\n  DEEPSEEK_API_KEY: sk-test\n";
        let mut disk = Disk { settings: Some(s.to_string()), cred: Some(cred.to_string()), saved: None };
        disk.set_up_with(&["m"]);
        assert!(disk.saved.is_some());
        disk.removed();
        assert_eq!(disk.settings.as_deref(), Some(s));
        assert_eq!(disk.cred.as_deref(), Some(cred));
        assert!(disk.saved.is_none());
    }
}

#[test]
fn setup_reports_what_it_wrote() {
    let mut disk = Disk { settings: None, cred: None, saved: None };
    let r = disk.run(set_up(false));
    assert_eq!(r.message, "已写入 ais-codex（2 个模型）。保持 AIS Switch 开着，新开会话后选 llm-gateway--deepseek-v4-flash。 未改默认模型。");
    assert_eq!(r.models, vec!["llm-gateway--deepseek-v4-flash", "llm-gateway--glm-5.2"]);
    assert_eq!(disk.cred.as_deref(), Some("version: 1\nrefs:\n  AIS_CODEX_API_KEY: local\n"));
    assert!(disk.saved.is_none());
    let r = disk.run(set_up(true));
    assert!(r.message.ends_with(" 已把默认模型切到 Gateway Flash。"));
    assert_eq!(disk.saved.as_deref(), Some(""));
    let r = disk.run(|s, e| refresh(DEFAULT_PROXY, s, e));
    assert_eq!(r.message, "已刷新 2 个 Gateway 模型（未改默认模型 / 凭据）。新开会话后生效。");
    let r = disk.run(remove);
    assert!(r.ok && r.models.is_empty());
    assert_eq!(disk.settings.as_deref(), Some("\n"));
    assert_eq!(disk.cred.as_deref(), Some("version: 1\nrefs:\n"));
}

#[test]
fn refresh_needs_the_entry() {
    let mut disk = Disk { settings: Some("a: 1\n".to_string()), cred: None, saved: None };
    let r = disk.run(|s, e| refresh(DEFAULT_PROXY, s, e));
    assert!(!r.ok);
    assert_eq!(r.message, "本地还没有 ais-codex，请先点「接入」。");
    assert_eq!(disk.settings.as_deref(), Some("a: 1\n"));
}

#[test]
fn removal_writes_only_what_was_there() {
    let mut disk = Disk { settings: None, cred: None, saved: Some("x".to_string()) };
    assert!(disk.run(remove).ok);
    assert!(disk.settings.is_none() && disk.cred.is_none() && disk.saved.is_none());
    let mut disk = Disk { settings: None, cred: Some("AIS_CODEX_API_KEY: x\n".to_string()), saved: None };
    assert!(disk.run(remove).ok);
    assert_eq!(disk.cred.as_deref(), Some("version: 1\nrefs:\n"));
}

fn failure(r: (TaskStage, TaskAction)) -> (String, usize) {
    match r {
        (TaskStage::Over, TaskAction::Done(r)) if !r.ok => (r.message, r.models.len()),
        _ => panic!("no failure"),
    }
}

#[test]
fn failures_end_an_action() {
    let e = || Err("e".to_string());
    assert_eq!(failure(setup(true, "P", TaskStage::Locking, TaskEvent::Locked(e()))), ("e".to_string(), 0));
    assert_eq!(failure(refresh("P", TaskStage::Locking, TaskEvent::Locked(e()))), ("e".to_string(), 0));
    assert_eq!(failure(remove(TaskStage::Locking, TaskEvent::Locked(e()))), ("e".to_string(), 0));
    assert_eq!(failure(remove(TaskStage::Reading(vec![]), TaskEvent::Files(Err("f".to_string())))), ("f".to_string(), 0));
    let down = || TaskEvent::Reply(Err("connection_refused".to_string()));
    let told = "连不上 AIS Switch（P）。请打开 AIS Switch 并打开 Codex 路由。".to_string();
    assert_eq!(failure(setup(true, "P", TaskStage::Asking("".to_string()), down())), (told.clone(), 0));
    assert_eq!(failure(refresh("P", TaskStage::Asking("".to_string()), down())), (told, 0));
    let (stage, _) = setup(true, "P", TaskStage::Asking("".to_string()), TaskEvent::Reply(models()));
    assert_eq!(failure(setup(true, "P", stage, TaskEvent::Files(Err("f".to_string())))), ("f".to_string(), 2));
    let (stage, _) = setup(true, "P", TaskStage::Asking("".to_string()), TaskEvent::Reply(models()));
    let files = Disk { settings: None, cred: None, saved: None }.files();
    let (stage, action) = setup(true, "P", stage, TaskEvent::Files(Ok(files)));
    assert!(matches!(&action, TaskAction::Write(w) if matches!(w, ConfigWrite::SaveDefault(_)) && w.mode() == Some(0o600)));
    assert_eq!(failure(setup(true, "P", stage, TaskEvent::Written(e()))), ("e".to_string(), 2));
}

#[test]
fn a_kept_default_that_cannot_be_dropped_does_not_matter() {
    let files = Disk { settings: None, cred: None, saved: None }.files();
    let (stage, action) = remove(TaskStage::Reading(vec![]), TaskEvent::Files(Ok(files)));
    assert!(matches!(action, TaskAction::Write(ConfigWrite::DropDefault)));
    match remove(stage, TaskEvent::Written(Err("e".to_string()))) {
        (TaskStage::Over, TaskAction::Done(r)) => assert!(r.ok),
        _ => panic!("not done"),
    }
}

#[test]
fn opening_the_app_is_reported() {
    let ran = |stderr: &str, success: bool| open_app(&OpenOutcome::Ran { stderr: stderr.as_bytes().to_vec(), success });
    assert!(ran("x", true).ok);
    assert_eq!(ran("x", true).message, "已打开 AIS Switch。请确认 Codex 路由已开，然后点「体检」。");
    assert_eq!(ran(" \n", false).message, "打不开 AIS Switch，请确认已安装到 /Applications。");
    assert_eq!(ran(" no app\n", false).message, "打不开 AIS Switch：no app");
    assert_eq!(open_app(&OpenOutcome::NotRun("e".to_string())).message, "无法执行 open: e");
}

#[test]
fn configuration_stands_under_home() {
    let some = |s: &str| Some(s.to_string());
    assert_eq!(dsh_home(&some("/x"), &some("/h")), Ok("/x".to_string()));
    assert_eq!(dsh_home(&None, &some("/h/")), Ok("/h/.dsh".to_string()));
    assert_eq!(dsh_home(&None, &None), Err("无 HOME".to_string()));
    assert_eq!(settings_path(&None, &some("/h")), Ok("/h/.dsh/settings.yaml".to_string()));
    assert_eq!(credentials_path(&some(""), &None), Ok(".credentials.yaml".to_string()));
    assert_eq!(default_model_backup_path(&some("/x"), &None), Ok("/x/.ais-default-model.bak".to_string()));
    assert_eq!(lock_path(&None, &None), Err("无 HOME".to_string()));
    assert_eq!(config_home_display(&some("/x"), &None), "/x");
    assert_eq!(config_home_display(&None, &None), "<解析失败: 无 HOME>");
    assert_eq!(backup_name("settings.yaml"), "settings.yaml.bak-ais-codex");
    assert_eq!(temp_name("settings.yaml"), "settings.yaml.tmp-ais-codex");
}

fn step_names(v: Vec<WriteStep>) -> Vec<String> {
    v.into_iter()
        .map(|s| match s {
            WriteStep::MakeDir => "dir".to_string(),
            WriteStep::CopyToBackup => "backup".to_string(),
            WriteStep::SetBackupMode(m) => format!("backup {m:o}"),
            WriteStep::WriteTemp => "temp".to_string(),
            WriteStep::SetTempMode(m) => format!("temp {m:o}"),
            WriteStep::KeepMode => "keep".to_string(),
            WriteStep::Rename => "rename".to_string(),
            WriteStep::DropTemp => "drop".to_string(),
        })
        .collect()
}

#[test]
fn files_are_written_step_by_step() {
    assert_eq!(step_names(write_with_backup(false, false, None)), vec!["dir", "temp", "rename"]);
    assert_eq!(step_names(write_with_backup(true, false, None)), vec!["dir", "backup", "temp", "keep", "rename"]);
    assert_eq!(step_names(write_with_backup(true, true, None)), vec!["dir", "temp", "keep", "rename"]);
    assert_eq!(
        step_names(write_with_backup(true, false, Some(0o600))),
        vec!["dir", "backup", "backup 600", "temp", "temp 600", "rename"]
    );
    assert!(matches!(write_failed(WriteStep::KeepMode), WriteFailure::GoOn));
    assert!(matches!(write_failed(WriteStep::WriteTemp), WriteFailure::GiveUp(None)));
    assert!(matches!(write_failed(WriteStep::Rename), WriteFailure::GiveUp(Some(WriteStep::DropTemp))));
}
