use dsh_harness::blocks::{remove_top_level_block, replace_top_level_block, split_top_level, top_level_key};
use dsh_harness::credentials::{remove_credential, upsert_credential, API_KEY_ENV};
use dsh_harness::default_model::{
    clear_ais_default_model, default_model_block, restore_default_model, restore_default_model_at,
    save_default_model_backup, upsert_default_model,
};
use dsh_harness::gateway::DEFAULT_PROXY;
use dsh_harness::lines::ensure_nl;
use dsh_harness::provider::{
    base_url, has_provider, llm_pi_ai_section, provider_yaml, remove_ais_codex_provider,
    remove_provider_inside_llm_pi_ai, upsert_ais_codex_provider, upsert_provider_inside_llm_pi_ai,
    GatewayModel, PROVIDER_ID,
};

fn model(id: &str, name: &str) -> GatewayModel {
    GatewayModel { id: id.to_string(), name: name.to_string() }
}

fn sample_models() -> Vec<GatewayModel> {
    vec![
        model("llm-gateway--deepseek-v4-flash", "deepseek-v4-flash"),
        model("llm-gateway--glm-5.2", "glm-5.2"),
    ]
}

fn write(settings: &str) -> String {
    upsert_ais_codex_provider(settings, DEFAULT_PROXY, &sample_models())
}

const ENTRY: &str = "    ais-codex:\n      displayName: AIS Switch (Codex)\n      api: openai-completions\n      baseURL: http://127.0.0.1:15721/codex/v1\n      apiKeyEnv: AIS_CODEX_API_KEY\n      defaultContextWindow: 1000000\n      defaultMaxTokens: 131072\n      models:\n        - id: llm-gateway--deepseek-v4-flash\n          name: deepseek-v4-flash\n        - id: llm-gateway--glm-5.2\n          name: glm-5.2\n";

#[test]
fn yaml_upsert_remove_roundtrip() {
    let models = sample_models();
    let empty = upsert_ais_codex_provider("", DEFAULT_PROXY, &models);
    assert!(empty.contains("llm-pi-ai:"));
    assert!(empty.contains(PROVIDER_ID));

    let existing = "ui-theme:\n  preference: system\nllm-pi-ai:\n  providers:\n    other:\n      api: openai-completions\n      baseURL: http://example.invalid/v1\n";
    let merged = upsert_ais_codex_provider(existing, DEFAULT_PROXY, &models);
    assert!(merged.contains("    other:"));
    assert_eq!(merged.matches(&format!("    {PROVIDER_ID}:")).count(), 1);
    let twice = upsert_ais_codex_provider(&merged, DEFAULT_PROXY, &models);
    assert_eq!(twice.matches(&format!("    {PROVIDER_ID}:")).count(), 1);

    let removed = remove_ais_codex_provider(&merged);
    assert!(!removed.contains(PROVIDER_ID));
    assert!(removed.contains("    other:"));

    let only = upsert_ais_codex_provider("ui-theme:\n  preference: system\n", DEFAULT_PROXY, &models);
    assert!(!remove_ais_codex_provider(&only).contains("llm-pi-ai:"));

    let cred = upsert_credential("version: 1\nrefs:\n  DEEPSEEK_API_KEY: sk-test\n");
    assert!(cred.contains(API_KEY_ENV));
    assert!(cred.contains("sk-test"));
    assert_eq!(upsert_credential(&cred).matches(API_KEY_ENV).count(), 1);
    let cred_rm = remove_credential(&cred);
    assert!(!cred_rm.contains(API_KEY_ENV));
    assert!(cred_rm.contains("sk-test"));

    let defaulted = upsert_default_model("agent-default-model:\n  provider: x\n  model: y\n", &models[0].id);
    let cleared = clear_ais_default_model(&defaulted);
    assert!(cleared.contains("deepseek-official"));
    assert!(!cleared.contains(&format!("provider: {PROVIDER_ID}")));
}

#[test]
fn default_model_backup_restore_roundtrip() {
    let original = "agent-default-model:\n  provider: deepseek-official\n  model: deepseek-v4-flash\n  reasoningEffort: high\n";
    let with_other = format!("ui-theme:\n  preference: system\n\n{original}");
    let backup = save_default_model_backup(false, &with_other).unwrap();

    let overridden = upsert_default_model(&with_other, &sample_models()[0].id);
    assert!(overridden.contains(&format!("provider: {PROVIDER_ID}")));

    let restored = restore_default_model_at(Some(&backup), &overridden);
    assert!(restored.contains("provider: deepseek-official"));
    assert!(restored.contains("model: deepseek-v4-flash"));
    assert!(!restored.contains(&format!("provider: {PROVIDER_ID}")));
    assert!(restored.contains("ui-theme:"));

    let backup = save_default_model_backup(false, "ui-theme:\n  preference: system\n").unwrap();
    let overridden2 = upsert_default_model("ui-theme:\n  preference: system\n", &sample_models()[0].id);
    assert!(overridden2.contains("agent-default-model:"));
    let restored2 = restore_default_model_at(Some(&backup), &overridden2);
    assert!(!restored2.contains("agent-default-model"));
    assert!(restored2.contains("ui-theme:"));

    let other_default = "agent-default-model:\n  provider: something-else\n  model: x\n";
    assert_eq!(
        restore_default_model_at(Some(&backup), other_default),
        ensure_nl(other_default.to_string())
    );
}

#[test]
fn entry_is_written_exactly() {
    assert_eq!(base_url(DEFAULT_PROXY), "http://127.0.0.1:15721/codex/v1");
    assert_eq!(provider_yaml(DEFAULT_PROXY, &sample_models()), ENTRY);
    assert_eq!(
        llm_pi_ai_section(DEFAULT_PROXY, &sample_models()),
        format!("llm-pi-ai:\n  providers:\n{ENTRY}")
    );
    assert_eq!(write(""), format!("llm-pi-ai:\n  providers:\n{ENTRY}"));
    assert_eq!(write("a: 1\n\n\n"), format!("a: 1\n\nllm-pi-ai:\n  providers:\n{ENTRY}"));
}

#[test]
fn entry_goes_in_front_of_the_others() {
    let before = "llm-pi-ai:\n  providers:\n    other:\n      api: x\nui-theme: dark\n";
    assert_eq!(
        write(before),
        format!("llm-pi-ai:\n  providers:\n{ENTRY}    other:\n      api: x\nui-theme: dark\n")
    );
    assert_eq!(remove_ais_codex_provider(&write(before)), before);
}

#[test]
fn block_without_providers_is_replaced() {
    let block = "llm-pi-ai:\n  x: 1\n";
    let section = llm_pi_ai_section(DEFAULT_PROXY, &sample_models());
    assert_eq!(upsert_provider_inside_llm_pi_ai(block, DEFAULT_PROXY, &sample_models()), section);
    assert_eq!(remove_provider_inside_llm_pi_ai(block), "");
    assert_eq!(write(block), section);
    assert_eq!(remove_ais_codex_provider("a: 1\nllm-pi-ai:\n  x: 1\n"), "a: 1\n");
}

#[test]
fn lines_behind_the_entries_stay() {
    let block = "llm-pi-ai:\n  providers:\n    ais-codex:\n      api: y\n    other:\n      api: x\n# note\n    ais-codex:\n";
    assert_eq!(
        remove_provider_inside_llm_pi_ai(block),
        "llm-pi-ai:\n  providers:\n    other:\n      api: x\n# note\n    ais-codex:\n"
    );
}

#[test]
fn later_write_takes_the_place_of_the_earlier() {
    let start = "a: 1\nllm-pi-ai:\n  providers:\n    other:\n      api: x\n";
    let one = vec![model("llm-gateway--a", "a")];
    let first = upsert_ais_codex_provider(start, "http://one", &one);
    let second = upsert_ais_codex_provider(&first, DEFAULT_PROXY, &sample_models());
    assert_eq!(second, write(start));
    assert_ne!(first, second);
}

#[test]
fn removal_undoes_a_write() {
    let start = "a: 1\nb:\n  c: 2\n";
    assert_eq!(remove_ais_codex_provider(&write(start)), start);
    assert_eq!(remove_ais_codex_provider("\n\na: 1"), "\n\na: 1\n");
    assert_eq!(remove_ais_codex_provider(&write("\n\na: 1")), "a: 1\n");
    assert_eq!(remove_ais_codex_provider(""), "");
}

#[test]
fn providers_line_without_newline_is_written_onto() {
    let hanging = "llm-pi-ai:\n  providers:";
    assert_eq!(write(hanging), format!("llm-pi-ai:\n  providers:{ENTRY}"));
    assert_eq!(remove_ais_codex_provider(&write(hanging)), "\n");
}

#[test]
fn has_provider_looks_at_the_start_of_lines() {
    assert!(has_provider(&write("")));
    assert!(has_provider("x\n    ais-codex:\n"));
    assert!(!has_provider("x\n     ais-codex:\n"));
    assert!(!has_provider("   ais-codex:\n"));
    assert!(!has_provider(""));
}

#[test]
fn text_is_split_at_its_keys() {
    let split = |t: &str| split_top_level(t);
    assert!(split(" \n\t\n").is_empty());
    assert_eq!(split("# note\n"), vec![("".to_string(), "# note\n".to_string())]);
    assert_eq!(
        split("# note\na: 1\n  b: 2\nc:\n"),
        vec![
            ("".to_string(), "# note\n".to_string()),
            ("a".to_string(), "a: 1\n  b: 2\n".to_string()),
            ("c".to_string(), "c:\n".to_string()),
        ]
    );
    assert_eq!(split("\n\na: 1"), vec![("a".to_string(), "a: 1".to_string())]);
}

#[test]
fn keys_are_plain_words() {
    assert_eq!(top_level_key("llm-pi_ai2: x\r\n"), Some("llm-pi_ai2".to_string()));
    assert_eq!(top_level_key(":\n"), Some("".to_string()));
    assert_eq!(top_level_key(" a:\n"), None);
    assert_eq!(top_level_key("a b:\n"), None);
    assert_eq!(top_level_key("a\n"), None);
    assert_eq!(top_level_key("\n"), None);
    assert_eq!(top_level_key("键:\n"), None);
}

#[test]
fn blocks_are_replaced_and_removed() {
    let s = "a: 1\nb: 2\na: 3";
    assert_eq!(replace_top_level_block(s, "a", "a: 9\n"), "a: 9\nb: 2\na: 9\n");
    assert_eq!(remove_top_level_block(s, "a"), "b: 2\n");
    assert_eq!(replace_top_level_block("b: 2\n", "a", "a: 9\n\n"), "b: 2\n\na: 9\n");
    assert_eq!(replace_top_level_block(" \n", "a", "a: 9\n\n"), "a: 9\n");
    assert_eq!(remove_top_level_block(" \n", "a"), "");
}

#[test]
fn default_model_is_written_exactly() {
    let block = "agent-default-model:\n  provider: ais-codex\n  model: m\n  reasoningEffort: high\n";
    assert_eq!(upsert_default_model("", "m"), format!("\n\n{block}"));
    assert_eq!(upsert_default_model("a: 1\n", "m"), format!("a: 1\n\n{block}"));
    assert_eq!(
        upsert_default_model("agent-default-model:\n  provider: x\na: 1", "m"),
        format!("{block}a: 1\n")
    );
}

#[test]
fn later_default_takes_the_place_of_the_earlier() {
    let s = "a: 1\n";
    assert_eq!(upsert_default_model(&upsert_default_model(s, "x"), "y"), upsert_default_model(s, "y"));
}

#[test]
fn restoring_gives_the_settings_back() {
    let s = "a: 1\nagent-default-model:\n  provider: p\n\nb: 2";
    let kept = default_model_block(s);
    assert_eq!(kept, "agent-default-model:\n  provider: p\n\n");
    assert_eq!(restore_default_model_at(Some(&kept), &upsert_default_model(s, "m")), format!("{s}\n"));
    assert_eq!(restore_default_model_at(Some(""), &upsert_default_model("a: 1\n", "m")), "a: 1\n");
}

#[test]
fn without_a_kept_default_the_official_one_comes_back() {
    let official = "agent-default-model:\n  provider: deepseek-official\n  model: deepseek-v4-flash\n  reasoningEffort: high\n";
    let s = upsert_default_model("a: 1\n", "m");
    assert_eq!(restore_default_model(true, None, &s), format!("a: 1\n\n{official}"));
    assert_eq!(restore_default_model(false, Some("x"), &s), format!("a: 1\n\n{official}"));
    assert_eq!(clear_ais_default_model("a: 1"), "a: 1\n");
}

#[test]
fn first_kept_default_stays() {
    assert_eq!(save_default_model_backup(true, "agent-default-model: x\n"), None);
    assert_eq!(save_default_model_backup(false, "a: 1\n"), Some("".to_string()));
}

#[test]
fn other_settings_stay() {
    let s = "# top\nllm-pi-ai:\n  providers:\n    a:\n      x: 1\n\n    ais-codex:\n      old: 1\n    b-2:\n      y: 2\nagent-default-model:\n  provider: p\nz: 1\n\n";
    let others = "    a:\n      x: 1\n\n    b-2:\n      y: 2\n";
    let w = write(s);
    assert_eq!(w, format!("# top\nllm-pi-ai:\n  providers:\n{ENTRY}{others}agent-default-model:\n  provider: p\nz: 1\n\n"));
    assert_eq!(default_model_block(&w), default_model_block(s));
    assert_eq!(
        remove_ais_codex_provider(s),
        format!("# top\nllm-pi-ai:\n  providers:\n{others}agent-default-model:\n  provider: p\nz: 1\n")
    );
}
