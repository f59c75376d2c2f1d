use dsh_harness::install::{
    build_install_script, current_node_version, detect_environment, find_dsh_candidates,
    find_dsh_via_shell, manual_install_cmd, order_versions, present_places, run_dsh_version,
    search_path, select_dsh, shell_script, version_key, Place, RunOutput,
};
use dsh_harness::supervise::{
    dsh_args, find_free_port, inject_version_badge, install_dsh, install_late, launch_main,
    main_window, may_navigate, monitor_dsh, restart_dsh_inner, start_dsh_with_retry, wait_for_port,
    InstallEvent, InstallState, InstallStep, LaunchEvent, LaunchStep, MonitorEvent, MonitorStep,
    PortChoice, RestartEvent, RestartStep, StartEvent, StartNext, WaitStep,
};

fn wrote(s: &str, success: bool) -> Option<RunOutput> {
    Some(RunOutput { stdout: s.as_bytes().to_vec(), success })
}

fn owned(v: &[&str]) -> Vec<String> {
    v.iter().map(|s| s.to_string()).collect()
}

#[test]
fn versions_are_numbers() {
    assert_eq!(version_key("v22.22.3"), (22, 22, 3));
    assert_eq!(version_key("vv9"), (9, 0, 0));
    assert_eq!(version_key("1.x.3.4"), (1, 0, 3));
    assert_eq!(version_key("+1.2"), (1, 2, 0));
    assert_eq!(version_key("18446744073709551616.1"), (0, 1, 0));
    assert_eq!(version_key(""), (0, 0, 0));
}

#[test]
fn newest_version_comes_first() {
    let names = owned(&["v9.1.0", "v22.1.0", "x", "v22.22.3", "v22.1.0", "y"]);
    assert_eq!(order_versions(&names), vec![3, 4, 1, 0, 5, 2]);
}

#[test]
fn dsh_is_looked_for_in_order() {
    let names = owned(&["v9.1.0", "v22.1.0"]);
    let shown = |p: &Place| match p {
        Place::Shell => "shell".to_string(),
        Place::Nvm(i) => format!("nvm {i}"),
        Place::Home(p) => format!("~ {p}"),
        Place::Fixed(p) => p.to_string(),
    };
    let all = find_dsh_candidates(true, true, &names);
    let list: Vec<_> = all.iter().map(shown).collect();
    assert_eq!(
        list,
        vec![
            "shell", "nvm 1", "nvm 0", "~ .local/bin/dsh", "~ Library/pnpm/dsh", "~ .volta/bin/dsh",
            "/opt/homebrew/bin/dsh", "/opt/homebrew/opt/node@22/bin/dsh", "/usr/local/bin/dsh",
            "/usr/local/opt/node@22/bin/dsh",
        ]
    );
    let mut file = vec![false; all.len()];
    file[2] = true;
    file[9] = true;
    assert_eq!(present_places(&all, &file), vec![0, 2, 9]);
    assert_eq!(find_dsh_candidates(false, false, &names).len(), 4);
}

#[test]
fn wanted_version_is_chosen() {
    let v = |s: &str| Some(s.to_string());
    assert_eq!(select_dsh(&vec![None, v("0.1.0"), v("v0.1.1-rc.2"), v("0.1.1-rc.2")]), Some(2));
    assert_eq!(select_dsh(&vec![None, v("0.1.0"), v("0.2.0")]), Some(1));
    assert_eq!(select_dsh(&vec![None, None]), None);
    assert_eq!(select_dsh(&vec![]), None);
}

#[test]
fn programs_tell_their_versions() {
    assert_eq!(run_dsh_version(&wrote(" 0.1.1\n", true)), Some("0.1.1".to_string()));
    assert_eq!(run_dsh_version(&wrote(" \n", true)), None);
    assert_eq!(run_dsh_version(&wrote("0.1.1", false)), None);
    assert_eq!(run_dsh_version(&None), None);
    assert_eq!(current_node_version(&wrote("v22.1.0\n", true)), "v22.1.0");
    assert_eq!(current_node_version(&None), "未知");
    assert_eq!(find_dsh_via_shell(&wrote("hello\n /bin/dsh \n", true)), Some("/bin/dsh".to_string()));
    assert_eq!(find_dsh_via_shell(&wrote("/bin/dsh\n\n", true)), None);
    assert_eq!(find_dsh_via_shell(&wrote("", true)), None);
    assert_eq!(find_dsh_via_shell(&wrote("/bin/dsh\n", false)), None);
    assert!(shell_script().ends_with("command -v dsh"));
    assert_eq!(search_path("/a", Some("/b:/c".to_string())), "/a:/b:/c");
    assert_eq!(search_path("/a", None), "/a");
}

#[test]
fn environment_is_judged() {
    let r = detect_environment(&vec![], "v18");
    assert!(!r.ok && r.problems.len() == 1);
    assert_eq!(r.problems[0].problem_type, "dsh-missing");
    assert_eq!(r.problems[0].detail, "需要 Node ≥ 22.12 以及 @deepseek-ai/dsh@0.1.1-rc.2");
    let r = detect_environment(&vec![None, None], "v18");
    assert!(!r.ok);
    assert_eq!(r.problems[0].problem_type, "node-incompatible");
    assert_eq!(
        r.problems[0].detail,
        "通常是 Node 版本过低（dsh 需要 Node ≥ 20.19 / 22.12）。当前 Node: v18。建议安装 Node 22。"
    );
    let r = detect_environment(&vec![None, Some("x".to_string())], "v18");
    assert!(r.ok && r.problems.is_empty());
    assert_eq!(r.install_cmd, manual_install_cmd());
}

#[test]
fn install_commands_name_the_package() {
    assert!(manual_install_cmd().ends_with("\nnpm i -g @deepseek-ai/dsh@0.1.1-rc.2 --registry=https://registry.npmjs.org"));
    assert!(manual_install_cmd().starts_with("export NVM_DIR=\"$HOME/.nvm\"\n[ -s \"$NVM_DIR/nvm.sh\" ] && . \"$NVM_DIR/nvm.sh\"\nnvm install 22\n"));
    let s = build_install_script();
    assert!(s.starts_with("set +e\nexport NVM_DIR=\"$HOME/.nvm\"\nexport REG=\"https://registry.npmjs.org\"\nexport MIRROR=\"https://registry.npmmirror.com\"\nexport DSH_PKG=\"@deepseek-ai/dsh@0.1.1-rc.2\"\nlog() { echo \"[install] $*\"; }\nstage() { echo \"[install:stage] $1\"; }\n\nstage node\n"));
    assert!(s.ends_with("\n  exit 1\nfi\n"));
    assert_eq!(s.lines().count(), 52);
}

#[test]
fn lowest_free_port_is_taken() {
    let search = |used: &dyn Fn(u16) -> bool| {
        let mut p = 3080;
        loop {
            match find_free_port(3080, p, used(p)) {
                PortChoice::Use(p) => return p,
                PortChoice::Try(q) => p = q,
            }
        }
    };
    assert_eq!(search(&|_| false), 3080);
    assert_eq!(search(&|p| p < 3083), 3083);
    assert_eq!(search(&|p| p < 4079), 4079);
    assert_eq!(search(&|_| true), 3080);
}

#[test]
fn port_is_waited_for() {
    assert!(matches!(wait_for_port(0, 20000, None), WaitStep::Probe));
    assert!(matches!(wait_for_port(20000, 20000, None), WaitStep::TimedOut));
    assert!(matches!(wait_for_port(20000, 20000, Some(true)), WaitStep::Ready));
    assert!(matches!(wait_for_port(0, 20000, Some(false)), WaitStep::Sleep(300)));
    assert_eq!(dsh_args(3081), vec!["web", "--host", "127.0.0.1", "--port", "3081", "--no-open"]);
}

#[test]
fn starting_is_tried_again() {
    let s = start_dsh_with_retry(1, 3, &StartEvent::TimedOut);
    assert!(s.kill && matches!(s.next, StartNext::Try(2)));
    assert_eq!(s.log.as_deref(), Some("[dsh] 启动超时（第 1/3 次）"));
    let s = start_dsh_with_retry(3, 3, &StartEvent::Failed("e".to_string()));
    assert!(!s.kill && matches!(s.next, StartNext::GaveUp));
    assert_eq!(s.log.as_deref(), Some("[dsh] 启动失败（第 3/3 次）: e"));
    let s = start_dsh_with_retry(2, 3, &StartEvent::Ready);
    assert!(s.log.is_none() && matches!(s.next, StartNext::Up));
}

#[test]
fn crashes_are_followed_by_three_restarts() {
    let exited = |quitting, secs, nanos| MonitorEvent::Exited { quitting, secs, nanos };
    let mut restarts = 0;
    for k in 1..=3 {
        match monitor_dsh(exited(false, 60, 0), restarts) {
            MonitorStep::Restart { restarts: n, fresh, attempts, log } => {
                assert!(n == k && !fresh && attempts == 1);
                assert_eq!(log, format!("[dsh] 进程退出，自动重启（第 {k} 次）..."));
                restarts = n;
            }
            _ => panic!("not restarted"),
        }
    }
    assert!(matches!(monitor_dsh(exited(false, 60, 0), 3), MonitorStep::Stop { why: Some(w) } if w == "[dsh] 连续崩溃过多，停止自动重启，请手动重启应用"));
    assert!(matches!(monitor_dsh(exited(false, 60, 1), 3), MonitorStep::Restart { restarts: 1, fresh: true, .. }));
    assert!(matches!(monitor_dsh(exited(true, 0, 0), 0), MonitorStep::Stop { why: None }));
}

#[test]
fn a_failed_restart_ends_the_watch() {
    assert!(matches!(monitor_dsh(MonitorEvent::Running, 0), MonitorStep::Watch(1000)));
    assert!(matches!(monitor_dsh(MonitorEvent::Restarted(true), 1), MonitorStep::Watch(0)));
    assert!(matches!(monitor_dsh(MonitorEvent::Restarted(false), 1), MonitorStep::Stop { why: Some(w) } if w == "[dsh] 自动重启失败"));
}

#[test]
fn restart_by_hand_is_reported() {
    let told = |e: RestartEvent| match restart_dsh_inner(&e) {
        RestartStep::Done { reload, result } => (reload, result.ok, result.message),
        _ => panic!("not done"),
    };
    assert_eq!(told(RestartEvent::Begin(None)), (false, false, "dsh 尚未启动，无需重启。".to_string()));
    assert!(matches!(restart_dsh_inner(&RestartEvent::Begin(Some(1))), RestartStep::Kill(1)));
    assert_eq!(told(RestartEvent::Killed(1, false)).2, "未找到运行中的 dsh 进程（可能在重启中），稍后再试。");
    assert!(matches!(restart_dsh_inner(&RestartEvent::Killed(1, true)), RestartStep::Wait(1, 25)));
    assert_eq!(told(RestartEvent::Waited(false)).2, "dsh 重启超时，请到「环境检查 / 安装日志」查看。");
    assert_eq!(told(RestartEvent::Waited(true)), (true, true, "dsh 已重启，新配置已生效。".to_string()));
}

fn seen(state: InstallState, secs: u64, nanos: u32) -> InstallStep {
    install_dsh(&InstallEvent::Seen { state, secs, nanos })
}

#[test]
fn installation_is_followed() {
    assert!(matches!(install_dsh(&InstallEvent::Started(Ok(()))), InstallStep::Look(0)));
    assert!(matches!(seen(InstallState::Running, 900, 0), InstallStep::Look(200)));
    assert!(matches!(seen(InstallState::Exited(true), 901, 0), InstallStep::Settle(true)));
    assert!(matches!(seen(InstallState::Exited(false), 1, 0), InstallStep::Settle(false)));
    assert!(matches!(seen(InstallState::Unknown, 1, 0), InstallStep::Settle(false)));
    assert!(matches!(install_dsh(&InstallEvent::Settled(true)), InstallStep::Detect));
    let told = |e: InstallEvent| match install_dsh(&e) {
        InstallStep::Done { log, report, launch_after } => (log, report.success, report.message, launch_after),
        _ => panic!("not done"),
    };
    assert_eq!(
        told(InstallEvent::Started(Err("e".to_string()))),
        (Some("[install] 启动安装进程失败: e".to_string()), false, "启动安装进程失败: e".to_string(), None)
    );
    assert_eq!(told(InstallEvent::Detected(false)), (None, false, "安装命令已执行，但检测仍不通过".to_string(), None));
    assert_eq!(told(InstallEvent::Detected(true)), (None, true, "".to_string(), Some(800)));
}

#[test]
fn a_late_installation_is_killed_and_fails() {
    assert!(!install_late(899, 999_999_999) && !install_late(900, 0));
    assert!(install_late(900, 1) && install_late(901, 0));
    assert!(matches!(seen(InstallState::Running, 900, 1), InstallStep::Kill(l) if l == "[install] 安装超时，终止进程组"));
    assert!(matches!(install_dsh(&InstallEvent::Killed), InstallStep::Settle(false)));
    match install_dsh(&InstallEvent::Settled(false)) {
        InstallStep::Done { log: None, report, launch_after: None } => {
            assert!(!report.success);
            assert_eq!(report.message, "自动安装失败，请使用下方命令在终端中手动安装。");
        }
        _ => panic!("not done"),
    }
}

#[test]
fn nothing_is_started_where_no_dsh_is_chosen() {
    assert!(matches!(
        launch_main(LaunchEvent::Begin(None)),
        LaunchStep::Show { chosen: None, port: 3080, watch: false, log: None }
    ));
}

#[test]
fn the_chosen_dsh_is_started_on_a_free_port() {
    assert!(matches!(launch_main(LaunchEvent::Begin(Some(2))), LaunchStep::FindPort { candidate: 2, start: 3080 }));
    assert!(matches!(
        launch_main(LaunchEvent::Port(2, 3082)),
        LaunchStep::Start { candidate: 2, port: 3082, attempts: 3 }
    ));
    assert!(matches!(
        launch_main(LaunchEvent::Started(2, 3082, true)),
        LaunchStep::Show { chosen: Some(2), port: 3082, watch: true, log: None }
    ));
    assert!(matches!(
        launch_main(LaunchEvent::Started(2, 3082, false)),
        LaunchStep::Show { chosen: Some(2), port: 3082, watch: false, log: Some(l) }
            if l == "[dsh] 多次启动失败，dsh web 可能无法正常使用"
    ));
}

#[test]
fn main_window_shows_dsh() {
    let w = main_window(3080, Some("0.1.1".to_string()));
    assert_eq!(w.url, "http://127.0.0.1:3080");
    assert_eq!(w.title, "DeepSeek Harness · dsh 0.1.1");
    assert_eq!(main_window(1, None).title, "DeepSeek Harness · dsh 未知");
    assert!(may_navigate(Some("127.0.0.1")));
    assert!(!may_navigate(Some("example.invalid")));
    assert!(!may_navigate(None));
    let js = inject_version_badge("9.9");
    assert!(js.contains("b.textContent='dsh 9.9';b.style.cssText='position:fixed;"));
    assert!(js.starts_with("(function(){function step(){") && js.ends_with("step();})();"));
}
