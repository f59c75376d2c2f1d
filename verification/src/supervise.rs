//! Starting dsh, watching it, restarting it, and following its installation. Processes,
//! ports and clocks are handled elsewhere; what to do next is decided here.

use vstd::prelude::*;

use crate::actions::AisActionResult;
use crate::actions::ActionView;
use crate::text;

verus! {

/// The host on which dsh listens.
pub const HOST: &'static str = "127.0.0.1";

/// The first port that is tried.
pub const PORT: u16 = 3080;

/// How long an installation may take.
pub const INSTALL_TIMEOUT_SECS: u64 = 900;

/// What to do after a port was tried.
pub enum PortChoice {
    Use(u16),
    Try(u16),
}

/// Takes the port `tried` where it is free, else the next one; after a thousand ports it
/// falls back to the first.
pub fn find_free_port(start: u16, tried: u16, in_use: bool) -> (r: PortChoice)
    requires
        start + 1000 <= u16::MAX,
        start <= tried < start + 1000,
    ensures
        r == (if !in_use {
            PortChoice::Use(tried)
        } else if tried + 1 < start + 1000 {
            PortChoice::Try((tried + 1) as u16)
        } else {
            PortChoice::Use(start)
        }),
{
    if !in_use {
        PortChoice::Use(tried)
    } else if tried + 1 < start + 1000 {
        PortChoice::Try(tried + 1)
    } else {
        PortChoice::Use(start)
    }
}

/// The port that the search comes to from `tried` on.
pub open spec fn port_found(start: int, tried: int, used: spec_fn(int) -> bool) -> int
    decreases start + 1000 - tried,
{
    if !used(tried) {
        tried
    } else if tried + 1 < start + 1000 {
        port_found(start, tried + 1, used)
    } else {
        start
    }
}

/// The search comes to the lowest free port from the first on, and to the first one where
/// all are in use.
pub proof fn law_lowest_free_port(start: int, tried: int, used: spec_fn(int) -> bool)
    requires
        start <= tried < start + 1000,
    ensures
        ({
            let p = port_found(start, tried, used);
            ||| tried <= p < start + 1000 && !used(p) && forall|q: int|
                tried <= q < p ==> #[trigger] used(q)
            ||| p == start && forall|q: int| tried <= q < start + 1000 ==> #[trigger] used(q)
        }),
    decreases start + 1000 - tried,
{
    if used(tried) && tried + 1 < start + 1000 {
        law_lowest_free_port(start, tried + 1, used);
    }
}

/// What to do while waiting for a port.
pub enum WaitStep {
    Probe,
    Sleep(u64),
    Ready,
    TimedOut,
}

/// Waits until the port answers: tries it as long as there is time, and sleeps in between.
/// `answered` is what the last try gave, nothing where it is to be tried next.
pub fn wait_for_port(elapsed_ms: u64, timeout_ms: u64, answered: Option<bool>) -> (r: WaitStep)
    ensures
        r == (match answered {
            Some(true) => WaitStep::Ready,
            Some(false) => WaitStep::Sleep(300),
            None => if elapsed_ms < timeout_ms {
                WaitStep::Probe
            } else {
                WaitStep::TimedOut
            },
        }),
{
    match answered {
        Some(true) => WaitStep::Ready,
        Some(false) => WaitStep::Sleep(300),
        None => {
            if elapsed_ms < timeout_ms {
                WaitStep::Probe
            } else {
                WaitStep::TimedOut
            }
        },
    }
}

/// The arguments with which dsh is started.
pub open spec fn dsh_args_view(port: u16) -> Seq<Seq<char>> {
    seq![
        "web"@,
        "--host"@,
        HOST@,
        "--port"@,
        text::decimal(port as nat),
        "--no-open"@,
    ]
}

/// The arguments with which dsh is started.
pub fn dsh_args(port: u16) -> (r: Vec<String>)
    ensures
        r@.map_values(|s: String| s@) == dsh_args_view(port),
{
    let mut out: Vec<String> = Vec::new();
    out.push("web".to_owned());
    out.push("--host".to_owned());
    out.push(HOST.to_owned());
    out.push("--port".to_owned());
    out.push(text::show_number(port as u64));
    out.push("--no-open".to_owned());
    assert(out@.map_values(|s: String| s@) == dsh_args_view(port));
    out
}

/// What came of an attempt to start dsh.
pub enum StartEvent {
    /// It could not be started.
    Failed(String),
    /// Its port answers.
    Ready,
    /// Its port did not answer in time.
    TimedOut,
}

/// What to do after an attempt.
pub enum StartNext {
    /// dsh runs.
    Up,
    /// Make this attempt.
    Try(u32),
    /// All attempts were made.
    GaveUp,
}

/// What an attempt leads to: a line for the log, whether the process is to be killed, and
/// what comes next.
pub struct StartStep {
    pub log: Option<String>,
    pub kill: bool,
    pub next: StartNext,
}

/// The attempt `i` of `n`, as the log names it.
pub open spec fn attempt_text(i: u32, n: u32) -> Seq<char> {
    "（第 "@ + text::decimal(i as nat) + "/"@ + text::decimal(n as nat) + " 次）"@
}

fn show_attempt(i: u32, n: u32) -> (r: String)
    ensures
        r@ == attempt_text(i, n),
{
    let mut out = text::joined_three("（第 ", text::show_number(i as u64).as_str(), "/");
    out.append(text::show_number(n as u64).as_str());
    out.append(" 次）");
    out
}

/// The next attempt after `i` of `n`.
pub open spec fn next_attempt(i: u32, n: u32) -> StartNext {
    if i < n {
        StartNext::Try((i + 1) as u32)
    } else {
        StartNext::GaveUp
    }
}

/// What the attempt `i` of `n` to start dsh leads to.
pub fn start_dsh_with_retry(i: u32, n: u32, event: &StartEvent) -> (r: StartStep)
    requires
        1 <= i <= n,
    ensures
        match *event {
            StartEvent::Ready => r.next is Up && !r.kill && r.log is None,
            StartEvent::TimedOut => {
                &&& r.next == next_attempt(i, n)
                &&& r.kill
                &&& r.log matches Some(l)
                &&& l@ == "[dsh] 启动超时"@ + attempt_text(i, n)
            },
            StartEvent::Failed(e) => {
                &&& r.next == next_attempt(i, n)
                &&& !r.kill
                &&& r.log matches Some(l)
                &&& l@ == "[dsh] 启动失败"@ + attempt_text(i, n) + ": "@ + e@
            },
        },
{
    let next = if i < n {
        StartNext::Try(i + 1)
    } else {
        StartNext::GaveUp
    };
    match event {
        StartEvent::Ready => StartStep { log: None, kill: false, next: StartNext::Up },
        StartEvent::TimedOut => {
            let log = text::joined_pair("[dsh] 启动超时", show_attempt(i, n).as_str());
            StartStep { log: Some(log), kill: true, next }
        },
        StartEvent::Failed(e) => {
            let mut log = text::joined_three(
                "[dsh] 启动失败",
                show_attempt(i, n).as_str(),
                ": ",
            );
            log.append(e.as_str());
            StartStep { log: Some(log), kill: false, next }
        },
    }
}

/// What watching dsh has come to.
#[derive(Clone, Copy)]
pub enum MonitorEvent {
    /// dsh runs.
    Running,
    /// dsh has exited, so long after the stretch of time began; whether the app is quitting.
    Exited { quitting: bool, secs: u64, nanos: u32 },
    /// dsh was to be started again; whether it is up.
    Restarted(bool),
}

/// What to do while dsh is watched.
pub enum MonitorStep {
    /// Look again after so many milliseconds.
    Watch(u64),
    /// Stop watching.
    Stop { why: Option<String> },
    /// Start it again, in so many attempts; `fresh` where a new stretch of time begins.
    Restart { restarts: u32, fresh: bool, attempts: u32, log: String },
}

/// More than a minute has passed.
pub open spec fn past_minute(secs: u64, nanos: u32) -> bool {
    secs > 60 || (secs == 60 && nanos > 0)
}

/// The restarts within the stretch, counting this one.
pub open spec fn counted_restarts(restarts: int, secs: u64, nanos: u32) -> int {
    if past_minute(secs, nanos) {
        1
    } else {
        restarts + 1
    }
}

/// Watches dsh: when it has exited it is started again, but not when the app is quitting,
/// and no more than three times within a minute. Where it does not come up again, it is
/// watched no more. `restarts` are those since the stretch began.
pub fn monitor_dsh(event: MonitorEvent, restarts: u32) -> (r: MonitorStep)
    requires
        restarts <= 3,
    ensures
        match event {
            MonitorEvent::Running => r == MonitorStep::Watch(1000),
            MonitorEvent::Restarted(true) => r == MonitorStep::Watch(0),
            MonitorEvent::Restarted(false) => {
                &&& r matches MonitorStep::Stop { why }
                &&& why matches Some(l)
                &&& l@ == "[dsh] 自动重启失败"@
            },
            MonitorEvent::Exited { quitting, secs, nanos } => {
                let k = counted_restarts(restarts as int, secs, nanos);
                if quitting {
                    r == (MonitorStep::Stop { why: None })
                } else if k > 3 {
                    &&& r matches MonitorStep::Stop { why }
                    &&& why matches Some(l)
                    &&& l@ == "[dsh] 连续崩溃过多，停止自动重启，请手动重启应用"@
                } else {
                    &&& r matches MonitorStep::Restart { restarts: n, fresh, attempts, log }
                    &&& n == k
                    &&& fresh == past_minute(secs, nanos)
                    &&& attempts == 1
                    &&& log@ == "[dsh] 进程退出，自动重启（第 "@ + text::decimal(n as nat)
                        + " 次）..."@
                }
            },
        },
{
    match event {
        MonitorEvent::Running => MonitorStep::Watch(1000),
        MonitorEvent::Restarted(up) => {
            if up {
                MonitorStep::Watch(0)
            } else {
                MonitorStep::Stop { why: Some("[dsh] 自动重启失败".to_owned()) }
            }
        },
        MonitorEvent::Exited { quitting, secs, nanos } => {
            if quitting {
                return MonitorStep::Stop { why: None };
            }
            let fresh = secs > 60 || (secs == 60 && nanos > 0);
            let k: u32 = if fresh {
                1
            } else {
                restarts + 1
            };
            if k > 3 {
                return MonitorStep::Stop {
                    why: Some("[dsh] 连续崩溃过多，停止自动重启，请手动重启应用".to_owned()),
                };
            }
            let log = text::joined_three(
                "[dsh] 进程退出，自动重启（第 ",
                text::show_number(k as u64).as_str(),
                " 次）...",
            );
            MonitorStep::Restart { restarts: k, fresh, attempts: 1, log }
        },
    }
}

/// Where watching dsh has come to after exits at these times since the stretch began: the
/// restarts within the stretch, nothing where it has stopped.
pub open spec fn watched(times: Seq<(u64, u32)>) -> Option<int>
    decreases times.len(),
{
    if times.len() == 0 {
        Some(0)
    } else {
        match watched(times.drop_last()) {
            None => None,
            Some(n) => {
                let k = counted_restarts(n, times.last().0, times.last().1);
                if k > 3 {
                    None
                } else {
                    Some(k)
                }
            },
        }
    }
}

/// When dsh exits again and again within a minute, it is started three times more and then
/// no more.
pub proof fn law_three_restarts(times: Seq<(u64, u32)>)
    requires
        forall|i: int|
            0 <= i < times.len() ==> !past_minute((#[trigger] times[i]).0, times[i].1),
    ensures
        watched(times) == (if times.len() <= 3 {
            Some(times.len() as int)
        } else {
            None
        }),
    decreases times.len(),
{
    if times.len() > 0 {
        let init = times.drop_last();
        assert(!past_minute(times[times.len() - 1].0, times[times.len() - 1].1));
        assert forall|i: int| 0 <= i < init.len() implies !past_minute(
            (#[trigger] init[i]).0,
            init[i].1,
        ) by {
            assert(init[i] == times[i]);
        }
        law_three_restarts(init);
    }
}

/// How far restarting dsh by hand has come.
pub enum RestartEvent {
    /// It begins; the port of dsh where it was started.
    Begin(Option<u16>),
    /// The process was killed, where there was one.
    Killed(u16, bool),
    /// The port was waited for; whether it answers.
    Waited(bool),
}

/// What to do next when dsh is restarted by hand.
pub enum RestartStep {
    Kill(u16),
    /// Wait so many seconds for the port.
    Wait(u16, u64),
    /// Reload the window where it says so, then report.
    Done { reload: bool, result: AisActionResult },
}

/// The end is reported.
pub open spec fn restart_ends(r: RestartStep, ok: bool, message: Seq<char>) -> bool {
    &&& r matches RestartStep::Done { reload, result }
    &&& reload == ok
    &&& result@ == ActionView { ok, message, models: Seq::empty() }
}

fn restart_end(ok: bool, message: &str) -> (r: RestartStep)
    ensures
        restart_ends(r, ok, message@),
{
    let none: Vec<String> = Vec::new();
    assert(none@.map_values(|s: String| s@) == Seq::<Seq<char>>::empty());
    let result = AisActionResult { ok, message: message.to_owned(), models: none };
    RestartStep::Done { reload: ok, result }
}

/// Restarts dsh by hand: kills it, and waits until it is up again.
pub fn restart_dsh_inner(event: &RestartEvent) -> (r: RestartStep)
    ensures
        match *event {
            RestartEvent::Begin(None) => restart_ends(
                r,
                false,
                "dsh 尚未启动，无需重启。"@,
            ),
            RestartEvent::Begin(Some(p)) => r == RestartStep::Kill(p),
            RestartEvent::Killed(_, false) => restart_ends(
                r,
                false,
                "未找到运行中的 dsh 进程（可能在重启中），稍后再试。"@,
            ),
            RestartEvent::Killed(p, true) => r == RestartStep::Wait(p, 25),
            RestartEvent::Waited(false) => restart_ends(
                r,
                false,
                "dsh 重启超时，请到「环境检查 / 安装日志」查看。"@,
            ),
            RestartEvent::Waited(true) => restart_ends(
                r,
                true,
                "dsh 已重启，新配置已生效。"@,
            ),
        },
{
    match event {
        RestartEvent::Begin(None) => restart_end(false, "dsh 尚未启动，无需重启。"),
        RestartEvent::Begin(Some(p)) => RestartStep::Kill(*p),
        RestartEvent::Killed(_, false) => restart_end(
            false,
            "未找到运行中的 dsh 进程（可能在重启中），稍后再试。",
        ),
        RestartEvent::Killed(p, true) => RestartStep::Wait(*p, 25),
        RestartEvent::Waited(false) => restart_end(
            false,
            "dsh 重启超时，请到「环境检查 / 安装日志」查看。",
        ),
        RestartEvent::Waited(true) => restart_end(true, "dsh 已重启，新配置已生效。"),
    }
}

/// What an installation that is under way shows.
#[derive(Clone, Copy)]
pub enum InstallState {
    Exited(bool),
    Running,
    Unknown,
}

/// How far an installation has come.
pub enum InstallEvent {
    /// Its process was to be started.
    Started(Result<(), String>),
    /// It was looked at, so long after it was started.
    Seen { state: InstallState, secs: u64, nanos: u32 },
    /// Its processes were killed.
    Killed,
    /// Its process is forgotten and its output read; whether it succeeded.
    Settled(bool),
    /// The environment was looked at anew; whether it is well.
    Detected(bool),
}

/// What is reported of an installation.
pub struct InstallReport {
    pub success: bool,
    pub message: String,
}

/// What to do next about an installation.
pub enum InstallStep {
    /// Look at it after so many milliseconds.
    Look(u64),
    /// It took too long: log it, and kill its group of processes.
    Kill(String),
    /// It is over: forget its process and read the rest of its output; whether it succeeded.
    Settle(bool),
    /// Look at the environment anew.
    Detect,
    /// Log the line where there is one, then report; open the main window after so many
    /// milliseconds where it says so.
    Done { log: Option<String>, report: InstallReport, launch_after: Option<u64> },
}

/// What to do next about an installation.
pub enum InstallView {
    Look(u64),
    Kill(Seq<char>),
    Settle(bool),
    Detect,
    Done { log: Option<Seq<char>>, success: bool, message: Seq<char>, launch_after: Option<u64> },
}

impl View for InstallStep {
    type V = InstallView;

    open spec fn view(&self) -> InstallView {
        match self {
            InstallStep::Look(ms) => InstallView::Look(*ms),
            InstallStep::Kill(l) => InstallView::Kill(l@),
            InstallStep::Settle(ok) => InstallView::Settle(*ok),
            InstallStep::Detect => InstallView::Detect,
            InstallStep::Done { log, report, launch_after } => InstallView::Done {
                log: match log {
                    Some(l) => Some(l@),
                    None => None,
                },
                success: report.success,
                message: report.message@,
                launch_after: *launch_after,
            },
        }
    }
}

/// An installation has taken longer than it may.
pub open spec fn past_install(secs: u64, nanos: u32) -> bool {
    secs > INSTALL_TIMEOUT_SECS || (secs == INSTALL_TIMEOUT_SECS && nanos > 0)
}

/// Whether an installation has taken longer than it may, so long after it was started.
pub fn install_late(secs: u64, nanos: u32) -> (r: bool)
    ensures
        r == (secs > 900 || (secs == 900 && nanos > 0)),
{
    secs > INSTALL_TIMEOUT_SECS || (secs == INSTALL_TIMEOUT_SECS && nanos > 0)
}

/// An installation that failed is reported so, and the main window is not opened.
pub open spec fn install_failed(log: Option<Seq<char>>, message: Seq<char>) -> InstallView {
    InstallView::Done { log, success: false, message, launch_after: None }
}

/// What an installation leads to from each event on.
pub open spec fn next_install(event: InstallEvent) -> InstallView {
    match event {
        InstallEvent::Started(Ok(_)) => InstallView::Look(0),
        InstallEvent::Started(Err(e)) => install_failed(
            Some("[install] 启动安装进程失败: "@ + e@),
            "启动安装进程失败: "@ + e@,
        ),
        InstallEvent::Seen { state, secs, nanos } => match state {
            InstallState::Exited(ok) => InstallView::Settle(ok),
            InstallState::Unknown => InstallView::Settle(false),
            InstallState::Running => if past_install(secs, nanos) {
                InstallView::Kill("[install] 安装超时，终止进程组"@)
            } else {
                InstallView::Look(200)
            },
        },
        InstallEvent::Killed => InstallView::Settle(false),
        InstallEvent::Settled(true) => InstallView::Detect,
        InstallEvent::Settled(false) => install_failed(
            None,
            "自动安装失败，请使用下方命令在终端中手动安装。"@,
        ),
        InstallEvent::Detected(true) => InstallView::Done {
            log: None,
            success: true,
            message: ""@,
            launch_after: Some(800),
        },
        InstallEvent::Detected(false) => install_failed(
            None,
            "安装命令已执行，但检测仍不通过"@,
        ),
    }
}

fn install_over(log: Option<String>, success: bool, message: String) -> (r: InstallStep)
    ensures
        r@ == (InstallView::Done {
            log: match log {
                Some(l) => Some(l@),
                None => None,
            },
            success,
            message: message@,
            launch_after: if success {
                Some(800u64)
            } else {
                None
            },
        }),
{
    let launch_after: Option<u64> = if success {
        Some(800)
    } else {
        None
    };
    InstallStep::Done { log, report: InstallReport { success, message }, launch_after }
}

/// Installs dsh: follows the installation until it is over or takes too long, and reports
/// success only where it succeeded and the environment is well.
pub fn install_dsh(event: &InstallEvent) -> (r: InstallStep)
    ensures
        r@ == next_install(*event),
{
    match event {
        InstallEvent::Started(Ok(_)) => InstallStep::Look(0),
        InstallEvent::Started(Err(e)) => install_over(
            Some(text::joined_pair("[install] 启动安装进程失败: ", e.as_str())),
            false,
            text::joined_pair("启动安装进程失败: ", e.as_str()),
        ),
        InstallEvent::Seen { state, secs, nanos } => match state {
            InstallState::Exited(ok) => InstallStep::Settle(*ok),
            InstallState::Unknown => InstallStep::Settle(false),
            InstallState::Running => {
                if install_late(*secs, *nanos) {
                    InstallStep::Kill("[install] 安装超时，终止进程组".to_owned())
                } else {
                    InstallStep::Look(200)
                }
            },
        },
        InstallEvent::Killed => InstallStep::Settle(false),
        InstallEvent::Settled(true) => InstallStep::Detect,
        InstallEvent::Settled(false) => install_over(
            None,
            false,
            "自动安装失败，请使用下方命令在终端中手动安装。".to_owned(),
        ),
        InstallEvent::Detected(true) => install_over(None, true, "".to_owned()),
        InstallEvent::Detected(false) => install_over(
            None,
            false,
            "安装命令已执行，但检测仍不通过".to_owned(),
        ),
    }
}

/// An installation that still runs after a quarter of an hour is killed and forgotten, and
/// then reported as failed; the main window is not opened.
pub proof fn law_late_installation_fails(secs: u64, nanos: u32)
    requires
        secs > 15 * 60 || (secs == 15 * 60 && nanos > 0),
    ensures
        next_install(
            (InstallEvent::Seen { state: InstallState::Running, secs, nanos }),
        ) is Kill,
        next_install(InstallEvent::Killed) == InstallView::Settle(false),
        next_install(InstallEvent::Settled(false)) matches InstallView::Done {
            success,
            launch_after,
            ..
        } && !success && launch_after is None,
{
}

/// The main window is opened only where the installation is reported as a success, and a
/// success is reported only where the environment was found well.
pub proof fn law_success_means_well(event: InstallEvent)
    ensures
        next_install(event) matches InstallView::Done { success, launch_after, .. } ==> (
        launch_after is Some <==> success) && (success <==> event == InstallEvent::Detected(true)),
{
}

/// How far opening the main window has come.
#[derive(Clone, Copy)]
pub enum LaunchEvent {
    /// It begins; the candidate that was chosen as dsh, where there is one.
    Begin(Option<usize>),
    /// A free port was found for the candidate.
    Port(usize, u16),
    /// The candidate was to be started on the port; whether it is up.
    Started(usize, u16, bool),
}

/// What to do next when the main window is opened.
pub enum LaunchStep {
    /// Look for a free port from `start` on.
    FindPort { candidate: usize, start: u16 },
    /// Remember the port as that of dsh, and start the candidate on it.
    Start { candidate: usize, port: u16, attempts: u32 },
    /// Log the line where there is one, watch dsh where it says so, and show the port with
    /// the version of the candidate that was chosen.
    Show { chosen: Option<usize>, port: u16, watch: bool, log: Option<String> },
}

/// Opens the main window: on the port on which the chosen candidate is started, the first
/// free one. Where none is chosen, nothing is started and no port remembered.
pub fn launch_main(event: LaunchEvent) -> (r: LaunchStep)
    ensures
        match event {
            LaunchEvent::Begin(None) => r == (LaunchStep::Show {
                chosen: None,
                port: PORT,
                watch: false,
                log: None,
            }),
            LaunchEvent::Begin(Some(i)) => r == (LaunchStep::FindPort {
                candidate: i,
                start: PORT,
            }),
            LaunchEvent::Port(i, p) => r == (LaunchStep::Start {
                candidate: i,
                port: p,
                attempts: 3,
            }),
            LaunchEvent::Started(i, p, up) => {
                &&& r matches LaunchStep::Show { chosen, port, watch, log }
                &&& chosen == Some(i)
                &&& port == p
                &&& watch == up
                &&& up ==> log is None
                &&& !up ==> (log matches Some(l) && l@
                    == "[dsh] 多次启动失败，dsh web 可能无法正常使用"@)
            },
        },
{
    match event {
        LaunchEvent::Begin(None) => LaunchStep::Show {
            chosen: None,
            port: PORT,
            watch: false,
            log: None,
        },
        LaunchEvent::Begin(Some(i)) => LaunchStep::FindPort { candidate: i, start: PORT },
        LaunchEvent::Port(i, p) => LaunchStep::Start { candidate: i, port: p, attempts: 3 },
        LaunchEvent::Started(i, p, up) => {
            let log = if up {
                None
            } else {
                Some("[dsh] 多次启动失败，dsh web 可能无法正常使用".to_owned())
            };
            LaunchStep::Show { chosen: Some(i), port: p, watch: up, log }
        },
    }
}

/// What the main window shows: the address of dsh, and a title with its version.
pub struct MainWindow {
    pub url: String,
    pub title: String,
    pub version: String,
}

/// What the main window shows for the port and the version of dsh, "未知" where none is
/// known.
pub fn main_window(port: u16, version: Option<String>) -> (r: MainWindow)
    ensures
        r.url@ == "http://"@ + HOST@ + ":"@ + text::decimal(port as nat),
        r.version@ == match version {
            Some(v) => v@,
            None => "未知"@,
        },
        r.title@ == "DeepSeek Harness · dsh "@ + r.version@,
{
    let mut url = text::joined_three("http://", HOST, ":");
    url.append(text::show_number(port as u64).as_str());
    let version = match version {
        Some(v) => v,
        None => "未知".to_owned(),
    };
    let title = text::joined_pair("DeepSeek Harness · dsh ", version.as_str());
    MainWindow { url, title, version }
}

/// Whether the main window may go to an address with this host.
pub fn may_navigate(host: Option<&str>) -> (r: bool)
    ensures
        r == (host matches Some(h) && h@ == HOST@),
{
    match host {
        Some(h) => text::same_text(h, HOST),
        None => false,
    }
}

/// The part of the badge's script in front of the version.
pub const BADGE_HEAD: &'static str = "(function(){function step(){var b=document.getElementById('dsh-version-badge');if(!b){if(!document.body||document.readyState==='loading'){setTimeout(step,400);return;}b=document.createElement('div');b.id='dsh-version-badge';b.textContent='dsh ";

/// The part of the badge's script behind the version.
pub const BADGE_TAIL: &'static str = "';b.style.cssText='position:fixed;right:10px;bottom:10px;z-index:2147483647;background:rgba(15,23,42,.82);color:#e2e8f0;font:12px -apple-system,BlinkMacSystemFont,sans-serif;padding:4px 9px;border-radius:6px;pointer-events:none;box-shadow:0 1px 4px rgba(0,0,0,.35)';document.body.appendChild(b);}setTimeout(step,5000);}step();})();";

/// The script that shows the version in a corner of the main window.
pub fn inject_version_badge(version: &str) -> (r: String)
    ensures
        r@ == BADGE_HEAD@ + version@ + BADGE_TAIL@,
{
    text::joined_three(BADGE_HEAD, version, BADGE_TAIL)
}

} // verus!
