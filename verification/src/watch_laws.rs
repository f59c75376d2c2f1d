//! What starting dsh, watching it, restarting it and following its installation promise of
//! each call.

use vstd::prelude::*;

use crate::supervise;
use crate::supervise::InstallEvent;
use crate::supervise::InstallState;
use crate::supervise::InstallStep;
use crate::supervise::InstallView;
use crate::supervise::LaunchEvent;
use crate::supervise::LaunchStep;
use crate::supervise::MainWindow;
use crate::supervise::MonitorEvent;
use crate::supervise::MonitorStep;
use crate::supervise::PortChoice;
use crate::supervise::RestartEvent;
use crate::supervise::RestartStep;
use crate::supervise::StartEvent;
use crate::supervise::StartNext;
use crate::supervise::StartStep;
use crate::supervise::WaitStep;
use crate::text;

verus! {

/// A free port is taken. One in use leads to the one above it, and the last of a thousand back
/// to the first, which is taken as it is.
pub proof fn law_port(start: u16, tried: u16, in_use: bool, r: PortChoice)
    requires
        start + 1000 <= u16::MAX,
        start <= tried < start + 1000,
        call_ensures(supervise::find_free_port, (start, tried, in_use), r),
    ensures
        r matches PortChoice::Use(p) ==> (p == tried && !in_use) || (p == start && tried == start
            + 999 && in_use),
        r matches PortChoice::Try(p) ==> in_use && p == tried + 1 && p < start + 1000,
{
}

/// A port that answers is ready at once. One that does not is tried again a third of a second
/// later, as long as there is time.
pub proof fn law_wait(elapsed_ms: u64, timeout_ms: u64, answered: Option<bool>, r: WaitStep)
    requires
        call_ensures(supervise::wait_for_port, (elapsed_ms, timeout_ms, answered), r),
    ensures
        r is Ready <==> answered == Some(true),
        r is Sleep <==> answered == Some(false),
        r matches WaitStep::Sleep(ms) ==> ms == 300,
        r is Probe <==> answered is None && elapsed_ms < timeout_ms,
        r is TimedOut <==> answered is None && elapsed_ms >= timeout_ms,
{
}

/// dsh is told to serve on the local host and the port, and not to open a browser.
pub proof fn law_dsh_args(port: u16, r: Vec<String>)
    requires
        call_ensures(supervise::dsh_args, (port,), r),
    ensures
        r.len() == 6,
        r@[0]@ == "web"@,
        r@[1]@ == "--host"@,
        r@[2]@ == "127.0.0.1"@,
        r@[3]@ == "--port"@,
        r@[4]@ == text::decimal(port as nat),
        r@[5]@ == "--no-open"@,
{
    let v = r@.map_values(|s: String| s@);
    assert(v == supervise::dsh_args_view(port));
    assert(v.len() == 6);
    assert(v[0] == r@[0]@ && v[1] == r@[1]@ && v[2] == r@[2]@ && v[3] == r@[3]@ && v[4] == r@[4]@
        && v[5] == r@[5]@);
}

/// The attempts to start dsh are made one after the other until it is up or the last one is
/// made. A process is killed only where its port did not answer in time, and every failure is
/// logged with the number of the attempt.
pub proof fn law_attempts(i: u32, n: u32, event: &StartEvent, r: StartStep)
    requires
        1 <= i <= n,
        call_ensures(supervise::start_dsh_with_retry, (i, n, event), r),
    ensures
        r.next is Up <==> event is Ready,
        r.next is GaveUp <==> !(event is Ready) && i == n,
        r.next matches StartNext::Try(k) ==> k == i + 1 && k <= n,
        r.kill <==> event is TimedOut,
        r.log is None <==> event is Ready,
        event is TimedOut ==> r.log->0@ == "[dsh] 启动超时"@ + ("（第 "@ + text::decimal(i as nat)
            + "/"@ + text::decimal(n as nat) + " 次）"@),
        event matches StartEvent::Failed(e) ==> r.log->0@ == "[dsh] 启动失败"@ + ("（第 "@
            + text::decimal(i as nat) + "/"@ + text::decimal(n as nat) + " 次）"@) + ": "@ + e@,
{
}

/// dsh that runs is looked at every second. When it has exited it is started again, counted
/// anew after a minute, and no more than three times within one; never while the app quits.
pub proof fn law_watch(event: MonitorEvent, restarts: u32, r: MonitorStep)
    requires
        restarts <= 3,
        call_ensures(supervise::monitor_dsh, (event, restarts), r),
    ensures
        event is Running ==> r == MonitorStep::Watch(1000),
        event == MonitorEvent::Restarted(true) ==> r == MonitorStep::Watch(0),
        event == MonitorEvent::Restarted(false) ==> r is Stop && r->why is Some && r->why->0@
            == "[dsh] 自动重启失败"@,
        event matches MonitorEvent::Exited { quitting, secs, nanos } ==> {
            &&& quitting ==> r is Stop && r->why is None
            &&& !quitting && (secs > 60 || (secs == 60 && nanos > 0)) ==> {
                &&& r is Restart
                &&& r->Restart_restarts == 1
                &&& r->fresh
                &&& r->attempts == 1
            }
            &&& !quitting && (secs < 60 || (secs == 60 && nanos == 0)) && restarts < 3 ==> {
                &&& r is Restart
                &&& r->Restart_restarts == restarts + 1
                &&& !r->fresh
                &&& r->attempts == 1
            }
            &&& !quitting && (secs < 60 || (secs == 60 && nanos == 0)) && restarts == 3 ==> {
                &&& r is Stop
                &&& r->why is Some
                &&& r->why->0@ == "[dsh] 连续崩溃过多，停止自动重启，请手动重启应用"@
            }
            &&& r is Restart ==> r->log@ == "[dsh] 进程退出，自动重启（第 "@ + text::decimal(
                r->Restart_restarts as nat,
            ) + " 次）..."@
        },
{
}

/// dsh is restarted by hand only where it was started: its process is killed, and success is
/// reported, with the window reloaded, only where its port answers again within 25 seconds.
pub proof fn law_restart(event: &RestartEvent, r: RestartStep)
    requires
        call_ensures(supervise::restart_dsh_inner, (event,), r),
    ensures
        event matches RestartEvent::Begin(Some(p)) ==> r == RestartStep::Kill(*p),
        event matches RestartEvent::Killed(p, true) ==> r == RestartStep::Wait(*p, 25),
        r is Done <==> *event == RestartEvent::Begin(None) || (event is Killed && !event->Killed_1)
            || event is Waited,
        r matches RestartStep::Done { reload, result } ==> {
            &&& reload == (*event == RestartEvent::Waited(true))
            &&& result.ok == reload
            &&& result@.models.len() == 0
            &&& event is Begin ==> result.message@ == "dsh 尚未启动，无需重启。"@
            &&& event is Killed ==> result.message@
                == "未找到运行中的 dsh 进程（可能在重启中），稍后再试。"@
            &&& *event == RestartEvent::Waited(false) ==> result.message@
                == "dsh 重启超时，请到「环境检查 / 安装日志」查看。"@
            &&& *event == RestartEvent::Waited(true) ==> result.message@
                == "dsh 已重启，新配置已生效。"@
        },
{
}

/// An installation is late after 15 minutes.
pub proof fn law_install_late(secs: u64, nanos: u32, r: bool)
    requires
        call_ensures(supervise::install_late, (secs, nanos), r),
    ensures
        r <==> secs > 15 * 60 || (secs == 15 * 60 && nanos > 0),
{
}

/// An installation that runs is looked at every fifth of a second until it is late, and killed
/// then. It is settled once it is over, as a success only where its process was one; then the
/// environment is looked at; then the end is reported.
pub proof fn law_install(event: &InstallEvent, r: InstallStep)
    requires
        call_ensures(supervise::install_dsh, (event,), r),
    ensures
        event matches InstallEvent::Seen { state, secs, nanos } ==> {
            &&& state matches InstallState::Exited(ok) ==> r@ == InstallView::Settle(*ok)
            &&& state is Unknown ==> r@ == InstallView::Settle(false)
            &&& state is Running && (secs > 900 || (secs == 900 && nanos > 0)) ==> r@
                == InstallView::Kill("[install] 安装超时，终止进程组"@)
            &&& state is Running && (secs < 900 || (secs == 900 && nanos == 0)) ==> r@
                == InstallView::Look(200)
        },
        event is Killed ==> r@ == InstallView::Settle(false),
        *event == InstallEvent::Settled(true) ==> r@ == InstallView::Detect,
        event matches InstallEvent::Started(Ok(_)) ==> r@ == InstallView::Look(0),
        event matches InstallEvent::Started(Err(e)) ==> r@ == (InstallView::Done {
            log: Some("[install] 启动安装进程失败: "@ + e@),
            success: false,
            message: "启动安装进程失败: "@ + e@,
            launch_after: None,
        }),
        *event == InstallEvent::Settled(false) ==> r@ == (InstallView::Done {
            log: None,
            success: false,
            message: "自动安装失败，请使用下方命令在终端中手动安装。"@,
            launch_after: None,
        }),
        *event == InstallEvent::Detected(true) ==> r@ == (InstallView::Done {
            log: None,
            success: true,
            message: ""@,
            launch_after: Some(800u64),
        }),
        *event == InstallEvent::Detected(false) ==> r@ == (InstallView::Done {
            log: None,
            success: false,
            message: "安装命令已执行，但检测仍不通过"@,
            launch_after: None,
        }),
{
}

/// The chosen candidate is started in up to three attempts on a free port from 3080 on, and
/// watched only where it is up; the window shows that port, and 3080 where nothing was chosen.
pub proof fn law_launch(event: LaunchEvent, r: LaunchStep)
    requires
        call_ensures(supervise::launch_main, (event,), r),
    ensures
        event == LaunchEvent::Begin(None) ==> r == (LaunchStep::Show {
            chosen: None,
            port: 3080,
            watch: false,
            log: None,
        }),
        event matches LaunchEvent::Begin(Some(i)) ==> r == (LaunchStep::FindPort {
            candidate: i,
            start: 3080,
        }),
        event matches LaunchEvent::Port(i, p) ==> r == (LaunchStep::Start {
            candidate: i,
            port: p,
            attempts: 3,
        }),
        event matches LaunchEvent::Started(i, p, up) ==> {
            &&& r is Show
            &&& r->chosen == Some(i)
            &&& r->Show_port == p
            &&& r->watch == up
            &&& r->log is None <==> up
            &&& !up ==> r->log->0@ == "[dsh] 多次启动失败，dsh web 可能无法正常使用"@
        },
{
}

/// The main window shows the local address with the port, and the version in its title.
pub proof fn law_window(port: u16, version: Option<String>, r: MainWindow)
    requires
        call_ensures(supervise::main_window, (port, version), r),
    ensures
        r.url@ == "http://"@ + "127.0.0.1"@ + ":"@ + text::decimal(port as nat),
        version is Some ==> r.version@ == version->0@ && r.title@ == "DeepSeek Harness · dsh "@
            + version->0@,
        version is None ==> r.version@ == "未知"@ && r.title@ == "DeepSeek Harness · dsh "@
            + "未知"@,
{
}

/// The main window stays on the local host.
pub proof fn law_navigation(host: Option<&str>, r: bool)
    requires
        call_ensures(supervise::may_navigate, (host,), r),
    ensures
        r <==> host is Some && host->0@ == "127.0.0.1"@,
{
}

/// The badge shows the version: two badges differ exactly where their versions do.
pub proof fn law_badge(a: &str, b: &str, ra: String, rb: String)
    requires
        call_ensures(supervise::inject_version_badge, (a,), ra),
        call_ensures(supervise::inject_version_badge, (b,), rb),
    ensures
        ra@ == "(function(){function step(){var b=document.getElementById('dsh-version-badge');if(!b){if(!document.body||document.readyState==='loading'){setTimeout(step,400);return;}b=document.createElement('div');b.id='dsh-version-badge';b.textContent='dsh "@
            + a@ + "';b.style.cssText='position:fixed;right:10px;bottom:10px;z-index:2147483647;background:rgba(15,23,42,.82);color:#e2e8f0;font:12px -apple-system,BlinkMacSystemFont,sans-serif;padding:4px 9px;border-radius:6px;pointer-events:none;box-shadow:0 1px 4px rgba(0,0,0,.35)';document.body.appendChild(b);}setTimeout(step,5000);}step();})();"@,
        ra@ == rb@ <==> a@ == b@,
{
    let h = supervise::BADGE_HEAD@;
    let t = supervise::BADGE_TAIL@;
    assert(ra@ == h + a@ + t);
    assert(rb@ == h + b@ + t);
    if ra@ == rb@ {
        assert(a@.len() == b@.len());
        let n = h.len() as int;
        assert(ra@.subrange(n, n + a@.len()) == a@);
        assert(rb@.subrange(n, n + b@.len()) == b@);
    }
}

} // verus!
