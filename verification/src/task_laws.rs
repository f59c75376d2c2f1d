//! What setting the gateway up, refreshing its models and removing it promise of each turn.

use vstd::prelude::*;

use crate::actions;
use crate::actions::AisActionResult;
use crate::actions::ConfigFiles;
use crate::actions::ConfigWrite;
use crate::actions::OpenOutcome;
use crate::actions::TaskAction;
use crate::actions::TaskEvent;
use crate::actions::TaskStage;
use crate::actions::Writing;
use crate::default_model;
use crate::gateway;
use crate::json::JsonReply;
use crate::outside_text;
use crate::probe_laws;
use crate::provider;
use crate::provider::GatewayModel;
use crate::text;

verus! {

/// The task is over without success: `message` is shown, with the ids of `models`.
pub open spec fn fails(
    r: (TaskStage, TaskAction),
    message: Seq<char>,
    models: Seq<Seq<char>>,
) -> bool {
    &&& r.0 is Over
    &&& r.1 is Done
    &&& !r.1->Done_0.ok
    &&& r.1->Done_0.message@ == message
    &&& r.1->Done_0.models.len() == models.len()
    &&& forall|i: int|
        0 <= i < models.len() ==> (#[trigger] r.1->Done_0.models@[i])@ == models[i]
}

/// The models are asked for under the proxy.
pub open spec fn asks_for_models(a: TaskAction, proxy: Seq<char>) -> bool {
    &&& a is Ask
    &&& a->Ask_0 is Get
    &&& a->Ask_0->Get_url@ == proxy + "/codex/v1/models"@
    &&& a->Ask_0->Get_secs == 8
}

proof fn lemma_fails(r: (TaskStage, TaskAction), message: Seq<char>, models: Seq<Seq<char>>)
    requires
        actions::ends(r, actions::failed(message, models)),
    ensures
        fails(r, message, models),
{
    let x = r.1->Done_0;
    let v = x.models@.map_values(|s: String| s@);
    assert(x@.models == v);
    assert(x@.message == x.message@ && x@.ok == x.ok);
    assert forall|i: int| 0 <= i < models.len() implies (#[trigger] x.models@[i])@ == models[i] by {
        assert(v[i] == x.models@[i]@);
    }
}

/// No task goes on where the configuration cannot be locked. Then a setup asks for the models,
/// while a refresh and a removal read the files.
pub proof fn law_locked(
    set_default: bool,
    proxy: &str,
    e: Result<(), String>,
    s: (TaskStage, TaskAction),
    f: (TaskStage, TaskAction),
    m: (TaskStage, TaskAction),
)
    requires
        call_ensures(
            actions::setup,
            (set_default, proxy, TaskStage::Locking, TaskEvent::Locked(e)),
            s,
        ),
        call_ensures(actions::refresh, (proxy, TaskStage::Locking, TaskEvent::Locked(e)), f),
        call_ensures(actions::remove, (TaskStage::Locking, TaskEvent::Locked(e)), m),
    ensures
        e matches Err(t) ==> fails(s, t@, Seq::empty()) && fails(f, t@, Seq::empty()) && fails(
            m,
            t@,
            Seq::empty(),
        ),
        e is Ok ==> s.0 is Asking && asks_for_models(s.1, proxy@),
        e is Ok ==> f.0 is Reading && f.1 is ReadFiles,
        e is Ok ==> m.0 is Reading && m.1 is ReadFiles,
{
    if e is Err {
        lemma_fails(s, e->Err_0@, Seq::empty());
        lemma_fails(f, e->Err_0@, Seq::empty());
        lemma_fails(m, e->Err_0@, Seq::empty());
    }
}

/// A setup reads the files only where the gateway offers models, and goes on with these.
pub proof fn law_setup_asked(
    set_default: bool,
    proxy: &str,
    t: String,
    x: Result<JsonReply, String>,
    r: (TaskStage, TaskAction),
)
    requires
        call_ensures(
            actions::setup,
            (set_default, proxy, TaskStage::Asking(t), TaskEvent::Reply(x)),
            r,
        ),
    ensures
        gateway::gateway_or_err(proxy@, x) matches Ok(gw) ==> {
            &&& r.1 is ReadFiles
            &&& r.0 is Reading
            &&& r.0->Reading_0.len() == gw.len()
            &&& forall|i: int|
                0 <= i < gw.len() ==> (#[trigger] r.0->Reading_0@[i]).id@ == gw[i].0
                    && r.0->Reading_0@[i].name@ == gw[i].1
        },
        gateway::gateway_or_err(proxy@, x) matches Err(e) ==> fails(r, e, Seq::empty()),
{
    match gateway::gateway_or_err(proxy@, x) {
        Ok(gw) => {
            let m = r.0->Reading_0;
            let p = provider::model_pairs(m@);
            assert(p.len() == m.len());
            assert forall|i: int| 0 <= i < gw.len() implies (#[trigger] m@[i]).id@ == gw[i].0
                && m@[i].name@ == gw[i].1 by {
                assert(p[i] == (m@[i].id@, m@[i].name@));
            }
        },
        Err(e) => {
            lemma_fails(r, e, Seq::empty());
        },
    }
}

/// What is to be written, one change after the other, with the first asked for.
pub open spec fn queued(r: (TaskStage, TaskAction), n: int) -> bool {
    &&& r.0 is Writing
    &&& r.0->Writing_0.queue.len() == n
    &&& r.0->Writing_0.next == 0
    &&& r.1 is Write
    &&& r.1->Write_0@ == r.0->Writing_0.queue@[0]@
}

/// The texts are the ids of the models.
pub open spec fn shows_ids(v: Vec<String>, models: Seq<GatewayModel>) -> bool {
    &&& v.len() == models.len()
    &&& forall|i: int| 0 <= i < models.len() ==> (#[trigger] v@[i])@ == models[i].id@
}

proof fn lemma_ids(v: Vec<String>, models: Seq<GatewayModel>)
    requires
        v@.map_values(|s: String| s@) == gateway::model_ids(provider::model_pairs(models)),
    ensures
        shows_ids(v, models),
{
    let a = v@.map_values(|s: String| s@);
    let p = provider::model_pairs(models);
    let b = gateway::model_ids(p);
    assert(a.len() == v.len() && b.len() == p.len() && p.len() == models.len());
    assert forall|i: int| 0 <= i < models.len() implies (#[trigger] v@[i])@ == models[i].id@ by {
        assert(a[i] == v@[i]@);
        assert(b[i] == p[i].0);
        assert(p[i] == (models[i].id@, models[i].name@));
    }
}

/// A setup writes the settings and then the credentials. Where it sets the default model, it
/// keeps the one that was there before that, but only where none is kept.
pub proof fn law_setup_writes(
    set_default: bool,
    proxy: &str,
    m: Vec<GatewayModel>,
    f: ConfigFiles,
    r: (TaskStage, TaskAction),
)
    requires
        call_ensures(
            actions::setup,
            (set_default, proxy, TaskStage::Reading(m), TaskEvent::Files(Ok(f))),
            r,
        ),
    ensures
        ({
            let w = r.0->Writing_0;
            let q = w.queue@;
            let gw = provider::model_pairs(m@);
            let keep = set_default && !f.saved_exists;
            let n: int = if keep {
                3
            } else {
                2
            };
            &&& queued(r, n)
            &&& keep ==> q[0] is SaveDefault && q[0]->SaveDefault_0@ == default_model::saved_default(
                provider::with_provider(f.settings@, proxy@, gw),
            )
            &&& q[n - 2] is Settings
            &&& q[n - 2]->Settings_0@ == actions::setup_settings(
                f.settings@,
                proxy@,
                gw,
                set_default,
            )
            &&& q[n - 1] is Credentials
            &&& q[n - 1]->Credentials_0@ == actions::setup_cred(f.cred@, f.cred_exists)
            &&& shows_ids(w.models, m@)
            &&& shows_ids(w.shown, m@)
            &&& w.message@ == "已写入 ais-codex（"@ + text::decimal(m.len() as nat)
                + " 个模型）。保持 AIS Switch 开着，新开会话后选 llm-gateway--deepseek-v4-flash。"@
                + (if set_default {
                " 已把默认模型切到 Gateway Flash。"@
            } else {
                " 未改默认模型。"@
            })
        }),
{
    let w = r.0->Writing_0;
    let gw = provider::model_pairs(m@);
    assert(gw.len() == m.len());
    lemma_ids(w.models, m@);
    lemma_ids(w.shown, m@);
    lemma_queue(w.queue@, actions::setup_plan(f, proxy@, gw, set_default));
}

proof fn lemma_queue(q: Seq<ConfigWrite>, plan: Seq<actions::WriteView>)
    requires
        actions::writes(q) == plan,
    ensures
        q.len() == plan.len(),
        forall|i: int| 0 <= i < q.len() ==> (#[trigger] q[i])@ == plan[i],
{
    let v = actions::writes(q);
    assert forall|i: int| 0 <= i < q.len() implies (#[trigger] q[i])@ == plan[i] by {
        assert(v[i] == q[i]@);
    }
}

/// Files that cannot be read end a setup, and a removal too.
pub proof fn law_unread(
    set_default: bool,
    proxy: &str,
    m: Vec<GatewayModel>,
    e: String,
    s: (TaskStage, TaskAction),
    r: (TaskStage, TaskAction),
)
    requires
        call_ensures(
            actions::setup,
            (set_default, proxy, TaskStage::Reading(m), TaskEvent::Files(Err(e))),
            s,
        ),
        call_ensures(actions::remove, (TaskStage::Reading(m), TaskEvent::Files(Err(e))), r),
    ensures
        s.0 is Over && s.1 is Done && !s.1->Done_0.ok && s.1->Done_0.message@ == e@ && shows_ids(
            s.1->Done_0.models,
            m@,
        ),
        fails(r, e@, Seq::empty()),
{
    lemma_fails(r, e@, Seq::empty());
    let x = s.1->Done_0;
    assert(x@.models == x.models@.map_values(|s: String| s@));
    assert(x@.message == x.message@ && x@.ok == x.ok);
    lemma_ids(x.models, m@);
}

/// A refresh asks for the models only where the settings have the gateway's entry.
pub proof fn law_refresh_reads(
    proxy: &str,
    m: Vec<GatewayModel>,
    f: Result<ConfigFiles, String>,
    r: (TaskStage, TaskAction),
)
    requires
        call_ensures(actions::refresh, (proxy, TaskStage::Reading(m), TaskEvent::Files(f)), r),
    ensures
        f is Ok && probe_laws::gateway_line(f->Ok_0.settings@) ==> r.0 is Asking
            && r.0->Asking_0@ == f->Ok_0.settings@ && asks_for_models(r.1, proxy@),
        f is Err || !probe_laws::gateway_line(f->Ok_0.settings@) ==> fails(
            r,
            "本地还没有 ais-codex，请先点「接入」。"@,
            Seq::empty(),
        ),
{
    if f is Ok {
        probe_laws::law_has_provider(f->Ok_0.settings@);
    }
    if f is Err || !provider::provider_in(f->Ok_0.settings@) {
        lemma_fails(r, "本地还没有 ais-codex，请先点「接入」。"@, Seq::empty());
    }
}

/// A refresh writes the settings with the models anew, and nothing else.
pub proof fn law_refresh_writes(
    proxy: &str,
    s: String,
    x: Result<JsonReply, String>,
    r: (TaskStage, TaskAction),
)
    requires
        call_ensures(actions::refresh, (proxy, TaskStage::Asking(s), TaskEvent::Reply(x)), r),
    ensures
        gateway::gateway_or_err(proxy@, x) matches Ok(gw) ==> {
            let w = r.0->Writing_0;
            &&& queued(r, 1)
            &&& w.queue@[0] is Settings
            &&& w.queue@[0]->Settings_0@ == provider::with_provider(s@, proxy@, gw)
            &&& w.message@ == "已刷新 "@ + text::decimal(gw.len())
                + " 个 Gateway 模型（未改默认模型 / 凭据）。新开会话后生效。"@
            &&& w.shown.len() == gw.len()
            &&& forall|i: int| 0 <= i < gw.len() ==> (#[trigger] w.shown@[i])@ == gw[i].0
        },
        gateway::gateway_or_err(proxy@, x) matches Err(e) ==> fails(r, e, Seq::empty()),
{
    match gateway::gateway_or_err(proxy@, x) {
        Ok(gw) => {
            let w = r.0->Writing_0;
            lemma_queue(
                w.queue@,
                seq![actions::WriteView::Settings(provider::with_provider(s@, proxy@, gw))],
            );
            let a = w.shown@.map_values(|s: String| s@);
            let b = gateway::model_ids(gw);
            assert(a.len() == w.shown.len() && b.len() == gw.len());
            assert forall|i: int| 0 <= i < gw.len() implies (#[trigger] w.shown@[i])@ == gw[i].0 by {
                assert(a[i] == w.shown@[i]@);
                assert(b[i] == gw[i].0);
            }
        },
        Err(e) => {
            lemma_fails(r, e, Seq::empty());
        },
    }
}

/// A removal writes the settings where there are any, then the credentials where there are
/// any, and drops the default model that was kept last.
pub proof fn law_removal_writes(m: Vec<GatewayModel>, f: ConfigFiles, r: (TaskStage, TaskAction))
    requires
        call_ensures(actions::remove, (TaskStage::Reading(m), TaskEvent::Files(Ok(f))), r),
    ensures
        ({
            let w = r.0->Writing_0;
            let q = w.queue@;
            let saved = match f.saved {
                Some(t) => Some(t@),
                None => None,
            };
            let s = actions::removed_settings(f.settings@, saved);
            let a: int = if f.settings_exists || !text::blank(s) {
                1
            } else {
                0
            };
            let b: int = if f.cred_exists {
                1
            } else {
                0
            };
            &&& queued(r, a + b + 1)
            &&& a == 1 ==> q[0] is Settings && q[0]->Settings_0@ == s
            &&& b == 1 ==> q[a] is Credentials && q[a]->Credentials_0@ == actions::removed_cred(
                f.cred@,
            )
            &&& q[a + b] is DropDefault
            &&& w.shown.len() == 0
            &&& w.models.len() == 0
            &&& w.message@
                == "已移除 ais-codex 与 AIS_CODEX_API_KEY。官方 DEEPSEEK_API_KEY 未动；默认模型已还原（若接入时设为默认）。新开会话后生效。"@
        }),
{
    let w = r.0->Writing_0;
    lemma_queue(w.queue@, actions::remove_plan(f));
    assert(w.shown@.map_values(|s: String| s@).len() == w.shown.len());
    assert(w.models@.map_values(|s: String| s@).len() == w.models.len());
}

/// The changes are made in their order. One that fails ends the task, unless it is that the
/// kept default model cannot be dropped; after the last the message is shown.
pub proof fn law_one_by_one(
    set_default: bool,
    proxy: &str,
    w: Writing,
    e: Result<(), String>,
    s: (TaskStage, TaskAction),
    f: (TaskStage, TaskAction),
    m: (TaskStage, TaskAction),
)
    requires
        w.next < w.queue.len(),
        call_ensures(
            actions::setup,
            (set_default, proxy, TaskStage::Writing(w), TaskEvent::Written(e)),
            s,
        ),
        call_ensures(actions::refresh, (proxy, TaskStage::Writing(w), TaskEvent::Written(e)), f),
        call_ensures(actions::remove, (TaskStage::Writing(w), TaskEvent::Written(e)), m),
    ensures
        follows(w, e, s) && follows(w, e, f) && follows(w, e, m),
{
    lemma_follows(w, e, s);
    lemma_follows(w, e, f);
    lemma_follows(w, e, m);
}

/// What follows on a change that was made or failed.
pub open spec fn follows(w: Writing, e: Result<(), String>, r: (TaskStage, TaskAction)) -> bool {
    let tolerated = w.queue@[w.next as int] is DropDefault;
    &&& e is Err && !tolerated ==> {
        &&& r.0 is Over
        &&& r.1 is Done
        &&& !r.1->Done_0.ok
        &&& r.1->Done_0.message@ == e->Err_0@
        &&& r.1->Done_0.models.len() == w.models.len()
        &&& forall|i: int|
            0 <= i < w.models.len() ==> (#[trigger] r.1->Done_0.models@[i])@ == w.models@[i]@
    }
    &&& (e is Ok || tolerated) && w.next + 1 < w.queue.len() ==> {
        &&& r.0 is Writing
        &&& r.0->Writing_0.next == w.next + 1
        &&& r.0->Writing_0.queue.len() == w.queue.len()
        &&& r.0->Writing_0.message@ == w.message@
        &&& r.0->Writing_0.models == w.models
        &&& r.0->Writing_0.shown == w.shown
        &&& r.1 is Write
        &&& r.1->Write_0@ == w.queue@[w.next + 1]@
        &&& forall|i: int|
            0 <= i < w.queue.len() ==> (#[trigger] r.0->Writing_0.queue@[i])@ == w.queue@[i]@
    }
    &&& (e is Ok || tolerated) && w.next + 1 == w.queue.len() ==> {
        &&& r.0 is Over
        &&& r.1 is Done
        &&& r.1->Done_0.ok
        &&& r.1->Done_0.message@ == w.message@
        &&& r.1->Done_0.models.len() == w.shown.len()
        &&& forall|i: int|
            0 <= i < w.shown.len() ==> (#[trigger] r.1->Done_0.models@[i])@ == w.shown@[i]@
    }
}

proof fn lemma_follows(w: Writing, e: Result<(), String>, r: (TaskStage, TaskAction))
    requires
        w.next < w.queue.len(),
        actions::goes_on(w, e, r),
    ensures
        follows(w, e, r),
{
    let plan = actions::writes(w.queue@);
    lemma_queue(w.queue@, plan);
    assert(w.queue@[w.next as int]@ == plan[w.next as int]);
    if r.0 is Writing {
        let v = r.0->Writing_0;
        lemma_queue(v.queue@, plan);
        if w.next + 1 < w.queue.len() {
            assert(w.queue@[w.next + 1]@ == plan[w.next + 1]);
        }
    }
    if r.1 is Done {
        let x = r.1->Done_0;
        let a = x.models@.map_values(|s: String| s@);
        let b = w.shown@.map_values(|s: String| s@);
        let c = w.models@.map_values(|s: String| s@);
        assert(x@.models == a && x@.message == x.message@ && x@.ok == x.ok);
        assert(a.len() == x.models.len() && b.len() == w.shown.len() && c.len() == w.models.len());
        if a == c {
            assert forall|i: int| 0 <= i < w.models.len() implies (#[trigger] x.models@[i])@
                == w.models@[i]@ by {
                assert(a[i] == c[i]);
            }
        }
        if a == b {
            assert forall|i: int| 0 <= i < w.shown.len() implies (#[trigger] x.models@[i])@
                == w.shown@[i]@ by {
                assert(a[i] == b[i]);
            }
        }
    }
}

/// Opening the app succeeds exactly where the program that opens it does, and else tells what
/// that complained of.
pub proof fn law_open(o: &OpenOutcome, r: AisActionResult)
    requires
        call_ensures(actions::open_app, (o,), r),
    ensures
        r.ok <==> o is Ran && o->success,
        r.models.len() == 0,
        o is NotRun ==> r.message@ == "无法执行 open: "@ + o->NotRun_0@,
        o is Ran && o->success ==> r.message@
            == "已打开 AIS Switch。请确认 Codex 路由已开，然后点「体检」。"@,
        o is Ran && !o->success && text::blank(outside_text::lossy(o->stderr@)) ==> r.message@
            == "打不开 AIS Switch，请确认已安装到 /Applications。"@,
        o is Ran && !o->success && !text::blank(outside_text::lossy(o->stderr@)) ==> r.message@
            == "打不开 AIS Switch："@ + text::trimmed(outside_text::lossy(o->stderr@)),
{
    assert(r@.models.len() == r.models.len());
    assert(r@.message == r.message@ && r@.ok == r.ok);
}

} // verus!
