//! What each probe of the gateway promises, and how the check goes from one to the next.

use vstd::prelude::*;

use crate::check;
use crate::check::AisStep;
use crate::check::CheckAction;
use crate::check::CheckEvent;
use crate::check::CheckState;
use crate::credentials;
use crate::gateway;
use crate::json::JsonReply;
use crate::json::JsonView;
use crate::lines;
use crate::outside_text;
use crate::provider;
use crate::report_laws;
use crate::shape;
use crate::text;
use crate::text_laws;

verus! {

/// The first probe succeeds exactly where the gateway answers with the status 200.
pub proof fn law_health(proxy: &str, x: &Result<JsonReply, String>, r: AisStep)
    requires
        call_ensures(check::check_health, (proxy, x), r),
    ensures
        r.name@ == "/health"@,
        r.ok <==> x is Ok && x->Ok_0.status == 200,
        r.ok ==> r.detail@ == "ok"@,
        x matches Ok(v) ==> (v.status != 200 ==> r.detail@ == "HTTP "@ + text::decimal(
            v.status as nat,
        ) + ": "@ + v.shown@),
        x matches Err(e) ==> (e@ == "connection_refused"@ ==> r.detail@ == "连不上 "@ + proxy@
            + "。请打开 AIS Switch，并打开 Codex 路由总开关。"@) && (e@
            != "connection_refused"@ ==> r.detail@ == e@),
{
    let s = check::step_view(r);
    assert(s.name == r.name@ && s.detail == r.detail@ && s.ok == r.ok);
}

/// The second probe succeeds exactly where the gateway answers with the status 200 and says
/// that it is running, and tells its port.
pub proof fn law_status(x: &Result<JsonReply, String>, r: AisStep, port: u64, shown: Seq<char>)
    requires
        call_ensures(check::check_status, (x,), r),
    ensures
        r.name@ == "/status"@,
        r.ok ==> x is Ok && x->Ok_0.status == 200,
        x matches Ok(v) ==> {
            let j = v.json@;
            &&& v.status == 200 && report_laws::under(j, "running"@, JsonView::Bool(true)) ==> {
                &&& r.ok
                &&& report_laws::under(j, "port"@, JsonView::Number(Some(port), shown))
                    ==> r.detail@ == "running port="@ + text::decimal(port as nat)
                &&& report_laws::nothing_under(j, "port"@) ==> r.detail@ == "running port="@
                    + text::decimal(0)
            }
            &&& v.status == 200 && (report_laws::under(j, "running"@, JsonView::Bool(false))
                || report_laws::nothing_under(j, "running"@)) ==> !r.ok && r.detail@
                == "Codex 代理未 running，请打开 Codex 路由"@
            &&& v.status != 200 ==> !r.ok && r.detail@ == "HTTP "@ + text::decimal(v.status as nat)
                + ": "@ + v.shown@
        },
        x matches Err(e) ==> !r.ok && r.detail@ == e@,
{
    let s = check::step_view(r);
    assert(s.name == r.name@ && s.detail == r.detail@ && s.ok == r.ok);
    if x is Ok {
        let j = x->Ok_0.json@;
        report_laws::law_field(j, "running"@, JsonView::Bool(true));
        report_laws::law_field(j, "running"@, JsonView::Bool(false));
        report_laws::law_field(j, "port"@, JsonView::Number(Some(port), shown));
    }
}

/// An id belongs to a personal route where `@` or `npt.sg--` stands in it.
pub open spec fn personal_id(id: Seq<char>) -> bool {
    text_laws::inside(id, "@"@) || text_laws::inside(id, "npt.sg--"@)
}

/// The third probe succeeds exactly where the gateway answers with the status 200 and offers a
/// model of its own, and tells how many of all there are.
pub proof fn law_models(
    x: &Result<JsonReply, String>,
    r: (AisStep, Vec<provider::GatewayModel>),
    k: int,
)
    requires
        call_ensures(check::check_models, (x,), r),
    ensures
        r.0.name@ == "/models"@,
        r.0.ok <==> r.1.len() > 0,
        x is Err ==> r.1.len() == 0 && r.0.detail@ == x->Err_0@,
        x matches Ok(v) ==> {
            let found = gateway::gateway_rows(gateway::rows_of(v.json@));
            let all = gateway::ids_of(gateway::rows_of(v.json@));
            let missing = "共 "@ + text::decimal(all.len())
                + " 个模型，没有 llm-gateway--*。请把 LLM Gateway 加入 Codex 路由池并刷新。"@;
            &&& v.status == 200 ==> provider::model_pairs(r.1@) == found
            &&& v.status != 200 ==> r.1.len() == 0 && r.0.detail@ == "HTTP "@ + text::decimal(
                v.status as nat,
            ) + ": "@ + v.shown@
            &&& v.status == 200 && found.len() > 0 ==> r.0.detail@ == "Gateway "@ + text::decimal(
                found.len(),
            ) + " / 共 "@ + text::decimal(all.len())
            &&& v.status == 200 && found.len() == 0 && 0 <= k < all.len() && personal_id(all[k])
                ==> r.0.detail@ == missing + " 当前像是只有个人 ChatGPT 路由。"@
            &&& v.status == 200 && found.len() == 0 && (forall|i: int|
                0 <= i < all.len() ==> !personal_id(#[trigger] all[i])) ==> r.0.detail@ == missing
        },
{
    let s = check::step_view(r.0);
    assert(s.name == r.0.name@ && s.detail == r.0.detail@ && s.ok == r.0.ok);
    assert(provider::model_pairs(r.1@).len() == r.1.len());
    if x is Ok {
        let all = gateway::ids_of(gateway::rows_of(x->Ok_0.json@));
        assert forall|i: int| 0 <= i < all.len() implies (check::personal(#[trigger] all[i])
            <==> personal_id(all[i])) by {
            text_laws::law_found(all[i], "@"@);
            text_laws::law_found(all[i], "npt.sg--"@);
        }
    }
}

/// The answer is the text of the first choice, cut after 80 chars.
pub proof fn law_answer(
    v: JsonView,
    choices: Seq<JsonView>,
    message: JsonView,
    content: Seq<char>,
)
    requires
        report_laws::under(v, "choices"@, JsonView::Array(choices)),
    ensures
        choices.len() > 0 && report_laws::under(choices[0], "message"@, message)
            && report_laws::under(message, "content"@, JsonView::Str(content)) ==> check::answer(v)
            == (if content.len() <= 80 {
            content
        } else {
            content.subrange(0, 80)
        }),
        choices.len() == 0 || report_laws::nothing_under(choices[0], "message"@)
            ==> check::answer(v).len() == 0,
{
    report_laws::law_field(v, "choices"@, JsonView::Array(choices));
    report_laws::law_field(choices[0], "message"@, message);
    report_laws::law_field(message, "content"@, JsonView::Str(content));
}

/// The last probe succeeds exactly where the model answers with the status 200, and shows the
/// answer; an answer by the wrong provider is told from other failures.
pub proof fn law_chat(
    x: &Result<JsonReply, String>,
    r: (AisStep, Option<String>),
    error: JsonView,
    from: Seq<char>,
    told: Seq<char>,
)
    requires
        call_ensures(check::check_chat, (x,), r),
    ensures
        r.0.name@ == "chat/completions"@,
        r.0.ok <==> x is Ok && x->Ok_0.status == 200,
        r.1 is Some <==> r.0.ok,
        r.0.ok ==> r.1->0@ == check::answer(x->Ok_0.json@) && r.0.detail@ == "HTTP 200 reply="@
            + outside_text::quoted(r.1->0@),
        x matches Err(e) ==> r.0.detail@ == e@,
        x matches Ok(v) ==> {
            let j = v.json@;
            let http = "HTTP "@ + text::decimal(v.status as nat) + ": "@;
            v.status != 200 && report_laws::under(j, "error"@, error) ==> {
                &&& report_laws::under(error, "provider"@, JsonView::Str("default"@))
                    ==> r.0.detail@
                    == "请求打到了 Codex default（ChatGPT），不是 LLM Gateway。必须用 llm-gateway-- 前缀的模型 id。"@
                &&& (report_laws::nothing_under(error, "provider"@) || (report_laws::under(
                    error,
                    "provider"@,
                    JsonView::Str(from),
                ) && from != "default"@)) ==> {
                    &&& report_laws::under(error, "message"@, JsonView::Str(told)) ==> r.0.detail@
                        == http + told
                    &&& report_laws::nothing_under(error, "message"@) ==> r.0.detail@ == http
                        + v.shown@
                }
            }
        },
{
    let s = check::step_view(r.0);
    assert(s.name == r.0.name@ && s.detail == r.0.detail@ && s.ok == r.0.ok);
    if x is Ok {
        let j = x->Ok_0.json@;
        report_laws::law_field(j, "error"@, error);
        report_laws::law_field(error, "provider"@, JsonView::Str("default"@));
        report_laws::law_field(error, "provider"@, JsonView::Str(from));
        report_laws::law_field(error, "message"@, JsonView::Str(told));
    }
}

/// The check begins with the health of the gateway, with nothing found yet.
pub proof fn law_check_begins(proxy: &str, r: (CheckState, CheckAction))
    requires
        call_ensures(check::check_start, (proxy,), r),
    ensures
        r.0.stage is Health,
        r.0.proxy@ == proxy@,
        r.0.ok,
        r.0.steps.len() == 0,
        r.0.models.len() == 0,
        r.0.reply is None,
        !r.0.proxy_down,
        r.1 is Ask && r.1->Ask_0 is Get,
        r.1->Ask_0->Get_url@ == proxy@ + "/health"@,
        r.1->Ask_0->Get_secs == 5,
{
    let s = r.0;
    assert(s@.steps.len() == s.steps.len());
    assert(s@.models.len() == s.models.len());
    assert(s@.reply is None);
    assert(s@.ok == s.ok);
}

/// After each reply one step is added, and the check is well only as long as every step is.
/// The gateway's status, its models and one of them are asked for in turn; a refused connection
/// ends the probes, and without a model none is asked.
pub proof fn law_check_turn(
    state: CheckState,
    x: Result<JsonReply, String>,
    r: (CheckState, CheckAction),
)
    requires
        check::sound(state.stage, state@),
        !(state.stage is Config),
        !(state.stage is Over),
        call_ensures(check::check, (state, CheckEvent::Reply(x)), r),
    ensures
        r.0.proxy@ == state.proxy@,
        r.0.steps.len() == state.steps.len() + 1,
        r.0.ok <==> state.ok && r.0.steps@.last().ok,
        forall|i: int|
            0 <= i < state.steps.len() ==> (#[trigger] r.0.steps@[i]).ok == state.steps@[i].ok
                && r.0.steps@[i].name@ == state.steps@[i].name@ && r.0.steps@[i].detail@
                == state.steps@[i].detail@,
        state.stage is Health ==> {
            let refused = x is Err && x->Err_0@ == "connection_refused"@;
            &&& r.0.steps@.last().name@ == "/health"@
            &&& r.0.proxy_down <==> x is Err
            &&& refused ==> r.0.stage is Config && r.1 is ReadConfig
            &&& !refused ==> {
                &&& r.0.stage is Status
                &&& r.1 is Ask && r.1->Ask_0 is Get
                &&& r.1->Ask_0->Get_url@ == state.proxy@ + "/status"@
                &&& r.1->Ask_0->Get_secs == 5
            }
        },
        state.stage is Status ==> {
            &&& r.0.steps@.last().name@ == "/status"@
            &&& r.0.stage is Models
            &&& r.1 is Ask && r.1->Ask_0 is Get
            &&& r.1->Ask_0->Get_url@ == state.proxy@ + "/codex/v1/models"@
            &&& r.1->Ask_0->Get_secs == 8
        },
        state.stage is Models ==> {
            &&& r.0.steps@.last().name@ == "/models"@
            &&& r.0.models.len() == 0 ==> r.0.stage is Config && r.1 is ReadConfig
            &&& r.0.models.len() > 0 ==> {
                let found = gateway::gateway_rows(gateway::rows_of(x->Ok_0.json@));
                &&& x is Ok && x->Ok_0.status == 200
                &&& r.0.models.len() == found.len()
                &&& forall|i: int|
                    0 <= i < found.len() ==> (#[trigger] r.0.models@[i])@ == found[i].0
                &&& r.0.stage is Chat
                &&& r.1 is Ask && r.1->Ask_0 is Post
                &&& r.1->Ask_0->Post_url@ == state.proxy@ + "/codex/v1/chat/completions"@
                &&& r.1->Ask_0->Post_secs == 30
                &&& r.1->Ask_0->payload@ == "{\"model\":\""@ + gateway::default_id(found)
                    + "\",\"messages\":[{\"role\":\"user\",\"content\":\"ping\"}],\"stream\":false}"@
            }
        },
        state.stage is Chat ==> {
            &&& r.0.steps@.last().name@ == "chat/completions"@
            &&& r.0.stage is Config && r.1 is ReadConfig
            &&& r.0.reply is Some <==> x is Ok && x->Ok_0.status == 200
            &&& r.0.reply is Some ==> r.0.reply->0@ == check::answer(x->Ok_0.json@)
        },
{
    let a = state.steps@;
    let b = r.0.steps@;
    let va = check::steps_view(a);
    let vb = check::steps_view(b);
    assert(state@.steps == va);
    assert(r.0@.steps == vb);
    assert(vb.len() == b.len() && va.len() == a.len());
    assert(vb.last() == check::step_view(b.last()));
    assert forall|i: int| 0 <= i < a.len() implies (#[trigger] b[i]).ok == a[i].ok && b[i].name@
        == a[i].name@ && b[i].detail@ == a[i].detail@ by {
        assert(vb[i] == va[i]);
        assert(vb[i] == check::step_view(b[i]));
        assert(va[i] == check::step_view(a[i]));
    }
    assert(r.0@.ok == r.0.ok && state@.ok == state.ok);
    assert(r.0@.proxy_down == r.0.proxy_down);
    assert(r.0@.reply == check::reply_view(r.0.reply));
    let ms = r.0.models@.map_values(|s: String| s@);
    assert(r.0@.models == ms);
    assert(ms.len() == r.0.models.len());
    if state.stage is Models {
        let found = check::models_found(x);
        let ids = gateway::model_ids(found);
        assert(ids.len() == found.len());
        assert(ms == ids);
        assert forall|i: int| 0 <= i < found.len() implies (#[trigger] r.0.models@[i])@
            == found[i].0 by {
            assert(ms[i] == r.0.models@[i]@);
        }
    }
}

/// A line of the settings starts with the gateway's key.
pub open spec fn gateway_line(settings: Seq<char>) -> bool {
    exists|i: int|
        #[trigger] shape::line_start(settings, i) && text_laws::starts_in(
            settings.skip(i),
            "    ais-codex:"@,
        )
}

/// The gateway's entry is there exactly where a line of the settings starts with four spaces
/// and its key.
pub proof fn law_has_provider(settings: Seq<char>)
    ensures
        provider::provider_in(settings) <==> gateway_line(settings),
{
    let ls = lines::lines_of(settings);
    let p = "    ais-codex:"@;
    reveal_strlit("    ais-codex:");
    if provider::provider_in(settings) {
        let n = choose|n: int|
            0 <= n < ls.len() && provider::is_provider_line(#[trigger] ls[n]);
        let i = shape::lemma_line_at(settings, n);
        assert(settings.skip(i) == p + settings.skip(i + p.len())) by {
            assert forall|j: int| 0 <= j < p.len() implies settings[i + j] == p[j] by {
                assert(ls[n][j] == settings[i + j]);
                assert(ls[n].take(p.len() as int)[j] == p[j]);
            }
        }
        assert(text_laws::starts_in(settings.skip(i), p));
        assert(shape::line_start(settings, i));
    }
    if gateway_line(settings) {
        let i = choose|i: int|
            #[trigger] shape::line_start(settings, i) && text_laws::starts_in(settings.skip(i), p);
        let a = settings.take(i);
        let b = settings.skip(i);
        assert(settings == a + b);
        if i > 0 {
            assert(a.last() == settings[i - 1]);
        }
        lines::lemma_lines_add(a, b);
        let r = choose|r: Seq<char>| b == #[trigger] (p + r);
        let n = lines::lines_of(a).len() as int;
        let lb = lines::lines_of(b);
        text::lemma_cut(b, '\n');
        let k = lines::line_len(b);
        assert(k >= p.len()) by {
            let c = text::cut(b, '\n');
            if c < p.len() {
                assert(b[c] == p[c]);
            }
        }
        assert(lb[0] == b.take(k));
        assert(lb[0].take(p.len() as int) == p);
        assert(ls[n] == lb[0]);
        assert(provider::is_provider_line(ls[n]));
    }
}

/// At the end the check shows what it found, and whether the gateway's entry and its key are in
/// the files.
pub proof fn law_check_ends(
    state: CheckState,
    settings: String,
    cred: String,
    r: (CheckState, CheckAction),
)
    requires
        check::sound(state.stage, state@),
        state.stage is Config,
        call_ensures(check::check, (state, (CheckEvent::Config { settings, cred })), r),
    ensures
        r.0.stage is Over,
        r.1 is Done,
        r.1->Done_0.ok == state.ok,
        r.1->Done_0.proxy_down == state.proxy_down,
        r.1->Done_0.steps.len() == state.steps.len(),
        forall|i: int|
            0 <= i < state.steps.len() ==> (#[trigger] r.1->Done_0.steps@[i]).ok
                == state.steps@[i].ok && r.1->Done_0.steps@[i].name@ == state.steps@[i].name@
                && r.1->Done_0.steps@[i].detail@ == state.steps@[i].detail@,
        r.1->Done_0.models.len() == state.models.len(),
        forall|i: int|
            0 <= i < state.models.len() ==> (#[trigger] r.1->Done_0.models@[i])@
                == state.models@[i]@,
        r.1->Done_0.reply is Some <==> state.reply is Some,
        r.1->Done_0.reply is Some ==> r.1->Done_0.reply->0@ == state.reply->0@,
        r.1->Done_0.has_provider <==> gateway_line(settings@),
        r.1->Done_0.has_key <==> credentials::key_in(cred@),
{
    law_has_provider(settings@);
    let res = r.1->Done_0;
    let a = check::result_view(res);
    let b = state@;
    assert(a == b);
    assert(a.steps.len() == res.steps.len() && b.steps.len() == state.steps.len());
    let ma = res.models@.map_values(|s: String| s@);
    let mb = state.models@.map_values(|s: String| s@);
    assert(a.models == ma && b.models == mb);
    assert(ma.len() == res.models.len() && mb.len() == state.models.len());
    assert forall|i: int| 0 <= i < state.models.len() implies (#[trigger] res.models@[i])@
        == state.models@[i]@ by {
        assert(ma[i] == mb[i]);
    }
    assert forall|i: int| 0 <= i < state.steps.len() implies (#[trigger] res.steps@[i]).ok
        == state.steps@[i].ok && res.steps@[i].name@ == state.steps@[i].name@
        && res.steps@[i].detail@ == state.steps@[i].detail@ by {
        assert(a.steps[i] == check::step_view(res.steps@[i]));
        assert(b.steps[i] == check::step_view(state.steps@[i]));
    }
    assert(a.reply == check::reply_view(res.reply));
    assert(b.reply == check::reply_view(state.reply));
}

} // verus!
