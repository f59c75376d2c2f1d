//! What a write and a removal make of a settings file, told by the text of the file.

use vstd::prelude::*;

use crate::action_laws;
use crate::actions;
use crate::blocks;
use crate::default_laws;
use crate::default_model;
use crate::gateway;
use crate::held;
use crate::lines;
use crate::provider;
use crate::provider_laws;
use crate::shape;
use crate::text;
use crate::text_laws;

verus! {

/// The names of the two blocks.
pub proof fn lemma_keys()
    ensures
        provider::PROVIDERS_BLOCK@ + ":"@ == "llm-pi-ai:"@,
        default_model::DEFAULT_BLOCK@ + ":"@ == "agent-default-model:"@,
        provider::PROVIDERS_BLOCK@ != default_model::DEFAULT_BLOCK@,
        provider::PROVIDERS_BLOCK@.len() > 0,
        default_model::DEFAULT_BLOCK@.len() > 0,
{
    reveal_strlit("llm-pi-ai");
    reveal_strlit("llm-pi-ai:");
    reveal_strlit("agent-default-model");
    reveal_strlit("agent-default-model:");
    reveal_strlit(":");
    assert(provider::PROVIDERS_BLOCK@ + ":"@ =~= "llm-pi-ai:"@);
    assert(default_model::DEFAULT_BLOCK@ + ":"@ =~= "agent-default-model:"@);
    default_laws::lemma_keys();
}

proof fn lemma_held_part(s: Seq<char>, key: Seq<char>, mid: Seq<char>, part: Seq<char>)
    requires
        held::held(s, key, mid),
        text_laws::inside(mid, part),
    ensures
        held::held(s, key, part),
{
    let bs = blocks::blocks_of(s);
    let i = choose|i: int|
        0 <= i < bs.len() && (#[trigger] bs[i]).0 == key && text_laws::inside(bs[i].1, mid);
    text_laws::lemma_inside_chain(bs[i].1, mid, part);
    assert(bs[i].0 == key);
}

/// A provider other than the gateway stays, whatever stands around it: an entry that starts
/// with four spaces, a word of ASCII letters of either case, digits, `_` and `-`, and `:`, is
/// still there, with the deeper lines behind it, after a write, a setup, a removal.
pub proof fn law_other_provider_stays(
    pre: Seq<char>,
    u: Seq<char>,
    m: Seq<char>,
    sp: Seq<char>,
    x: Seq<char>,
    w: Seq<char>,
    v: Seq<char>,
    d: Seq<char>,
    y: Seq<char>,
    z: Seq<char>,
    post: Seq<char>,
    proxy: Seq<char>,
    models: Seq<(Seq<char>, Seq<char>)>,
    set_default: bool,
    saved: Option<Seq<char>>,
)
    requires
        pre.len() == 0 || pre.last() == '\n',
        shape::good_opening(u, m, sp),
        shape::spaced(x),
        forall|i: int|
            0 <= i < w.len() ==> ('a' <= #[trigger] w[i] <= 'z') || ('A' <= w[i] <= 'Z') || ('0'
                <= w[i] <= '9') || w[i] == '_' || w[i] == '-',
        w != "ais-codex"@,
        text_laws::unbroken(v),
        shape::deeper(d),
        shape::spaced(y),
        shape::commented(z),
        shape::opens(post),
    ensures
        ({
            let entry = "    "@ + w + ":"@ + v + "\n"@ + d;
            let opening = "llm-pi-ai:"@ + u + "\n"@ + m + ("  providers:"@ + sp + "\n"@);
            let settings = pre + (opening + (x + entry + y + z)) + post;
            &&& text_laws::inside(provider::with_provider(settings, proxy, models), entry)
            &&& held::tight(entry) && text_laws::unbroken(proxy) && provider_laws::plain_models(
                models,
            ) ==> text_laws::inside(
                actions::setup_settings(settings, proxy, models, set_default),
                entry,
            )
            &&& held::tight(entry) ==> text_laws::inside(
                provider::without_provider(settings),
                entry,
            )
            &&& held::tight(entry) ==> text_laws::inside(
                actions::removed_settings(settings, saved),
                entry,
            )
        }),
{
    let e = shape::entry(w, v, d);
    let h = shape::opening(u, m, sp);
    let body = x + e + y;
    let t = h + (body + z);
    let s = pre + t + post;
    let key = provider::PROVIDERS_BLOCK@;
    lemma_keys();
    assert(text_laws::word(w));
    shape::lemma_entry(w, v, d);
    shape::lemma_spaced_add(x, e);
    shape::lemma_spaced_add(x + e, y);
    shape::lemma_opening(u, m, sp, body, z);
    let n = shape::lemma_blocks_around(pre, key, t, post);
    assert(blocks::blocks_of(s)[n] == (key, t));
    // The entry among the lines that are kept.
    let lx = lines::lines_of(x);
    let le = lines::lines_of(e);
    let ly = lines::lines_of(y);
    lines::lemma_lines_add(x, e);
    lines::lemma_lines_add(x + e, y);
    shape::lemma_kept_add(lx + le, ly, None);
    shape::lemma_kept_add(lx, le, None);
    shape::lemma_kept_entry(w, v, d, provider_laws::last_owner(lx, None));
    let kx = provider::kept(lx, None);
    let ky = provider::kept(ly, provider_laws::last_owner(lx + le, None));
    let k = provider::kept(lines::lines_of(body), None);
    assert(k == kx + le + ky);
    lines::lemma_joined_add(kx + le, ky);
    lines::lemma_joined_add(kx, le);
    lines::lemma_lines_of(e);
    let jk = lines::joined(k);
    text_laws::lemma_inside(lines::joined(kx), e, lines::joined(ky));
    assert(text_laws::inside(jk, e));
    let after = lines::joined(provider::after_entries(lines::lines_of(t)));
    let up = provider::upserted_block(t, proxy, models);
    let text = provider::provider_text(proxy, models);
    text_laws::lemma_inside_more(h + text, jk, after, e);
    assert(up == h + text + jk + after);
    let u1 = provider::with_provider(s, proxy, models);
    held::lemma_write_inside(s, n, proxy, models);
    text_laws::lemma_inside_chain(u1, up, e);
    if held::tight(e) {
        if text_laws::unbroken(proxy) && provider_laws::plain_models(models) {
            let id = gateway::default_id(models);
            action_laws::lemma_default_id(models);
            held::lemma_write_block(s, n, proxy, models);
            lemma_held_part(u1, key, up, e);
            held::lemma_default_holds(u1, id, key, e);
            held::lemma_held_inside(default_model::with_default_model(u1, id), key, e);
        }
        text_laws::lemma_inside_more(h, jk, after, e);
        assert(provider::removed_block(t) == h + jk + after);
        held::lemma_removal_entries(s, n, e);
        held::lemma_held_inside(provider::without_provider(s), key, e);
        held::lemma_restore_holds(saved, provider::without_provider(s), key, e);
    }
    assert(s == pre + (h + (body + z)) + post);
}

/// What stands under a key of its own stays through a write, a setup and a removal, where the
/// key is neither that of the providers nor that of the default model.
pub proof fn law_other_setting_stays(
    pre: Seq<char>,
    k: Seq<char>,
    v: Seq<char>,
    body: Seq<char>,
    post: Seq<char>,
    proxy: Seq<char>,
    models: Seq<(Seq<char>, Seq<char>)>,
    set_default: bool,
    saved: Option<Seq<char>>,
)
    requires
        pre.len() == 0 || pre.last() == '\n',
        text_laws::word(k),
        k != "llm-pi-ai"@,
        k != "agent-default-model"@,
        text_laws::unbroken(v),
        shape::spaced(body),
        shape::opens(post),
        held::tight(k + ":"@ + v + "\n"@ + body),
    ensures
        ({
            let block = k + ":"@ + v + "\n"@ + body;
            let settings = pre + block + post;
            &&& text_laws::inside(provider::with_provider(settings, proxy, models), block)
            &&& text_laws::unbroken(proxy) && provider_laws::plain_models(models)
                ==> text_laws::inside(
                actions::setup_settings(settings, proxy, models, set_default),
                block,
            )
            &&& text_laws::inside(provider::without_provider(settings), block)
            &&& text_laws::inside(actions::removed_settings(settings, saved), block)
        }),
{
    let t = k + ":"@ + v + "\n"@ + body;
    lemma_keys();
    lemma_keyed(k, v, body);
    let n = shape::lemma_blocks_around(pre, k, t, post);
    let s = pre + t + post;
    assert(blocks::blocks_of(s)[n] == (k, t));
    assert(Seq::<char>::empty() + t + Seq::<char>::empty() == t);
    assert(held::held(s, k, t));
    let u = provider::with_provider(s, proxy, models);
    if provider_laws::has_providers(s) {
        held::lemma_write_inside(s, n, proxy, models);
    } else {
        held::lemma_held_inside(s, k, t);
        held::lemma_added_inside(s, provider::section_text(proxy, models), t);
    }
    if text_laws::unbroken(proxy) && provider_laws::plain_models(models) {
        let id = gateway::default_id(models);
        action_laws::lemma_default_id(models);
        held::lemma_write_holds(s, proxy, models, k, t);
        held::lemma_default_holds(u, id, k, t);
        held::lemma_held_inside(default_model::with_default_model(u, id), k, t);
    }
    held::lemma_removal_holds(s, k, t);
    let e = provider::without_provider(s);
    held::lemma_held_inside(e, k, t);
    held::lemma_restore_holds(saved, e, k, t);
}

/// A key at the line's start and whole indented lines behind it are a block.
pub proof fn lemma_keyed(k: Seq<char>, v: Seq<char>, body: Seq<char>)
    requires
        text_laws::word(k),
        text_laws::unbroken(v),
        shape::spaced(body),
    ensures
        blocks::keyed(k, k + ":"@ + v + "\n"@ + body),
        lines::ended(k + ":"@ + v + "\n"@ + body),
        lines::lines_of(k + ":"@ + v + "\n"@ + body) == seq![k + ":"@ + v + "\n"@]
            + lines::lines_of(body),
{
    reveal_strlit(":");
    reveal_strlit("\n");
    let l = k + ":"@ + v;
    let line = l.push('\n');
    let t = k + ":"@ + v + "\n"@ + body;
    assert(t == line + body);
    assert(k + ":"@ + v + "\n"@ == line);
    assert forall|i: int| 0 <= i < l.len() implies #[trigger] l[i] != '\n' by {
        if i < k.len() {
            assert(l[i] == k[i]);
        } else if i > k.len() {
            assert(l[i] == v[i - 1 - k.len()]);
        }
    }
    text_laws::law_lines(l, body);
    shape::lemma_spaced(body);
    let ls = lines::lines_of(t);
    let lb = lines::lines_of(body);
    assert(ls == seq![line] + lb);
    assert forall|i: int| 0 <= i < k.len() implies line[i] != ':' by {
        assert(line[i] == k[i]);
    }
    text::lemma_cut_unique(line, ':', k.len() as int);
    assert(line.take(k.len() as int) == k);
    assert forall|i: int| 0 <= i < k.len() implies blocks::key_char(#[trigger] k[i]) by {}
    assert(blocks::key_of(ls[0]) == Some(k));
    assert forall|i: int| 1 <= i < ls.len() implies blocks::key_of(#[trigger] ls[i]) is None by {
        assert(ls[i] == lb[i - 1]);
        shape::lemma_plain_line(ls[i]);
    }
    if body.len() == 0 {
        assert(t.last() == '\n');
    } else {
        assert(t.last() == body.last());
    }
}

/// The text of the models of an entry.
pub open spec fn model_text(models: Seq<(Seq<char>, Seq<char>)>) -> Seq<char>
    decreases models.len(),
{
    if models.len() == 0 {
        Seq::empty()
    } else {
        model_text(models.drop_last()) + ("        - id: "@ + models.last().0 + "\n"@) + (
        "          name: "@ + models.last().1 + "\n"@)
    }
}

/// The text of the gateway's entry, for a proxy and the models that it offers.
pub open spec fn entry_text(
    proxy: Seq<char>,
    models: Seq<(Seq<char>, Seq<char>)>,
) -> Seq<char> {
    "    ais-codex:\n"@ + "      displayName: AIS Switch (Codex)\n"@
        + "      api: openai-completions\n"@ + ("      baseURL: "@ + proxy + "/codex/v1\n"@)
        + "      apiKeyEnv: AIS_CODEX_API_KEY\n"@ + "      defaultContextWindow: 1000000\n"@
        + "      defaultMaxTokens: 131072\n"@ + "      models:\n"@ + model_text(models)
}

proof fn lemma_model_text(models: Seq<(Seq<char>, Seq<char>)>)
    ensures
        lines::joined(provider::model_lines(models)) == model_text(models),
    decreases models.len(),
{
    if models.len() > 0 {
        let a = provider::line_text("        - id: "@, models.last().0);
        let b = provider::line_text("          name: "@, models.last().1);
        let init = provider::model_lines(models.drop_last());
        lemma_model_text(models.drop_last());
        reveal_strlit("\n");
        assert(init + seq![a, b] == init.push(a).push(b));
        lines::lemma_joined_push(init.push(a), b);
        lines::lemma_joined_push(init, a);
        assert(a == "        - id: "@ + models.last().0 + "\n"@);
        assert(b == "          name: "@ + models.last().1 + "\n"@);
    }
}

proof fn lemma_fixed_lines()
    ensures
        provider::line_text("    ais-codex:"@, ""@) == "    ais-codex:\n"@,
        provider::line_text("      displayName: "@, "AIS Switch (Codex)"@)
            == "      displayName: AIS Switch (Codex)\n"@,
        provider::line_text("      api: "@, "openai-completions"@)
            == "      api: openai-completions\n"@,
        provider::line_text("      apiKeyEnv: "@, "AIS_CODEX_API_KEY"@)
            == "      apiKeyEnv: AIS_CODEX_API_KEY\n"@,
        provider::line_text("      defaultContextWindow: "@, "1000000"@)
            == "      defaultContextWindow: 1000000\n"@,
        provider::line_text("      defaultMaxTokens: "@, "131072"@)
            == "      defaultMaxTokens: 131072\n"@,
        provider::line_text("      models:"@, ""@) == "      models:\n"@,
        provider::line_text("llm-pi-ai:"@, ""@) == "llm-pi-ai:\n"@,
        provider::line_text("  providers:"@, ""@) == "  providers:\n"@,
{
    reveal_strlit("");
    reveal_strlit("    ais-codex:");
    reveal_strlit("    ais-codex:\n");
    reveal_strlit("      displayName: ");
    reveal_strlit("AIS Switch (Codex)");
    reveal_strlit("      displayName: AIS Switch (Codex)\n");
    reveal_strlit("      api: ");
    reveal_strlit("openai-completions");
    reveal_strlit("      api: openai-completions\n");
    reveal_strlit("      apiKeyEnv: ");
    reveal_strlit("AIS_CODEX_API_KEY");
    reveal_strlit("      apiKeyEnv: AIS_CODEX_API_KEY\n");
    reveal_strlit("      defaultContextWindow: ");
    reveal_strlit("1000000");
    reveal_strlit("      defaultContextWindow: 1000000\n");
    reveal_strlit("      defaultMaxTokens: ");
    reveal_strlit("131072");
    reveal_strlit("      defaultMaxTokens: 131072\n");
    reveal_strlit("      models:");
    reveal_strlit("      models:\n");
    reveal_strlit("llm-pi-ai:");
    reveal_strlit("llm-pi-ai:\n");
    reveal_strlit("  providers:");
    reveal_strlit("  providers:\n");
}

/// The gateway's entry names the proxy as its address, and the models that it is given, in
/// their order; entries for two proxies differ.
pub proof fn law_entry_text(
    proxy: Seq<char>,
    other: Seq<char>,
    models: Seq<(Seq<char>, Seq<char>)>,
)
    ensures
        provider::provider_text(proxy, models) == entry_text(proxy, models),
        provider::section_text(proxy, models) == "llm-pi-ai:\n"@ + "  providers:\n"@ + entry_text(
            proxy,
            models,
        ),
        proxy != other ==> provider::provider_text(proxy, models) != provider::provider_text(
            other,
            models,
        ),
{
    lemma_entry_text(proxy, models);
    lemma_entry_text(other, models);
    if proxy != other && entry_text(proxy, models) == entry_text(other, models) {
        let x = entry_text(proxy, models);
        let y = entry_text(other, models);
        let n = ("    ais-codex:\n"@ + "      displayName: AIS Switch (Codex)\n"@
            + "      api: openai-completions\n"@ + "      baseURL: "@).len() as int;
        assert(proxy.len() == other.len());
        assert(x.subrange(n, n + proxy.len()) == proxy);
        assert(y.subrange(n, n + other.len()) == other);
    }
}

proof fn lemma_entry_text(proxy: Seq<char>, models: Seq<(Seq<char>, Seq<char>)>)
    ensures
        provider::provider_text(proxy, models) == entry_text(proxy, models),
        provider::section_text(proxy, models) == "llm-pi-ai:\n"@ + "  providers:\n"@ + entry_text(
            proxy,
            models,
        ),
        text_laws::inside(
            provider::provider_text(proxy, models),
            "\n      baseURL: "@ + proxy + "/codex/v1\n"@,
        ),
{
    lemma_fixed_lines();
    lemma_model_text(models);
    let b = provider::line_text("      baseURL: "@, provider::base_url_text(proxy));
    assert(b == "      baseURL: "@ + proxy + "/codex/v1\n"@) by {
        reveal_strlit("/codex/v1");
        reveal_strlit("/codex/v1\n");
        assert("/codex/v1"@.push('\n') =~= "/codex/v1\n"@);
        assert(b =~= "      baseURL: "@ + proxy + "/codex/v1"@.push('\n'));
    }
    let l0 = "    ais-codex:\n"@;
    let l1 = "      displayName: AIS Switch (Codex)\n"@;
    let l2 = "      api: openai-completions\n"@;
    let l4 = "      apiKeyEnv: AIS_CODEX_API_KEY\n"@;
    let l5 = "      defaultContextWindow: 1000000\n"@;
    let l6 = "      defaultMaxTokens: 131072\n"@;
    let l7 = "      models:\n"@;
    let e = Seq::<Seq<char>>::empty();
    let ml = provider::model_lines(models);
    let fixed = e.push(l0).push(l1).push(l2).push(b).push(l4).push(l5).push(l6).push(l7);
    assert(provider::provider_lines(proxy, models) == fixed + ml);
    lines::lemma_joined_add(fixed, ml);
    lines::lemma_joined_push(e, l0);
    lines::lemma_joined_push(e.push(l0), l1);
    lines::lemma_joined_push(e.push(l0).push(l1), l2);
    lines::lemma_joined_push(e.push(l0).push(l1).push(l2), b);
    lines::lemma_joined_push(e.push(l0).push(l1).push(l2).push(b), l4);
    lines::lemma_joined_push(e.push(l0).push(l1).push(l2).push(b).push(l4), l5);
    lines::lemma_joined_push(e.push(l0).push(l1).push(l2).push(b).push(l4).push(l5), l6);
    lines::lemma_joined_push(e.push(l0).push(l1).push(l2).push(b).push(l4).push(l5).push(l6), l7);
    assert(lines::joined(e) + l0 == l0);
    let head = l0 + l1 + l2;
    let tail = l4 + l5 + l6 + l7 + model_text(models);
    let t = entry_text(proxy, models);
    assert(t == head + b + tail);
    let part = "\n      baseURL: "@ + proxy + "/codex/v1\n"@;
    assert(t == head.drop_last() + part + tail) by {
        reveal_strlit("      api: openai-completions\n");
        reveal_strlit("      baseURL: ");
        reveal_strlit("\n      baseURL: ");
        assert(l2.len() > 0 && l2.last() == '\n');
        assert("\n      baseURL: "@ =~= seq!['\n'] + "      baseURL: "@);
        assert(head == head.drop_last().push('\n'));
        assert(part =~= seq!['\n'] + b);
    }
    text_laws::lemma_inside(head.drop_last(), part, tail);
}

/// What a write puts into the gateway's entry stands in the settings, whatever they held.
proof fn lemma_written(
    s: Seq<char>,
    proxy: Seq<char>,
    models: Seq<(Seq<char>, Seq<char>)>,
    part: Seq<char>,
)
    requires
        provider_laws::no_nl(proxy),
        provider_laws::plain_models(models),
        text_laws::inside(provider::provider_text(proxy, models), part),
        held::tight(part),
    ensures
        held::held(provider::with_provider(s, proxy, models), provider::PROVIDERS_BLOCK@, part),
{
    let key = provider::PROVIDERS_BLOCK@;
    let u = provider::with_provider(s, proxy, models);
    let us = blocks::blocks_of(u);
    let text = provider::provider_text(proxy, models);
    let section = provider::section_text(proxy, models);
    provider_laws::lemma_section_text(proxy, models);
    text_laws::lemma_inside_more(
        provider::line_text("llm-pi-ai:"@, ""@) + provider::line_text("  providers:"@, ""@),
        text,
        Seq::empty(),
        part,
    );
    if provider_laws::has_providers(s) {
        let base = if provider_laws::hanging(s) {
            provider_laws::lemma_remove_hanging(s, proxy, models);
            s
        } else {
            provider_laws::law_write_keeps_blocks(s, proxy, models);
            provider_laws::lemma_has_providers_nl(s);
            lines::with_nl(s)
        };
        let bs = blocks::blocks_of(base);
        assert(us == blocks::mapped(bs, provider::upserting(proxy, models)));
        let i = choose|i: int| 0 <= i < bs.len() && (#[trigger] bs[i]).0 == key;
        let ls = lines::lines_of(bs[i].1);
        let a = lines::joined(provider::before_entries(ls));
        let c = lines::joined(provider::other_entries(ls));
        let d = lines::joined(provider::after_entries(ls));
        text_laws::lemma_inside_more(a, text, c, part);
        text_laws::lemma_inside_more(Seq::empty(), a + text + c, d, part);
        assert(us[i] == (key, provider::upserted_block(bs[i].1, proxy, models)));
    } else {
        blocks::lemma_appended(s, key, section);
        held::lemma_tidied_holds(section, part);
        let i = us.len() - 1;
        assert(us[i] == (key, blocks::tidied(section)));
    }
}

/// The address of the gateway is the proxy with `/codex/v1` behind it: two proxies have two
/// addresses.
pub proof fn law_address(a: &str, b: &str, ra: String, rb: String)
    requires
        call_ensures(provider::base_url, (a,), ra),
        call_ensures(provider::base_url, (b,), rb),
    ensures
        ra@ == a@ + "/codex/v1"@,
        ra@ == rb@ <==> a@ == b@,
{
    assert(ra@ == a@ + "/codex/v1"@);
    assert(rb@ == b@ + "/codex/v1"@);
    if ra@ == rb@ {
        assert(a@.len() == b@.len());
        assert(ra@.take(a@.len() as int) == a@);
        assert(rb@.take(b@.len() as int) == b@);
    }
}

/// Whatever the settings hold, a write or a setup for a proxy leaves a line in them that gives
/// the proxy, with `/codex/v1` behind it, as the address of the gateway.
pub proof fn law_base_url(
    settings: Seq<char>,
    proxy: Seq<char>,
    models: Seq<(Seq<char>, Seq<char>)>,
    set_default: bool,
)
    ensures
        text_laws::inside(
            provider::with_provider(settings, proxy, models),
            "\n      baseURL: "@ + proxy + "/codex/v1\n"@,
        ),
        text_laws::unbroken(proxy) && provider_laws::plain_models(models) ==> text_laws::inside(
            actions::setup_settings(settings, proxy, models, set_default),
            "\n      baseURL: "@ + proxy + "/codex/v1\n"@,
        ),
{
    let part = "\n      baseURL: "@ + proxy + "/codex/v1\n"@;
    lemma_entry_text(proxy, models);
    reveal_strlit("/codex/v1\n");
    assert(part.last() == '\n');
    assert(part[part.len() - 2] == '1');
    lemma_always_written(settings, proxy, models, part);
    if text_laws::unbroken(proxy) && provider_laws::plain_models(models) {
        lemma_kept_in_setup(settings, proxy, models, set_default, part);
    }
}

proof fn lemma_always_written(
    s: Seq<char>,
    proxy: Seq<char>,
    models: Seq<(Seq<char>, Seq<char>)>,
    part: Seq<char>,
)
    requires
        text_laws::inside(provider::provider_text(proxy, models), part),
        held::tight(part),
    ensures
        text_laws::inside(provider::with_provider(s, proxy, models), part),
{
    let key = provider::PROVIDERS_BLOCK@;
    let text = provider::provider_text(proxy, models);
    let section = provider::section_text(proxy, models);
    text_laws::lemma_inside_more(
        provider::line_text("llm-pi-ai:"@, ""@) + provider::line_text("  providers:"@, ""@),
        text,
        Seq::empty(),
        part,
    );
    if provider_laws::has_providers(s) {
        let bs = blocks::blocks_of(s);
        let i = choose|i: int| 0 <= i < bs.len() && (#[trigger] bs[i]).0 == key;
        let ls = lines::lines_of(bs[i].1);
        let a = lines::joined(provider::before_entries(ls));
        let c = lines::joined(provider::other_entries(ls));
        let d = lines::joined(provider::after_entries(ls));
        text_laws::lemma_inside_more(a, text, c, part);
        text_laws::lemma_inside_more(Seq::empty(), a + text + c, d, part);
        held::lemma_write_inside(s, i, proxy, models);
        let up = provider::upserted_block(bs[i].1, proxy, models);
        assert(provider::upserting(proxy, models)(bs[i].0, bs[i].1) == up);
        text_laws::lemma_inside_chain(provider::with_provider(s, proxy, models), up, part);
    } else {
        held::lemma_added_inside(s, section, part);
    }
}

proof fn lemma_kept_in_setup(
    settings: Seq<char>,
    proxy: Seq<char>,
    models: Seq<(Seq<char>, Seq<char>)>,
    set_default: bool,
    part: Seq<char>,
)
    requires
        provider_laws::no_nl(proxy),
        provider_laws::plain_models(models),
        text_laws::inside(provider::provider_text(proxy, models), part),
        held::tight(part),
    ensures
        text_laws::inside(provider::with_provider(settings, proxy, models), part),
        text_laws::inside(
            actions::setup_settings(settings, proxy, models, set_default),
            part,
        ),
{
    let key = provider::PROVIDERS_BLOCK@;
    let id = gateway::default_id(models);
    let u = provider::with_provider(settings, proxy, models);
    lemma_written(settings, proxy, models, part);
    lemma_keys();
    action_laws::lemma_default_id(models);
    held::lemma_held_inside(u, key, part);
    held::lemma_default_holds(u, id, key, part);
    held::lemma_held_inside(default_model::with_default_model(u, id), key, part);
}

proof fn lemma_model_inside(models: Seq<(Seq<char>, Seq<char>)>, i: int)
    requires
        0 <= i < models.len(),
    ensures
        text_laws::inside(
            model_text(models),
            ("        - id: "@ + models[i].0 + "\n"@) + ("          name: "@ + models[i].1 + "\n"@),
        ),
    decreases models.len(),
{
    let part = ("        - id: "@ + models[i].0 + "\n"@) + ("          name: "@ + models[i].1
        + "\n"@);
    let init = model_text(models.drop_last());
    if i == models.len() - 1 {
        assert(model_text(models) == init + part + Seq::<char>::empty());
    } else {
        lemma_model_inside(models.drop_last(), i);
        let last = ("        - id: "@ + models.last().0 + "\n"@) + ("          name: "@
            + models.last().1 + "\n"@);
        text_laws::lemma_inside_more(Seq::empty(), init, last, part);
        assert(model_text(models) == init + last);
    }
}

/// Whatever the settings hold, a write or a setup leaves the id and the name of each model in
/// them, where the name does not end with white space.
pub proof fn law_models_written(
    settings: Seq<char>,
    proxy: Seq<char>,
    models: Seq<(Seq<char>, Seq<char>)>,
    set_default: bool,
    i: int,
)
    requires
        0 <= i < models.len(),
        models[i].1.len() > 0,
        !text::white(models[i].1.last()),
    ensures
        ({
            let part = ("        - id: "@ + models[i].0 + "\n"@) + ("          name: "@
                + models[i].1 + "\n"@);
            &&& text_laws::inside(provider::with_provider(settings, proxy, models), part)
            &&& text_laws::unbroken(proxy) && provider_laws::plain_models(models)
                ==> text_laws::inside(
                actions::setup_settings(settings, proxy, models, set_default),
                part,
            )
        }),
{
    let part = ("        - id: "@ + models[i].0 + "\n"@) + ("          name: "@ + models[i].1
        + "\n"@);
    reveal_strlit("\n");
    lemma_entry_text(proxy, models);
    lemma_model_inside(models, i);
    let rest = "    ais-codex:\n"@ + "      displayName: AIS Switch (Codex)\n"@
        + "      api: openai-completions\n"@ + ("      baseURL: "@ + proxy + "/codex/v1\n"@)
        + "      apiKeyEnv: AIS_CODEX_API_KEY\n"@ + "      defaultContextWindow: 1000000\n"@
        + "      defaultMaxTokens: 131072\n"@ + "      models:\n"@;
    text_laws::lemma_inside_more(rest, model_text(models), Seq::empty(), part);
    assert(part.last() == '\n');
    assert(part[part.len() - 2] == models[i].1.last());
    lemma_always_written(settings, proxy, models, part);
    if text_laws::unbroken(proxy) && provider_laws::plain_models(models) {
        lemma_kept_in_setup(settings, proxy, models, set_default, part);
    }
}

} // verus!
