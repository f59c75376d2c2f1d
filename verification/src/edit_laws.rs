//! A write, a removal and a change of the default model, told by the whole text of the
//! settings before and after: what belongs to the gateway changes, and nothing else.

use vstd::prelude::*;

use crate::actions;
use crate::blocks;
use crate::default_laws;
use crate::default_model;
use crate::entry_count;
use crate::gateway;
use crate::give_back;
use crate::keep_laws;
use crate::key_laws;
use crate::lines;
use crate::provider;
use crate::provider_laws;
use crate::shape;
use crate::text;
use crate::text_laws;

verus! {

/// The text, with a line break at its end if it is not empty.
pub open spec fn closed_off(t: Seq<char>) -> Seq<char> {
    if t.len() == 0 || t.last() == '\n' {
        t
    } else {
        t + seq!['\n']
    }
}

/// `r` is `x` with one line break in place of the white space at its end.
pub open spec fn cropped(x: Seq<char>, r: Seq<char>) -> bool {
    &&& r.len() > 0
    &&& r.last() == '\n'
    &&& r.len() == 1 || !text::white(r[r.len() - 2])
    &&& exists|w: Seq<char>| text::blank(w) && x == #[trigger] (r.drop_last() + w)
}

/// Nothing, or entries of other providers: whole indented lines, the first of which opens an
/// entry with another key than the gateway's, and none of which opens the gateway's.
pub open spec fn others(t: Seq<char>) -> bool {
    ||| t.len() == 0
    ||| {
        &&& shape::spaced(t)
        &&& exists|w: Seq<char>, r: Seq<char>|
            text_laws::word(w) && w != "ais-codex"@ && t == #[trigger] ("    "@ + w + ":"@ + r)
        &&& forall|i: int|
            #[trigger] shape::line_start(t, i) ==> !text_laws::starts_in(
                t.skip(i),
                "    ais-codex:"@,
            )
    }
}

/// Nothing, or the gateway's entry.
pub open spec fn gateways(g: Seq<char>) -> bool {
    g.len() == 0 || exists|v: Seq<char>, d: Seq<char>|
        text_laws::unbroken(v) && shape::deeper(d) && g == #[trigger] ("    "@ + "ais-codex"@
            + ":"@ + v + "\n"@ + d)
}

pub proof fn lemma_cropped(x: Seq<char>)
    ensures
        cropped(x, text::trimmed_end(x).push('\n')),
{
    let w = text::lemma_trimmed_rest(x);
    text::lemma_trimmed_end(x);
    let r = text::trimmed_end(x).push('\n');
    assert(r.drop_last() == text::trimmed_end(x));
    assert(x == r.drop_last() + w);
}

pub proof fn lemma_closed_off(t: Seq<char>)
    ensures
        lines::with_nl(t) == closed_off(t),
{
    assert(t.push('\n') == t + seq!['\n']);
}

proof fn lemma_others(t: Seq<char>, o: Option<Seq<char>>)
    requires
        others(t),
    ensures
        shape::spaced(t),
        provider::kept(lines::lines_of(t), o) == lines::lines_of(t),
{
    if t.len() > 0 {
        let (w, r) = choose|w: Seq<char>, r: Seq<char>|
            text_laws::word(w) && w != "ais-codex"@ && t == #[trigger] ("    "@ + w + ":"@ + r);
        reveal_strlit("    ");
        reveal_strlit(":");
        reveal_strlit("\n");
        let n = text::cut(r, '\n');
        text::lemma_cut(r, '\n');
        assert(n < r.len()) by {
            if r.len() == 0 {
                assert(t.last() == ':');
            } else {
                assert(t.last() == r.last());
            }
        }
        let v = r.take(n);
        let d = r.skip(n + 1);
        let none = Seq::<char>::empty();
        let e = shape::entry(w, v, none);
        assert(shape::deeper(none));
        shape::lemma_entry(w, v, none);
        assert(r == v + seq!['\n'] + d);
        assert(t == e + d);
        assert(e.last() == '\n');
        lines::lemma_lines_add(e, d);
        let ls = lines::lines_of(t);
        assert(ls[0] == lines::lines_of(e)[0]);
        assert forall|k: int| 0 <= k < ls.len() implies blocks::child_key(#[trigger] ls[k]) != Some(
            provider::PROVIDER_ID@,
        ) by {
            let i = shape::lemma_line_at(t, k);
            entry_count::lemma_provider_line(ls[k]);
            if provider::is_provider_line(ls[k]) {
                reveal_strlit("    ais-codex:");
                let p = "    ais-codex:"@;
                assert(t.skip(i) == p + t.skip(i + p.len())) by {
                    assert(ls[k].take(p.len() as int) == p);
                    assert forall|j: int| 0 <= j < p.len() implies t[i + j] == p[j] by {
                        assert(ls[k][j] == t[i + j]);
                        assert(ls[k].take(p.len() as int)[j] == p[j]);
                    }
                }
            }
        }
        let rest = ls.skip(1);
        assert forall|k: int| 0 <= k < rest.len() implies blocks::child_key(#[trigger] rest[k])
            != Some(provider::PROVIDER_ID@) by {
            assert(rest[k] == ls[k + 1]);
        }
        give_back::lemma_all_kept(rest, Some(w));
        assert(seq![ls[0]] + rest == ls);
    } else {
        lines::lemma_lines_of(t);
    }
}

proof fn lemma_gateways(g: Seq<char>, o: Option<Seq<char>>)
    requires
        gateways(g),
    ensures
        shape::spaced(g),
        provider::kept(lines::lines_of(g), o).len() == 0,
{
    if g.len() > 0 {
        let (v, d) = choose|v: Seq<char>, d: Seq<char>|
            text_laws::unbroken(v) && shape::deeper(d) && g == #[trigger] ("    "@ + "ais-codex"@
                + ":"@ + v + "\n"@ + d);
        reveal_strlit("ais-codex");
        assert(text_laws::word("ais-codex"@));
        shape::lemma_entry("ais-codex"@, v, d);
        shape::lemma_dropped_entry(v, d, o);
    } else {
        lines::lemma_lines_of(g);
    }
}

/// Deeper lines in front of the first entry are dropped.
proof fn lemma_stray(d: Seq<char>, a: Seq<char>, g: Seq<char>, b: Seq<char>)
    requires
        shape::deeper(d),
        others(a),
        gateways(g),
        others(b),
    ensures
        shape::spaced(d + (a + g + b)),
        provider::kept(lines::lines_of(d + (a + g + b)), None) == lines::lines_of(a + b),
        lines::joined(provider::kept(lines::lines_of(d + (a + g + b)), None)) == a + b,
{
    lemma_body(a, g, b);
    shape::lemma_deeper(d);
    shape::lemma_spaced_add(d, a + g + b);
    lines::lemma_lines_add(d, a + g + b);
    provider_laws::lemma_kept_plain(lines::lines_of(d), lines::lines_of(a + g + b), None);
}

proof fn lemma_body(a: Seq<char>, g: Seq<char>, b: Seq<char>)
    requires
        others(a),
        gateways(g),
        others(b),
    ensures
        shape::spaced(a + g + b),
        provider::kept(lines::lines_of(a + g + b), None) == lines::lines_of(a + b),
        lines::joined(provider::kept(lines::lines_of(a + g + b), None)) == a + b,
{
    let la = lines::lines_of(a);
    let lg = lines::lines_of(g);
    let lb = lines::lines_of(b);
    let o1 = provider_laws::last_owner(la, None);
    let o2 = provider_laws::last_owner(la + lg, None);
    lemma_others(a, None);
    lemma_gateways(g, o1);
    lemma_others(b, o2);
    shape::lemma_spaced_add(a, g);
    shape::lemma_spaced_add(a + g, b);
    lines::lemma_lines_add(a, g);
    lines::lemma_lines_add(a + g, b);
    lines::lemma_lines_add(a, b);
    shape::lemma_kept_add(la + lg, lb, None);
    shape::lemma_kept_add(la, lg, None);
    lines::lemma_lines_of(a + b);
    assert(provider::kept(lg, o1) == Seq::<Seq<char>>::empty());
    assert(la + Seq::<Seq<char>>::empty() + lb == la + lb);
}

/// A write puts the gateway's new entry first among the providers, in place of its old one, and
/// leaves the rest of the settings as it is. A removal takes the entry out, and the block of
/// the providers with it where no other provider stands there.
pub proof fn law_only_the_entry_changes(
    pre: Seq<char>,
    u: Seq<char>,
    m: Seq<char>,
    sp: Seq<char>,
    d: Seq<char>,
    a: Seq<char>,
    g: Seq<char>,
    b: Seq<char>,
    z: Seq<char>,
    post: Seq<char>,
    proxy: Seq<char>,
    models: Seq<(Seq<char>, Seq<char>)>,
)
    requires
        shape::whole(pre),
        shape::flush(pre),
        shape::good_opening(u, m, sp),
        shape::deeper(d),
        others(a),
        gateways(g),
        others(b),
        shape::commented(z),
        shape::opens(post),
        !text_laws::inside(pre, "llm-pi-ai:"@),
        !text_laws::inside(post, "llm-pi-ai:"@),
    ensures
        ({
            let opening = "llm-pi-ai:"@ + u + "\n"@ + m + ("  providers:"@ + sp + "\n"@);
            let settings = pre + (opening + (d + (a + g + b) + z)) + post;
            &&& provider::with_provider(settings, proxy, models) == pre + (opening
                + keep_laws::entry_text(proxy, models) + (a + b + z)) + closed_off(post)
            &&& a.len() + b.len() > 0 ==> cropped(
                pre + (opening + (a + b + z)) + closed_off(post),
                provider::without_provider(settings),
            )
            &&& a.len() + b.len() == 0 ==> cropped(
                pre + closed_off(post),
                provider::without_provider(settings),
            )
        }),
{
    let key = provider::PROVIDERS_BLOCK@;
    let h = shape::opening(u, m, sp);
    let body = d + (a + g + b);
    let t = h + (body + z);
    let s = pre + t + post;
    let text = provider::provider_text(proxy, models);
    keep_laws::lemma_keys();
    lemma_stray(d, a, g, b);
    shape::lemma_opening(u, m, sp, body, z);
    lemma_closed_off(post);
    keep_laws::law_entry_text(proxy, proxy, models);
    let ls = lines::lines_of(t);
    let after = provider::after_entries(ls);
    assert(lines::joined(after) == z);
    let f = provider::upserting(proxy, models);
    shape::lemma_mapped_around(pre, key, t, post, f);
    let up = f(key, t);
    assert(up == h + text + (a + b + z));
    let r = pre + up + closed_off(post);
    assert(lines::ended(r)) by {
        provider_laws::lemma_provider_text_ended(proxy, models);
        lemma_others(a, None);
        lemma_others(b, None);
        if closed_off(post).len() == 0 {
            assert(r == pre + up);
            if z.len() > 0 {
                assert(r.last() == z.last());
            } else if b.len() > 0 {
                assert(r.last() == b.last());
            } else if a.len() > 0 {
                assert(r.last() == a.last());
            } else {
                assert(r.last() == text.last());
            }
        } else {
            assert(r.last() == closed_off(post).last());
        }
    }
    let q = provider::removing();
    shape::lemma_mapped_around(pre, key, t, post, q);
    lines::lemma_lines_of(a + b);
    lines::lemma_lines_of(t);
    if a.len() + b.len() > 0 {
        assert(provider::removed_block(t) == h + (a + b + z));
        assert(lines::ended(h + (a + b + z))) by {
            assert(shape::spaced(a + b)) by {
                lemma_others(a, None);
                lemma_others(b, None);
                shape::lemma_spaced_add(a, b);
            }
            if z.len() > 0 {
                assert((h + (a + b + z)).last() == z.last());
            } else {
                assert((h + (a + b + z)).last() == (a + b).last());
            }
        }
        lemma_cropped(pre + (h + (a + b + z)) + closed_off(post));
    } else {
        assert(provider::removed_block(t) == Seq::<char>::empty());
        assert(pre + Seq::<char>::empty() == pre);
        lemma_cropped(pre + closed_off(post));
    }
}

/// A block of the providers that does not list any becomes one that lists the gateway alone,
/// and a removal takes such a block out.
pub proof fn law_block_without_providers(
    pre: Seq<char>,
    u: Seq<char>,
    m: Seq<char>,
    post: Seq<char>,
    proxy: Seq<char>,
    models: Seq<(Seq<char>, Seq<char>)>,
)
    requires
        shape::whole(pre),
        shape::flush(pre),
        shape::good_opening(u, m, Seq::empty()),
        shape::opens(post),
        !text_laws::inside(pre, "llm-pi-ai:"@),
        !text_laws::inside(post, "llm-pi-ai:"@),
    ensures
        ({
            let settings = pre + ("llm-pi-ai"@ + ":"@ + u + "\n"@ + m) + post;
            &&& provider::with_provider(settings, proxy, models) == pre + ("llm-pi-ai:\n"@
                + "  providers:\n"@ + keep_laws::entry_text(proxy, models)) + closed_off(post)
            &&& cropped(pre + closed_off(post), provider::without_provider(settings))
        }),
{
    let key = provider::PROVIDERS_BLOCK@;
    let t = "llm-pi-ai"@ + ":"@ + u + "\n"@ + m;
    let s = pre + t + post;
    keep_laws::lemma_keys();
    reveal_strlit("llm-pi-ai");
    assert(text_laws::word("llm-pi-ai"@));
    keep_laws::lemma_keyed("llm-pi-ai"@, u, m);
    keep_laws::law_entry_text(proxy, proxy, models);
    lemma_closed_off(post);
    let ls = lines::lines_of(t);
    let lm = lines::lines_of(m);
    reveal_strlit("  providers:");
    assert forall|i: int| 0 <= i < ls.len() implies !provider::is_providers_line(#[trigger] ls[i]) by {
        text::lemma_trimmed_end(ls[i]);
        if provider::is_providers_line(ls[i]) {
            assert(ls[i].take(12) == "  providers:"@);
            assert(ls[i][0] == "  providers:"@[0]);
            if i == 0 {
                assert(ls[0][0] == "llm-pi-ai"@[0]);
            } else {
                assert(ls[i] == lm[i - 1]);
                let j = shape::lemma_line_at(m, i - 1);
                assert(m == m.take(j) + "  providers:"@ + m.skip(j + 12)) by {
                    assert(m.subrange(j, j + 12) == ls[i].take(12));
                }
                text_laws::lemma_inside(m.take(j), "  providers:"@, m.skip(j + 12));
            }
        }
    }
    provider::lemma_providers_at_unique(ls, ls.len() as int);
    let f = provider::upserting(proxy, models);
    shape::lemma_mapped_around(pre, key, t, post, f);
    let section = provider::section_text(proxy, models);
    provider_laws::lemma_provider_text_ended(proxy, models);
    assert(section.last() == provider::provider_text(proxy, models).last());
    let r = pre + section + closed_off(post);
    assert(lines::ended(r)) by {
        if closed_off(post).len() == 0 {
            assert(r.last() == section.last());
        } else {
            assert(r.last() == closed_off(post).last());
        }
    }
    let q = provider::removing();
    shape::lemma_mapped_around(pre, key, t, post, q);
    assert(pre + Seq::<char>::empty() == pre);
    lemma_cropped(pre + closed_off(post));
}

/// Where the settings have no providers, a write adds them, with the gateway's entry alone,
/// behind one empty line; a removal leaves such settings as they are.
pub proof fn law_providers_added(
    settings: Seq<char>,
    proxy: Seq<char>,
    models: Seq<(Seq<char>, Seq<char>)>,
    body: Seq<char>,
    w: Seq<char>,
)
    requires
        !text_laws::inside(settings, "llm-pi-ai:"@),
        settings == body + w,
        text::blank(w),
        body.len() > 0 ==> !text::white(body.last()),
    ensures
        ({
            let section = "llm-pi-ai:\n"@ + "  providers:\n"@ + keep_laws::entry_text(
                proxy,
                models,
            );
            &&& body.len() > 0 ==> cropped(
                body + "\n\n"@ + section,
                provider::with_provider(settings, proxy, models),
            )
            &&& body.len() == 0 ==> cropped(
                section,
                provider::with_provider(settings, proxy, models),
            )
        }),
        provider::without_provider(settings) == closed_off(settings),
{
    keep_laws::lemma_keys();
    lemma_closed_off(settings);
    if blocks::has_block(blocks::blocks_of(settings), provider::PROVIDERS_BLOCK@) {
        shape::lemma_key_inside(settings, provider::PROVIDERS_BLOCK@);
    }
    lemma_trimmed_is(body, w);
    keep_laws::law_entry_text(proxy, proxy, models);
    let section = provider::section_text(proxy, models);
    reveal_strlit("\n\n");
    assert("\n\n"@ == seq!['\n', '\n']);
    lemma_cropped(body + seq!['\n', '\n'] + section);
    lemma_cropped(section);
}

pub proof fn lemma_trimmed_is(body: Seq<char>, w: Seq<char>)
    requires
        text::blank(w),
        body.len() > 0 ==> !text::white(body.last()),
    ensures
        text::trimmed_end(body + w) == body,
{
    let s = body + w;
    assert forall|i: int| body.len() <= i < s.len() implies text::white(#[trigger] s[i]) by {
        assert(s[i] == w[i - body.len()]);
    }
    text::lemma_trimmed_end_unique(s, body.len() as int);
    assert(s.take(body.len() as int) == body);
}

/// The default model that a setup writes.
pub open spec fn default_of(id: Seq<char>) -> Seq<char> {
    "agent-default-model:\n"@ + "  provider: ais-codex\n"@ + ("  model: "@ + id + "\n"@)
        + "  reasoningEffort: high\n"@
}

proof fn lemma_default_lines()
    ensures
        provider::line_text("agent-default-model:"@, ""@) == "agent-default-model:\n"@,
        provider::line_text("  provider: "@, "ais-codex"@) == "  provider: ais-codex\n"@,
        provider::line_text("  provider: "@, "deepseek-official"@)
            == "  provider: deepseek-official\n"@,
        provider::line_text("  model: "@, "deepseek-v4-flash"@) == "  model: deepseek-v4-flash\n"@,
        provider::line_text("  reasoningEffort: "@, "high"@) == "  reasoningEffort: high\n"@,
{
    reveal_strlit("");
    reveal_strlit("agent-default-model:");
    reveal_strlit("agent-default-model:\n");
    reveal_strlit("  provider: ");
    reveal_strlit("ais-codex");
    reveal_strlit("  provider: ais-codex\n");
    reveal_strlit("deepseek-official");
    reveal_strlit("  provider: deepseek-official\n");
    reveal_strlit("  model: ");
    reveal_strlit("deepseek-v4-flash");
    reveal_strlit("  model: deepseek-v4-flash\n");
    reveal_strlit("  reasoningEffort: ");
    reveal_strlit("high");
    reveal_strlit("  reasoningEffort: high\n");
}

proof fn lemma_default_of(id: Seq<char>)
    ensures
        default_model::default_text(id) == default_of(id),
{
    lemma_default_lines();
    reveal_strlit("\n");
    assert(provider::line_text("  model: "@, id) == "  model: "@ + id + "\n"@);
}

/// The block of a default model, with the provider that it names.
pub open spec fn default_block(
    u: Seq<char>,
    m: Seq<char>,
    q: Seq<char>,
    rest: Seq<char>,
) -> Seq<char> {
    "agent-default-model:"@ + u + "\n"@ + m + ("  provider: "@ + q + "\n"@) + rest
}

pub open spec fn good_default(
    u: Seq<char>,
    m: Seq<char>,
    q: Seq<char>,
    rest: Seq<char>,
) -> bool {
    &&& text_laws::unbroken(u)
    &&& text_laws::unbroken(q) && q.len() > 0 && !text::white(q[0]) && !text::white(q.last())
    &&& shape::spaced(rest)
    &&& shape::spaced(m)
    &&& !text_laws::inside(m, "provider:"@)
}

/// Lines that do not start with `provider:` do not matter.
proof fn lemma_first_provider(a: Seq<Seq<char>>, b: Seq<Seq<char>>)
    requires
        forall|i: int| 0 <= i < a.len() ==> !key_laws::labelled(#[trigger] a[i], "provider:"@),
    ensures
        default_model::first_provider(a + b) == default_model::first_provider(b),
    decreases a.len(),
{
    if a.len() == 0 {
        assert(a + b == b);
    } else {
        let l = a[0];
        let t = text::trimmed(l);
        assert(!"provider:"@.is_prefix_of(t)) by {
            if "provider:"@.is_prefix_of(t) {
                text::lemma_trimmed_end(text::trimmed_start(l));
                let n = "provider:"@.len() as int;
                assert(t.take(n) == text::trimmed_start(l).take(n));
                assert(key_laws::labelled(a[0], "provider:"@));
            }
        }
        let rest = a.skip(1);
        assert forall|i: int| 0 <= i < rest.len() implies !key_laws::labelled(
            #[trigger] rest[i],
            "provider:"@,
        ) by {
            assert(rest[i] == a[i + 1]);
        }
        lemma_first_provider(rest, b);
        assert((a + b).skip(1) == rest + b);
        assert((a + b)[0] == l);
    }
}

proof fn lemma_default_block(u: Seq<char>, m: Seq<char>, q: Seq<char>, rest: Seq<char>)
    requires
        good_default(u, m, q, rest),
    ensures
        blocks::keyed(default_model::DEFAULT_BLOCK@, default_block(u, m, q, rest)),
        lines::ended(default_block(u, m, q, rest)),
        default_model::first_provider(lines::lines_of(default_block(u, m, q, rest))) == Some(q),
        default_model::names_gateway(default_block(u, m, q, rest)) || q != "ais-codex"@,
        q != "ais-codex"@ && !text_laws::inside(rest, "provider:"@)
            ==> !default_model::names_gateway(default_block(u, m, q, rest)),
{
    let k = default_model::DEFAULT_BLOCK@;
    reveal_strlit("agent-default-model");
    reveal_strlit("agent-default-model:");
    reveal_strlit("  provider: ");
    reveal_strlit("provider: ");
    reveal_strlit("provider:");
    reveal_strlit("\n");
    let t = default_block(u, m, q, rest);
    let k0 = "agent-default-model:"@ + u;
    let l0 = k0.push('\n');
    let l = "  provider: "@ + q;
    let l1 = l.push('\n');
    assert(text_laws::unbroken(k0)) by {
        assert forall|i: int| 0 <= i < k0.len() implies #[trigger] k0[i] != '\n' by {
            if i >= 20 {
                assert(k0[i] == u[i - 20]);
            }
        }
    }
    assert(text_laws::unbroken(l)) by {
        assert forall|i: int| 0 <= i < l.len() implies #[trigger] l[i] != '\n' by {
            if i >= 12 {
                assert(l[i] == q[i - 12]);
            }
        }
    }
    assert(t == l0 + (m + (l1 + rest)));
    text_laws::law_lines(k0, m + (l1 + rest));
    lines::lemma_lines_add(m, l1 + rest);
    text_laws::law_lines(l, rest);
    let lm = lines::lines_of(m);
    let lr = lines::lines_of(rest);
    let ls = lines::lines_of(t);
    let tail = seq![l1] + lr;
    assert(ls == seq![l0] + (lm + tail));
    shape::lemma_spaced(m);
    shape::lemma_spaced(rest);
    text::lemma_cut_unique(l0, ':', 19);
    assert(l0.take(19) == k);
    assert(blocks::key_text(k));
    provider_laws::lemma_space_line(l1);
    let n = 1 + lm.len() as int;
    assert(ls[n] == l1);
    assert forall|i: int| 1 <= i < ls.len() implies blocks::key_of(#[trigger] ls[i]) is None by {
        if i < n {
            assert(ls[i] == lm[i - 1]);
            shape::lemma_plain_line(ls[i]);
        } else if i > n {
            assert(ls[i] == lr[i - n - 1]);
            shape::lemma_plain_line(ls[i]);
        }
    }
    assert(lines::ended(t)) by {
        if rest.len() == 0 {
            assert(t.last() == '\n');
        } else {
            assert(t.last() == rest.last());
        }
    }
    // The lines in front do not name a provider.
    let front = seq![l0] + lm;
    key_laws::lemma_unlabelled(m, "provider:"@);
    assert forall|i: int| 0 <= i < front.len() implies !key_laws::labelled(
        #[trigger] front[i],
        "provider:"@,
    ) by {
        if i == 0 {
            assert(text::trimmed_start(l0) == l0);
            if key_laws::labelled(l0, "provider:"@) {
                assert(l0[0] == "provider:"@[0]);
            }
        } else {
            assert(front[i] == lm[i - 1]);
        }
    }
    lemma_first_provider(front, tail);
    assert(ls == front + tail);
    // This one does.
    let sp = seq![' ', ' '];
    let nl = seq!['\n'];
    assert(text::blank(nl));
    assert(text::blank(sp));
    let mid = "provider: "@ + q;
    assert(l1 == sp + mid + nl);
    assert(mid.last() == q.last());
    text_laws::law_trimmed(sp, mid, nl);
    assert("provider:"@.is_prefix_of(mid));
    let one = seq![' '];
    assert(text::blank(one));
    assert(mid.skip(9) == one + q + Seq::<char>::empty());
    text_laws::law_trimmed(one, q, Seq::empty());
    assert(tail[0] == l1);
    if q == "ais-codex"@ {
        reveal_strlit("provider: ais-codex");
        reveal_strlit("ais-codex");
        assert(mid =~= "provider: ais-codex"@);
        assert(ls[n] == l1);
    }
    if q != "ais-codex"@ && !text_laws::inside(rest, "provider:"@) {
        let p = "provider: ais-codex"@;
        reveal_strlit("provider: ais-codex");
        reveal_strlit("ais-codex");
        key_laws::lemma_unlabelled(rest, "provider:"@);
        assert forall|i: int| 0 <= i < ls.len() implies text::trimmed(#[trigger] ls[i]) != p by {
            if text::trimmed(ls[i]) == p {
                if i == n {
                    assert(mid == p);
                    assert(q =~= "ais-codex"@) by {
                        assert(mid.skip(10) == q);
                    }
                } else {
                    text::lemma_trimmed_end(text::trimmed_start(ls[i]));
                    assert(key_laws::labelled(ls[i], "provider:"@)) by {
                        assert(p.take(9) =~= "provider:"@);
                        assert(text::trimmed_start(ls[i]).take(9) == p.take(9));
                    }
                    if i < n {
                        assert(ls[i] == front[i]);
                    } else {
                        assert(ls[i] == lr[i - n - 1]);
                    }
                }
            }
        }
    }
}

/// The provider that a line names is what stands behind its `provider:`, without white space
/// around it.
pub proof fn law_named_provider(
    a: Seq<char>,
    s: Seq<char>,
    q: Seq<char>,
    t: Seq<char>,
    more: Seq<Seq<char>>,
)
    requires
        text::blank(a),
        text::blank(s),
        text::blank(t),
        q.len() > 0,
        !text::white(q[0]),
        !text::white(q.last()),
    ensures
        default_model::first_provider(seq![a + ("provider:"@ + s + q) + t] + more) == Some(q),
{
    reveal_strlit("provider:");
    let mid = "provider:"@ + s + q;
    let ls = seq![a + mid + t] + more;
    assert(mid.last() == q.last());
    text_laws::law_trimmed(a, mid, t);
    assert(mid.take(9) =~= "provider:"@);
    let none = Seq::<char>::empty();
    assert(mid.skip(9) == s + q + none);
    text_laws::law_trimmed(s, q, none);
    assert(ls[0] == a + mid + t);
}

/// A setup that sets the default model writes its block in place of the one that is there, or
/// behind the settings; what it keeps for a removal is the block that was there.
pub proof fn law_default_written(
    pre: Seq<char>,
    u: Seq<char>,
    m: Seq<char>,
    q: Seq<char>,
    rest: Seq<char>,
    post: Seq<char>,
    id: Seq<char>,
)
    requires
        shape::whole(pre),
        shape::flush(pre),
        good_default(u, m, q, rest),
        shape::opens(post),
        !text_laws::inside(pre, "agent-default-model:"@),
        !text_laws::inside(post, "agent-default-model:"@),
        text_laws::unbroken(id),
    ensures
        ({
            let block = "agent-default-model:"@ + u + "\n"@ + m + ("  provider: "@ + q + "\n"@) + rest;
            let settings = pre + block + post;
            &&& default_model::with_default_model(settings, id) == pre + default_of(id)
                + closed_off(post)
            &&& default_model::saved_default(settings) == block
            &&& default_model::current_provider(settings) == Some(q)
        }),
{
    let key = default_model::DEFAULT_BLOCK@;
    let t = default_block(u, m, q, rest);
    let s = pre + t + post;
    keep_laws::lemma_keys();
    lemma_closed_off(post);
    lemma_default_of(id);
    lemma_default_block(u, m, q, rest);
    default_laws::lemma_default_text(id);
    let f = blocks::replacing(key, default_model::default_text(id));
    shape::lemma_mapped_around(pre, key, t, post, f);
    let r = pre + default_of(id) + closed_off(post);
    assert(lines::ended(r)) by {
        lines::lemma_lines_of(default_of(id));
        if closed_off(post).len() == 0 {
            assert(r.last() == default_of(id).last());
        } else {
            assert(r.last() == closed_off(post).last());
        }
    }
    lemma_first_block(pre, key, t, post);
}

proof fn lemma_first_block(pre: Seq<char>, key: Seq<char>, t: Seq<char>, post: Seq<char>)
    requires
        key == default_model::DEFAULT_BLOCK@,
        blocks::blocks_of(pre + t + post) == blocks::blocks_of(pre) + seq![(key, t)]
            + blocks::blocks_of(post),
        forall|i: int|
            0 <= i < blocks::blocks_of(pre).len() ==> (#[trigger] blocks::blocks_of(pre)[i]).0
                != key,
    ensures
        default_model::saved_default(pre + t + post) == t,
{
    let bs = blocks::blocks_of(pre + t + post);
    let n = blocks::blocks_of(pre).len() as int;
    assert(bs[n] == (key, t));
    assert forall|i: int| 0 <= i < n implies (#[trigger] bs[i]).0 != key by {
        assert(bs[i] == blocks::blocks_of(pre)[i]);
    }
    default_model::lemma_block_at_unique(bs, key, n);
}

/// Where the settings have no default model, a setup that sets it puts its block behind them,
/// after one empty line, and keeps nothing.
pub proof fn law_default_added(settings: Seq<char>, id: Seq<char>, body: Seq<char>, w: Seq<char>)
    requires
        !text_laws::inside(settings, "agent-default-model:"@),
        settings == body + w,
        text::blank(w),
        body.len() > 0 ==> !text::white(body.last()),
        text_laws::unbroken(id),
    ensures
        default_model::with_default_model(settings, id) == body + "\n\n"@ + default_of(id),
        default_model::saved_default(settings) == Seq::<char>::empty(),
        default_model::current_provider(settings) is None,
{
    let bs = blocks::blocks_of(settings);
    let key = default_model::DEFAULT_BLOCK@;
    keep_laws::lemma_keys();
    lemma_default_of(id);
    if blocks::has_block(bs, key) {
        shape::lemma_key_inside(settings, key);
    }
    lemma_trimmed_is(body, w);
    reveal_strlit("\n\n");
    assert("\n\n"@ == seq!['\n', '\n']);
    default_model::lemma_block_at(bs, key);
    lines::lemma_lines_of(Seq::<char>::empty());
}

/// A removal puts the block that was kept in the place of a default model that names the
/// gateway; where none was there, it takes the block out, and where nothing is known of it, it
/// writes the official default. A default model that names another provider stays.
pub proof fn law_default_put_back(
    pre: Seq<char>,
    u: Seq<char>,
    m: Seq<char>,
    q: Seq<char>,
    rest: Seq<char>,
    post: Seq<char>,
    saved: Seq<char>,
    empty: Seq<char>,
)
    requires
        shape::whole(pre),
        shape::flush(pre),
        good_default(u, m, q, rest),
        shape::opens(post),
        !text_laws::inside(pre, "agent-default-model:"@),
        !text_laws::inside(post, "agent-default-model:"@),
        !text::blank(saved),
        text::blank(empty),
    ensures
        ({
            let block = "agent-default-model:"@ + u + "\n"@ + m + ("  provider: "@ + q + "\n"@) + rest;
            let settings = pre + block + post;
            &&& q == "ais-codex"@ ==> default_model::restored(Some(saved), settings) == closed_off(
                pre + saved + closed_off(post),
            )
            &&& q == "ais-codex"@ ==> cropped(
                pre + closed_off(post),
                default_model::restored(Some(empty), settings),
            )
            &&& q == "ais-codex"@ ==> default_model::restored(None, settings) == pre + (
            "agent-default-model:\n"@ + "  provider: deepseek-official\n"@
                + "  model: deepseek-v4-flash\n"@ + "  reasoningEffort: high\n"@) + closed_off(post)
            &&& q != "ais-codex"@ ==> default_model::restored(Some(saved), settings) == closed_off(
                settings,
            ) && default_model::restored(Some(empty), settings) == closed_off(settings)
                && default_model::restored(None, settings) == closed_off(settings)
        }),
{
    let key = default_model::DEFAULT_BLOCK@;
    let t = default_block(u, m, q, rest);
    let s = pre + t + post;
    keep_laws::lemma_keys();
    lemma_closed_off(post);
    lemma_closed_off(s);
    lemma_default_block(u, m, q, rest);
    lines::lemma_lines_of(t);
    let fs = blocks::replacing(key, saved);
    shape::lemma_mapped_around(pre, key, t, post, fs);
    lemma_first_block(pre, key, t, post);
    assert(default_model::current_provider(s) == Some(q));
    if q == "ais-codex"@ {
        lemma_closed_off(pre + saved + closed_off(post));
        let fe = blocks::replacing(key, Seq::empty());
        shape::lemma_mapped_around(pre, key, t, post, fe);
        assert(pre + Seq::<char>::empty() + closed_off(post) == pre + closed_off(post));
        lemma_cropped(pre + closed_off(post));
        assert(!text::blank(s)) by {
            reveal_strlit("agent-default-model:");
            assert(s[pre.len() as int] == 'a');
        }
        // Nothing known of it.
        let g = |k: Seq<char>, x: Seq<char>|
            if k == key {
                default_model::clearing()(k, x)
            } else {
                lines::with_nl(x)
            };
        shape::lemma_mapped_around(pre, key, t, post, g);
        let bs = blocks::blocks_of(s);
        assert(blocks::mapped(bs, g) == blocks::mapped(bs, default_model::clearing()));
        let n = blocks::blocks_of(pre).len() as int;
        assert(bs[n] == (key, t));
        assert(default_model::default_names_gateway(bs));
        lemma_default_lines();
        let o = default_model::official_text();
        let r = pre + o + closed_off(post);
        assert(lines::ended(r)) by {
            reveal_strlit("  reasoningEffort: high\n");
            assert(o.len() > 0 && o.last() == '\n');
            if closed_off(post).len() == 0 {
                assert(r.last() == o.last());
            } else {
                assert(r.last() == closed_off(post).last());
            }
        }
    }
}

/// Where nothing is known of the default model before, one that names the gateway becomes the
/// official one, and any other stays.
pub proof fn law_default_cleared(
    pre: Seq<char>,
    u: Seq<char>,
    m: Seq<char>,
    q: Seq<char>,
    rest: Seq<char>,
    post: Seq<char>,
)
    requires
        shape::whole(pre),
        shape::flush(pre),
        good_default(u, m, q, rest),
        shape::opens(post),
        !text_laws::inside(pre, "agent-default-model:"@),
        !text_laws::inside(post, "agent-default-model:"@),
    ensures
        ({
            let block = "agent-default-model:"@ + u + "\n"@ + m + ("  provider: "@ + q + "\n"@) + rest;
            let settings = pre + block + post;
            &&& q == "ais-codex"@ ==> default_model::without_gateway_default(settings) == pre + (
            "agent-default-model:\n"@ + "  provider: deepseek-official\n"@
                + "  model: deepseek-v4-flash\n"@ + "  reasoningEffort: high\n"@) + closed_off(post)
            &&& q != "ais-codex"@ && !text_laws::inside(rest, "provider:"@)
                ==> default_model::without_gateway_default(settings) == closed_off(settings)
        }),
{
    let key = default_model::DEFAULT_BLOCK@;
    let t = default_block(u, m, q, rest);
    let s = pre + t + post;
    keep_laws::lemma_keys();
    lemma_closed_off(s);
    lemma_default_block(u, m, q, rest);
    let f = blocks::replacing(key, t);
    shape::lemma_mapped_around(pre, key, t, post, f);
    if q == "ais-codex"@ {
        let some = seq!['x'];
        assert(!text::white(some[0]));
        law_default_put_back(pre, u, m, q, rest, post, some, Seq::empty());
        lemma_first_block(pre, key, t, post);
        assert(default_model::current_provider(s) == Some(q));
    } else if !text_laws::inside(rest, "provider:"@) {
        let a = blocks::blocks_of(pre);
        let bs = blocks::blocks_of(s);
        let b = blocks::blocks_of(post);
        assert forall|i: int| 0 <= i < bs.len() && (#[trigger] bs[i]).0 == key implies
            !default_model::names_gateway(bs[i].1) by {
            if i < a.len() {
                assert(bs[i] == a[i]);
            } else if i > a.len() {
                assert(bs[i] == b[i - a.len() - 1]);
            }
        }
        assert(!default_model::default_names_gateway(bs));
    }
}

/// A block under a key of its own is put in place of the one that is there, or behind the
/// settings after one empty line; and it is taken out without a trace.
pub proof fn law_block(
    pre: Seq<char>,
    key: Seq<char>,
    v: Seq<char>,
    body: Seq<char>,
    post: Seq<char>,
    new: Seq<char>,
)
    requires
        shape::whole(pre),
        shape::flush(pre),
        text_laws::word(key),
        key.len() > 0,
        text_laws::unbroken(v),
        shape::spaced(body),
        shape::opens(post),
        !text_laws::inside(pre, key + ":"@),
        !text_laws::inside(post, key + ":"@),
    ensures
        ({
            let settings = pre + (key + ":"@ + v + "\n"@ + body) + post;
            &&& blocks::with_block(settings, key, new) == closed_off(
                pre + new + closed_off(post),
            )
            &&& cropped(pre + closed_off(post), blocks::without_block(settings, key))
        }),
{
    let t = key + ":"@ + v + "\n"@ + body;
    let s = pre + t + post;
    keep_laws::lemma_keyed(key, v, body);
    lemma_closed_off(post);
    lemma_closed_off(pre + new + closed_off(post));
    shape::lemma_mapped_around(pre, key, t, post, blocks::replacing(key, new));
    shape::lemma_mapped_around(pre, key, t, post, blocks::replacing(key, Seq::empty()));
    assert(pre + Seq::<char>::empty() + closed_off(post) == pre + closed_off(post));
    lemma_cropped(pre + closed_off(post));
    assert(!text::blank(s)) by {
        assert(s[pre.len() as int] == key[0]);
        assert(!text::white(key[0]));
    }
}

/// A block under a key that is not there goes behind the settings, and there is nothing to take
/// out.
pub proof fn law_no_block(
    settings: Seq<char>,
    key: Seq<char>,
    new: Seq<char>,
    body: Seq<char>,
    w: Seq<char>,
)
    requires
        key.len() > 0,
        !text_laws::inside(settings, key + ":"@),
        settings == body + w,
        text::blank(w),
        body.len() > 0 ==> !text::white(body.last()),
    ensures
        body.len() > 0 ==> cropped(body + "\n\n"@ + new, blocks::with_block(settings, key, new)),
        body.len() == 0 ==> cropped(new, blocks::with_block(settings, key, new)),
        body.len() > 0 ==> cropped(body + "\n\n"@ + new, blocks::appended(settings, new)),
        body.len() == 0 ==> blocks::without_block(settings, key).len() == 0,
{
    if blocks::has_block(blocks::blocks_of(settings), key) {
        shape::lemma_key_inside(settings, key);
    }
    lemma_trimmed_is(body, w);
    text::lemma_blank_trimmed(settings);
    reveal_strlit("\n\n");
    assert("\n\n"@ == seq!['\n', '\n']);
    lemma_cropped(body + seq!['\n', '\n'] + new);
    lemma_cropped(new);
}

/// However many blocks of a default model the settings have, all become that of the gateway;
/// and however many blocks of providers, all get the gateway's entry.
pub proof fn law_every_block(
    settings: Seq<char>,
    proxy: Seq<char>,
    models: Seq<(Seq<char>, Seq<char>)>,
    id: Seq<char>,
    i: int,
)
    requires
        text_laws::unbroken(proxy),
        provider_laws::plain_models(models),
        text_laws::unbroken(id),
    ensures
        ({
            let bs = blocks::blocks_of(default_model::with_default_model(settings, id));
            0 <= i < bs.len() && bs[i].0 == "agent-default-model"@ ==> bs[i].1 == default_of(id)
        }),
        ({
            let bs = blocks::blocks_of(provider::with_provider(settings, proxy, models));
            provider_laws::has_providers(settings) && 0 <= i < bs.len() && bs[i].0 == "llm-pi-ai"@
                ==> text_laws::inside(bs[i].1, keep_laws::entry_text(proxy, models))
        }),
{
    let key = default_model::DEFAULT_BLOCK@;
    let new = default_model::default_text(id);
    keep_laws::lemma_keys();
    lemma_default_of(id);
    default_laws::lemma_default_text(id);
    let us = blocks::blocks_of(settings);
    let ds = blocks::blocks_of(default_model::with_default_model(settings, id));
    if default_laws::has_default(settings) {
        default_laws::lemma_replacing_blocks(settings, key, new);
        assert(ds == blocks::mapped(us, blocks::replacing(key, new)));
    } else {
        let body = text::trimmed_end(settings);
        let w = text::lemma_trimmed_rest(settings);
        let nn = seq!['\n', '\n'];
        assert(text::blank(nn));
        blocks::lemma_blocks_white(body, w);
        blocks::lemma_blocks_white(body, nn);
        let gap = body + nn;
        assert(lines::ended(gap));
        blocks::lemma_blocks_add(gap, key, new);
        let ts = blocks::blocks_of(gap);
        blocks::lemma_grown_keys(blocks::blocks_of(body), w, key);
        blocks::lemma_grown_keys(blocks::blocks_of(body), nn, key);
        assert(!blocks::has_block(ts, key));
        assert(ds == ts.push((key, new)));
        if 0 <= i < ts.len() {
            assert(ds[i] == ts[i]);
        }
    }
    if provider_laws::has_providers(settings) {
        let f = provider::upserting(proxy, models);
        let text = provider::provider_text(proxy, models);
        keep_laws::law_entry_text(proxy, proxy, models);
        provider_laws::lemma_section_text(proxy, models);
        let base = if provider_laws::hanging(settings) {
            provider_laws::lemma_remove_hanging(settings, proxy, models);
            settings
        } else {
            provider_laws::law_write_keeps_blocks(settings, proxy, models);
            lines::with_nl(settings)
        };
        let bs = blocks::blocks_of(base);
        let ws = blocks::blocks_of(provider::with_provider(settings, proxy, models));
        assert(ws == blocks::mapped(bs, f));
        if 0 <= i < ws.len() && ws[i].0 == "llm-pi-ai"@ {
            let ls = lines::lines_of(bs[i].1);
            let a = lines::joined(provider::before_entries(ls));
            let c = lines::joined(provider::other_entries(ls));
            let d = lines::joined(provider::after_entries(ls));
            let o = provider::line_text("llm-pi-ai:"@, ""@) + provider::line_text(
                "  providers:"@,
                ""@,
            );
            assert(ws[i].1 == provider::upserted_block(bs[i].1, proxy, models));
            assert(a + text + c + d == a + text + (c + d));
            assert(o + text == o + text + Seq::<char>::empty());
        }
    }
}

/// A setup writes the gateway's entry and, where it is asked to, makes the gateway the
/// default; a removal takes the entry out and then puts the default model back.
pub proof fn law_setup_and_removal(
    settings: Seq<char>,
    proxy: Seq<char>,
    models: Seq<(Seq<char>, Seq<char>)>,
    saved: Option<Seq<char>>,
)
    ensures
        actions::setup_settings(settings, proxy, models, false) == provider::with_provider(
            settings,
            proxy,
            models,
        ),
        actions::setup_settings(settings, proxy, models, true)
            == default_model::with_default_model(
            provider::with_provider(settings, proxy, models),
            gateway::default_id(models),
        ),
        actions::removed_settings(settings, saved) == default_model::restored(
            saved,
            provider::without_provider(settings),
        ),
{
}

} // verus!
