//! What pointing the default model at the gateway, clearing it and restoring it promise
//! together.

use vstd::prelude::*;

use crate::blocks;
use crate::default_model;
use crate::lines;
use crate::provider;
use crate::provider_laws;
use crate::text;

verus! {

/// There is a default-model block.
pub open spec fn has_default(settings: Seq<char>) -> bool {
    blocks::has_block(blocks::blocks_of(settings), default_model::DEFAULT_BLOCK@)
}

/// No two blocks have the key `key`.
pub open spec fn at_most_one(bs: Seq<(Seq<char>, Seq<char>)>, key: Seq<char>) -> bool {
    forall|i: int, j: int|
        0 <= i < bs.len() && 0 <= j < bs.len() && (#[trigger] bs[i]).0 == key && (
        #[trigger] bs[j]).0 == key ==> i == j
}

pub proof fn lemma_keys()
    ensures
        default_model::DEFAULT_BLOCK@.len() == 19,
        provider::PROVIDERS_BLOCK@.len() == 9,
        default_model::DEFAULT_BLOCK@ != provider::PROVIDERS_BLOCK@,
{
    reveal_strlit("agent-default-model");
    reveal_strlit("llm-pi-ai");
    assert(default_model::DEFAULT_BLOCK@.len() == 19);
    assert(provider::PROVIDERS_BLOCK@.len() == 9);
}

proof fn lemma_default_key()
    ensures
        blocks::key_of(provider::line_text("agent-default-model:"@, ""@)) == Some(
            default_model::DEFAULT_BLOCK@,
        ),
        text::trimmed(provider::line_text("agent-default-model:"@, ""@)).len() > 0,
        text::trimmed(provider::line_text("agent-default-model:"@, ""@))[0] == 'a',
{
    let l = provider::line_text("agent-default-model:"@, ""@);
    reveal_strlit("agent-default-model:");
    reveal_strlit("agent-default-model");
    reveal_strlit("");
    text::lemma_cut_unique(l, ':', 19);
    assert(l.take(19) == default_model::DEFAULT_BLOCK@);
    text::lemma_trimmed_end_unique(l, 20);
    assert(text::trimmed_start(l) == l);
}

proof fn lemma_provider_line()
    ensures
        "provider:"@.is_prefix_of(
            text::trimmed(provider::line_text("  provider: "@, "ais-codex"@)),
        ),
        text::trimmed(
            text::trimmed(provider::line_text("  provider: "@, "ais-codex"@)).skip(
                "provider:"@.len() as int,
            ),
        ) == provider::PROVIDER_ID@,
{
    let l = provider::line_text("  provider: "@, "ais-codex"@);
    reveal_strlit("  provider: ");
    reveal_strlit("ais-codex");
    reveal_strlit("provider:");
    assert(l.len() == 22);
    reveal_with_fuel(text::trimmed_start, 3);
    assert(text::trimmed_start(l) == l.skip(1).skip(1));
    let m = l.skip(1).skip(1);
    assert(m == l.skip(2));
    text::lemma_trimmed_end_unique(m, 19);
    let v = m.take(19);
    assert(text::trimmed(l) == v);
    assert("provider:"@ == v.take(9));
    let w = v.skip(9);
    assert(w[0] == ' ' && w[1] == 'a');
    assert(text::trimmed_start(w) == w.skip(1));
    text::lemma_trimmed_end_unique(w.skip(1), 9);
    assert(w.skip(1).take(9) == provider::PROVIDER_ID@);
}

/// The default-model block has four lines, of which the second names the gateway.
pub proof fn lemma_default_text(id: Seq<char>)
    requires
        provider_laws::no_nl(id),
    ensures
        blocks::keyed(default_model::DEFAULT_BLOCK@, default_model::default_text(id)),
        lines::ended(default_model::default_text(id)),
        blocks::tidied(default_model::default_text(id)) == default_model::default_text(id),
        default_model::first_provider(lines::lines_of(default_model::default_text(id))) == Some(
            provider::PROVIDER_ID@,
        ),
{
    let t = default_model::default_text(id);
    let a = provider::line_text("agent-default-model:"@, ""@);
    let b = provider::line_text("  provider: "@, "ais-codex"@);
    let c = provider::line_text("  model: "@, id);
    let d = provider::line_text("  reasoningEffort: "@, "high"@);
    reveal_strlit("agent-default-model:");
    reveal_strlit("");
    reveal_strlit("  provider: ");
    reveal_strlit("ais-codex");
    reveal_strlit("  model: ");
    reveal_strlit("  reasoningEffort: ");
    reveal_strlit("high");
    reveal_strlit("provider:");
    provider_laws::lemma_line_text("agent-default-model:"@, ""@);
    provider_laws::lemma_line_text("  provider: "@, "ais-codex"@);
    provider_laws::lemma_line_text("  model: "@, id);
    provider_laws::lemma_line_text("  reasoningEffort: "@, "high"@);
    provider_laws::lemma_space_line(b);
    provider_laws::lemma_space_line(c);
    provider_laws::lemma_space_line(d);
    lemma_default_key();
    lemma_provider_line();
    let ls = seq![a, b, c, d];
    assert(lines::good_lines(ls));
    lines::lemma_lines_of_joined(ls);
    reveal_with_fuel(lines::joined, 5);
    assert(lines::joined(ls) == t) by {
        assert(ls.skip(1) == seq![b, c, d]);
        assert(seq![b, c, d].skip(1) == seq![c, d]);
        assert(seq![c, d].skip(1) == seq![d]);
        assert(seq![d].skip(1).len() == 0);
        assert(t == a + (b + (c + (d + Seq::<char>::empty()))));
    }
    assert(t[t.len() - 2] == 'h');
    text::lemma_trimmed_end_unique(t, t.len() - 1);
    assert(blocks::tidied(t) == t);
    reveal_with_fuel(default_model::first_provider, 3);
    assert(!"provider:"@.is_prefix_of(text::trimmed(a))) by {
        assert("provider:"@[0] == 'p');
    }
    assert(ls.skip(1)[0] == b);
}

/// A block that is not blank; the text of a block with a key.
pub proof fn lemma_keyed_nonblank(key: Seq<char>, t: Seq<char>)
    requires
        blocks::keyed(key, t),
        key.len() > 0,
    ensures
        !text::blank(t),
{
    blocks::lemma_tidied(key, t);
}

/// Ends each block that is not of the key; what a replacement does to the others.
pub proof fn lemma_replacing_blocks(s: Seq<char>, key: Seq<char>, new: Seq<char>)
    requires
        blocks::keyed(key, new),
        lines::ended(new),
        key.len() > 0,
    ensures
        blocks::good_blocks(blocks::mapped(blocks::blocks_of(s), blocks::replacing(key, new))),
        blocks::blocks_of(
            blocks::render(blocks::mapped(blocks::blocks_of(s), blocks::replacing(key, new))),
        ) == blocks::mapped(blocks::blocks_of(s), blocks::replacing(key, new)),
        lines::ended(
            blocks::render(blocks::mapped(blocks::blocks_of(s), blocks::replacing(key, new))),
        ),
{
    let bs = blocks::blocks_of(s);
    let f = blocks::replacing(key, new);
    blocks::lemma_blocks_of(s);
    assert forall|i: int| 0 <= i < bs.len() implies lines::ended(f((#[trigger] bs[i]).0, bs[i].1))
        && (blocks::keyed(bs[i].0, bs[i].1) ==> blocks::keyed(bs[i].0, f(bs[i].0, bs[i].1))) && (
    blocks::headed(bs[i].0, bs[i].1) ==> blocks::headed(bs[i].0, f(bs[i].0, bs[i].1))) by {
        blocks::lemma_plain_push(bs[i].1, '\n');
    }
    blocks::lemma_mapped_blocks(bs, f);
}

/// Where the default model points at the gateway, only the kept copy decides.
pub proof fn lemma_points_here(settings: Seq<char>, n: int, id: Seq<char>)
    requires
        provider_laws::no_nl(id),
        0 <= n < blocks::blocks_of(settings).len(),
        blocks::blocks_of(settings)[n] == (
            default_model::DEFAULT_BLOCK@,
            default_model::default_text(id),
        ),
        forall|i: int|
            0 <= i < n ==> (#[trigger] blocks::blocks_of(settings)[i]).0
                != default_model::DEFAULT_BLOCK@,
    ensures
        default_model::current_provider(settings) == Some(provider::PROVIDER_ID@),
        has_default(settings),
{
    default_model::lemma_block_at_unique(
        blocks::blocks_of(settings),
        default_model::DEFAULT_BLOCK@,
        n,
    );
    lemma_default_text(id);
}

/// The mapped blocks render to the text with its last line ended, where the one block
/// that was replaced is put back and the others are only ended.
proof fn lemma_put_back(
    bs: Seq<(Seq<char>, Seq<char>)>,
    key: Seq<char>,
    n: int,
    new: Seq<char>,
)
    requires
        blocks::good_blocks(bs),
        0 <= n < bs.len(),
        bs[n].0 == key,
        at_most_one(bs, key),
    ensures
        lines::with_nl(
            blocks::render(
                blocks::mapped(
                    blocks::mapped(bs, blocks::replacing(key, new)),
                    blocks::replacing(key, bs[n].1),
                ),
            ),
        ) == lines::with_nl(blocks::render(bs)),
{
    let f = blocks::replacing(key, new);
    let g = blocks::replacing(key, bs[n].1);
    let out = blocks::mapped(blocks::mapped(bs, f), g);
    let init = bs.drop_last();
    let last = bs.last();
    let same = out.drop_last();
    assert forall|i: int| 0 <= i < init.len() implies #[trigger] same[i] == init[i] by {
        assert(lines::ended(bs[i].1));
        assert(out[i].0 == bs[i].0);
    }
    assert(same == init);
    assert(bs == init + seq![last]);
    assert(out == same + seq![out.last()]);
    blocks::lemma_render_add(init, seq![last]);
    blocks::lemma_render_add(same, seq![out.last()]);
    blocks::lemma_render_one(last);
    blocks::lemma_render_one(out.last());
    let r = blocks::render(init);
    assert(last.1.len() > 0) by {
        if last.1.len() == 0 {
            assert(lines::lines_of(last.1).len() == 0);
            assert(text::blank(last.1));
        }
    }
    assert(out.last().1 == last.1 || out.last().1 == lines::with_nl(last.1));
    assert(lines::with_nl(r + lines::with_nl(last.1)) == lines::with_nl(r + last.1)) by {
        if !lines::ended(last.1) {
            assert(r + last.1.push('\n') == (r + last.1).push('\n'));
        }
    }
}

/// Restoring after pointing the default model at the gateway gives the settings back:
/// with their default model where they had one, and without the added block where they
/// had none. Blank lines in front of the first key are gone, and the last line is ended.
pub proof fn law_restore_gives_back(settings: Seq<char>, id: Seq<char>)
    requires
        provider_laws::no_nl(id),
        at_most_one(blocks::blocks_of(settings), default_model::DEFAULT_BLOCK@),
    ensures
        default_model::restored(
            Some(default_model::saved_default(settings)),
            default_model::with_default_model(settings, id),
        ) == (if has_default(settings) {
            lines::with_nl(blocks::without_blank_head(settings))
        } else {
            blocks::tidied(blocks::without_blank_head(settings))
        }),
{
    let key = default_model::DEFAULT_BLOCK@;
    let new = default_model::default_text(id);
    let bs = blocks::blocks_of(settings);
    let d = default_model::with_default_model(settings, id);
    lemma_keys();
    lemma_default_text(id);
    blocks::lemma_blocks_of(settings);
    default_model::lemma_block_at(bs, key);
    if has_default(settings) {
        let n = default_model::block_at(bs, key);
        let f = blocks::replacing(key, new);
        let cs = blocks::mapped(bs, f);
        lemma_replacing_blocks(settings, key, new);
        assert(d == blocks::render(cs));
        assert(cs[n] == (key, new));
        assert forall|i: int| 0 <= i < n implies (#[trigger] cs[i]).0 != key by {
            assert(bs[i].0 != key);
        }
        lemma_points_here(d, n, id);
        assert(blocks::keyed(key, bs[n].1)) by {
            if blocks::headed(bs[n].0, bs[n].1) {
                assert(bs[n].0.len() == 0);
            }
        }
        lemma_keyed_nonblank(key, bs[n].1);
        lemma_put_back(bs, key, n, new);
    } else {
        let body = text::trimmed_end(settings);
        let gap = body + seq!['\n', '\n'];
        assert(lines::ended(gap));
        blocks::lemma_blocks_add(gap, key, new);
        assert(text::blank(seq!['\n', '\n']));
        blocks::lemma_blocks_white(body, seq!['\n', '\n']);
        let w = text::lemma_trimmed_rest(settings);
        blocks::lemma_blocks_white(body, w);
        let ts = blocks::blocks_of(gap);
        let cs = blocks::blocks_of(d);
        assert(cs == ts.push((key, new)));
        assert(!blocks::has_block(ts, key)) by {
            blocks::lemma_grown_keys(blocks::blocks_of(body), seq!['\n', '\n'], key);
            blocks::lemma_grown_keys(blocks::blocks_of(body), w, key);
        }
        assert forall|i: int| 0 <= i < ts.len() implies (#[trigger] cs[i]).0 != key by {
            assert(ts[i].0 != key);
        }
        lemma_points_here(d, ts.len() as int, id);
        assert(!text::blank(d)) by {
            lemma_keyed_nonblank(key, new);
            let j = choose|j: int| 0 <= j < new.len() && !text::white(#[trigger] new[j]);
            assert(d[gap.len() + j] == new[j]);
        }
        assert(default_model::saved_default(settings).len() == 0);
        let h = blocks::replacing(key, Seq::empty());
        provider_laws::lemma_mapped_last(ts, key, new, h);
        assert(cs == ts + seq![(key, new)]);
        blocks::lemma_blocks_of(gap);
        assert(blocks::mapped(ts, h) == ts) by {
            assert forall|i: int| 0 <= i < ts.len() implies #[trigger] blocks::mapped(ts, h)[i]
                == ts[i] by {
                assert(lines::ended(ts[i].1));
            }
        }
        assert(blocks::render(blocks::mapped(cs, h)) == blocks::without_blank_head(gap));
        lemma_same_body(settings);
    }
}

/// The settings and the settings with two line breaks at the end render alike up to
/// white space at the end.
proof fn lemma_same_body(settings: Seq<char>)
    ensures
        text::trimmed_end(
            blocks::without_blank_head(text::trimmed_end(settings) + seq!['\n', '\n']),
        ) == text::trimmed_end(blocks::without_blank_head(settings)),
{
    let body = text::trimmed_end(settings);
    let nn = seq!['\n', '\n'];
    let w = text::lemma_trimmed_rest(settings);
    assert(text::blank(nn));
    lemma_white_body(body, nn);
    lemma_white_body(body, w);
}

/// White space at the end does not change what the blocks render to, up to white space at
/// the end.
pub proof fn lemma_white_body(body: Seq<char>, w: Seq<char>)
    requires
        text::blank(w),
    ensures
        text::trimmed_end(blocks::without_blank_head(body + w)) == text::trimmed_end(
            blocks::without_blank_head(body),
        ),
{
    let s = body + w;
    blocks::lemma_blocks_of(s);
    blocks::lemma_blocks_of(body);
    blocks::lemma_blocks_white(body, w);
    let bs = blocks::blocks_of(body);
    if bs.len() > 0 {
        let init = bs.drop_last();
        let last = bs.last();
        let grown = (last.0, last.1 + w);
        assert(bs == init + seq![last]);
        assert(blocks::blocks_of(s) == init + seq![grown]);
        blocks::lemma_render_add(init, seq![last]);
        blocks::lemma_render_add(init, seq![grown]);
        blocks::lemma_render_one(last);
        blocks::lemma_render_one(grown);
        let r = blocks::render(init);
        assert(r + (last.1 + w) == (r + last.1) + w);
        text::lemma_trimmed_white(r + last.1, w);
    }
}

/// Of two models that are made the default, the later one stays. This leaves out settings
/// without a default-model block that are blank or start with blank lines in front of
/// the first key: the second write drops those.
pub proof fn law_later_default_wins(settings: Seq<char>, id1: Seq<char>, id2: Seq<char>)
    requires
        provider_laws::no_nl(id1),
        has_default(settings) || (!text::blank(settings) && !provider_laws::blank_head(settings)),
    ensures
        default_model::with_default_model(
            default_model::with_default_model(settings, id1),
            id2,
        ) == default_model::with_default_model(settings, id2),
{
    let key = default_model::DEFAULT_BLOCK@;
    let new1 = default_model::default_text(id1);
    let new2 = default_model::default_text(id2);
    let f1 = blocks::replacing(key, new1);
    let f2 = blocks::replacing(key, new2);
    let bs = blocks::blocks_of(settings);
    let d = default_model::with_default_model(settings, id1);
    lemma_keys();
    lemma_default_text(id1);
    blocks::lemma_blocks_of(settings);
    if has_default(settings) {
        let n = choose|i: int| 0 <= i < bs.len() && (#[trigger] bs[i]).0 == key;
        lemma_replacing_blocks(settings, key, new1);
        let cs = blocks::mapped(bs, f1);
        assert(cs[n].0 == key);
        assert(has_default(d));
        assert(blocks::mapped(cs, f2) == blocks::mapped(bs, f2));
    } else {
        let body = text::trimmed_end(settings);
        let gap = body + seq!['\n', '\n'];
        assert(lines::ended(gap));
        text::lemma_blank_trimmed(settings);
        blocks::lemma_blocks_add(gap, key, new1);
        let ts = blocks::blocks_of(gap);
        let cs = blocks::blocks_of(d);
        assert(cs == ts.push((key, new1)));
        assert(cs[ts.len() as int].0 == key);
        assert(has_default(d));
        assert(cs == ts + seq![(key, new1)]);
        provider_laws::lemma_mapped_last(ts, key, new1, f2);
        blocks::lemma_appended(settings, key, new1);
        assert(blocks::body_of(settings) == gap);
        blocks::lemma_blocks_of(gap);
        assert(!blocks::has_block(ts, key));
        assert forall|i: int| 0 <= i < ts.len() implies #[trigger] blocks::mapped(ts, f2)[i]
            == ts[i] by {
            assert(lines::ended(ts[i].1));
            assert(ts[i].0 != key);
        }
        assert(blocks::mapped(ts, f2) == ts);
        assert(blocks::without_blank_head(gap) == gap);
        assert(new2.last() == '\n') by {
            assert(new2 == provider::line_text("agent-default-model:"@, ""@) + provider::line_text(
                "  provider: "@,
                "ais-codex"@,
            ) + provider::line_text("  model: "@, id2) + provider::line_text(
                "  reasoningEffort: "@,
                "high"@,
            ));
        }
        assert(lines::ended(gap + new2));
    }
}

proof fn lemma_trimmed_first(l: Seq<char>)
    requires
        l.len() > 2,
        l[0] == ' ',
        l[1] == ' ',
        !text::white(l[2]),
    ensures
        text::trimmed(l).len() > 0,
        text::trimmed(l).len() + 2 <= l.len(),
        forall|i: int|
            0 <= i < text::trimmed(l).len() ==> #[trigger] text::trimmed(l)[i] == l[i + 2],
{
    reveal_with_fuel(text::trimmed_start, 3);
    let m = l.skip(1).skip(1);
    assert(m == l.skip(2));
    assert(text::trimmed_start(l) == m);
    text::lemma_trimmed_end(m);
    if text::trimmed(l).len() == 0 {
        assert(text::white(m[0]));
    }
}

/// The official block does not name the gateway.
proof fn lemma_official_text()
    ensures
        blocks::keyed(default_model::DEFAULT_BLOCK@, default_model::official_text()),
        lines::ended(default_model::official_text()),
        !default_model::names_gateway(default_model::official_text()),
{
    let t = default_model::official_text();
    let a = provider::line_text("agent-default-model:"@, ""@);
    let b = provider::line_text("  provider: "@, "deepseek-official"@);
    let c = provider::line_text("  model: "@, "deepseek-v4-flash"@);
    let d = provider::line_text("  reasoningEffort: "@, "high"@);
    reveal_strlit("agent-default-model:");
    reveal_strlit("");
    reveal_strlit("  provider: ");
    reveal_strlit("deepseek-official");
    reveal_strlit("  model: ");
    reveal_strlit("deepseek-v4-flash");
    reveal_strlit("  reasoningEffort: ");
    reveal_strlit("high");
    reveal_strlit("provider: ais-codex");
    provider_laws::lemma_line_text("agent-default-model:"@, ""@);
    provider_laws::lemma_line_text("  provider: "@, "deepseek-official"@);
    provider_laws::lemma_line_text("  model: "@, "deepseek-v4-flash"@);
    provider_laws::lemma_line_text("  reasoningEffort: "@, "high"@);
    provider_laws::lemma_space_line(b);
    provider_laws::lemma_space_line(c);
    provider_laws::lemma_space_line(d);
    lemma_default_key();
    lemma_trimmed_first(b);
    lemma_trimmed_first(c);
    lemma_trimmed_first(d);
    let ls = seq![a, b, c, d];
    assert(lines::good_lines(ls));
    lines::lemma_lines_of_joined(ls);
    reveal_with_fuel(lines::joined, 5);
    assert(lines::joined(ls) == t) by {
        assert(ls.skip(1) == seq![b, c, d]);
        assert(seq![b, c, d].skip(1) == seq![c, d]);
        assert(seq![c, d].skip(1) == seq![d]);
        assert(seq![d].skip(1).len() == 0);
        assert(t == a + (b + (c + (d + Seq::<char>::empty()))));
    }
    let want = "provider: ais-codex"@;
    assert(want.len() == 19);
    assert(want[0] == 'p' && want[10] == 'a');
    assert(b[12] == 'd');
    assert(text::trimmed(b) != want) by {
        if text::trimmed(b).len() == 19 {
            assert(text::trimmed(b)[10] == b[12]);
        }
    }
    assert(text::trimmed(c)[0] == c[2]);
    assert(text::trimmed(d)[0] == d[2]);
}

proof fn lemma_trimmed_nl(l: Seq<char>)
    requires
        l.len() > 0,
    ensures
        text::trimmed(l.push('\n')) == text::trimmed(l),
{
    let m = l.push('\n');
    text::lemma_trimmed_start(l);
    text::lemma_trimmed_start(m);
    let a = l.len() - text::trimmed_start(l).len();
    let b = m.len() - text::trimmed_start(m).len();
    if a < l.len() {
        if b < a {
            assert(m[b] == text::trimmed_start(m)[0]);
            assert(text::white(l[b]));
        } else if a < b {
            assert(text::white(m[a]));
            assert(l[a] == text::trimmed_start(l)[0]);
        }
        assert(text::trimmed_start(m) == text::trimmed_start(l) + seq!['\n']);
        text::lemma_trimmed_white(text::trimmed_start(l), seq!['\n']);
    } else {
        assert forall|i: int| 0 <= i < m.len() implies text::white(#[trigger] m[i]) by {
            if i < l.len() {
                assert(text::white(l[i]));
            }
        }
        text::lemma_blank_trimmed(l);
        text::lemma_blank_trimmed(m);
        assert(text::trimmed(l) == text::trimmed(m));
    }
}

proof fn lemma_names_nl(t: Seq<char>)
    ensures
        default_model::names_gateway(lines::with_nl(t)) == default_model::names_gateway(t),
{
    if !lines::ended(t) {
        let want = "provider: ais-codex"@;
        let ls = lines::lines_of(t);
        let ms = lines::lines_of(t.push('\n'));
        lines::lemma_lines_of(t);
        lines::lemma_lines_push(t, '\n');
        let z = ls.len() - 1;
        assert(lines::one_line(ls[z]));
        lemma_trimmed_nl(ls[z]);
        assert(ms[z] == ls[z].push('\n'));
        if default_model::names_gateway(t) {
            let i = choose|i: int| 0 <= i < ls.len() && text::trimmed(#[trigger] ls[i]) == want;
            assert(text::trimmed(ms[i]) == want);
        }
        if default_model::names_gateway(t.push('\n')) {
            let i = choose|i: int| 0 <= i < ms.len() && text::trimmed(#[trigger] ms[i]) == want;
            assert(text::trimmed(ls[i]) == want);
        }
    }
}

/// After clearing, no default-model block names the gateway.
pub proof fn law_cleared(settings: Seq<char>)
    ensures
        !default_model::default_names_gateway(
            blocks::blocks_of(default_model::without_gateway_default(settings)),
        ),
{
    let key = default_model::DEFAULT_BLOCK@;
    let f = default_model::clearing();
    let bs = blocks::blocks_of(settings);
    let out = default_model::without_gateway_default(settings);
    lemma_keys();
    lemma_official_text();
    blocks::lemma_blocks_of(settings);
    let cs = blocks::blocks_of(out);
    if default_model::default_names_gateway(bs) {
        assert forall|i: int| 0 <= i < bs.len() implies lines::ended(
            f((#[trigger] bs[i]).0, bs[i].1),
        ) && (blocks::keyed(bs[i].0, bs[i].1) ==> blocks::keyed(bs[i].0, f(bs[i].0, bs[i].1))) && (
        blocks::headed(bs[i].0, bs[i].1) ==> blocks::headed(bs[i].0, f(bs[i].0, bs[i].1))) by {
            blocks::lemma_plain_push(bs[i].1, '\n');
        }
        blocks::lemma_mapped_blocks(bs, f);
        assert forall|i: int| 0 <= i < cs.len() && (#[trigger] cs[i]).0 == key implies
            !default_model::names_gateway(cs[i].1) by {
            assert(cs[i] == (bs[i].0, f(bs[i].0, bs[i].1)));
            lemma_names_nl(bs[i].1);
        }
    } else if !lines::ended(settings) {
        let nl = seq!['\n'];
        assert(settings.push('\n') == settings + nl);
        assert(text::blank(nl));
        blocks::lemma_blocks_white(settings, nl);
        assert forall|i: int| 0 <= i < cs.len() && (#[trigger] cs[i]).0 == key implies
            !default_model::names_gateway(cs[i].1) by {
            assert(bs[i].0 == key);
            if i == cs.len() - 1 {
                assert(cs[i].1 == bs[i].1 + nl);
                assert(bs[i].1 + nl == bs[i].1.push('\n'));
                lemma_last_ended(settings);
                lemma_names_nl(bs[i].1);
            } else {
                assert(cs[i] == bs[i]);
            }
        }
    }
}

/// The last block of settings whose last line is not ended is not ended.
proof fn lemma_last_ended(s: Seq<char>)
    requires
        !lines::ended(s),
        blocks::blocks_of(s).len() > 0,
    ensures
        !lines::ended(blocks::blocks_of(s).last().1),
{
    let bs = blocks::blocks_of(s);
    let last = bs[bs.len() - 1];
    let init = bs.drop_last();
    blocks::lemma_blocks_of(s);
    blocks::lemma_head(s);
    assert(bs == init + seq![last]);
    blocks::lemma_render_add(init, seq![last]);
    blocks::lemma_render_one(last);
    assert(last.1.len() > 0) by {
        lines::lemma_lines_of(last.1);
        if last.1.len() == 0 {
            assert(text::blank(last.1));
        }
    }
    let whole = blocks::without_blank_head(s);
    assert(whole.last() == last.1.last());
    assert(whole.last() == s.last());
}

/// A default model that does not point at the gateway is left alone, whatever was kept.
pub proof fn law_other_default_stays(saved: Option<Seq<char>>, settings: Seq<char>)
    requires
        default_model::current_provider(settings) != Some(provider::PROVIDER_ID@),
    ensures
        default_model::restored(saved, settings) == lines::with_nl(settings),
{
}

} // verus!
