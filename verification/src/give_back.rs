//! That settings come back exactly when the gateway is set up and removed again.

use vstd::prelude::*;

use crate::action_laws;
use crate::actions;
use crate::blocks;
use crate::default_laws;
use crate::default_model;
use crate::gateway;
use crate::lines;
use crate::provider;
use crate::provider_laws;
use crate::setup_laws;
use crate::text;

verus! {

/// The entries of a providers block follow its providers line directly, and none of them is
/// the gateway's.
pub open spec fn others_only(block: Seq<char>) -> bool {
    let ls = lines::lines_of(block);
    let rest = ls.skip(provider::providers_at(ls) + 1);
    &&& provider::providers_at(ls) < ls.len()
    &&& rest.len() > 0
    &&& blocks::child_key(rest[0]) is Some
    &&& forall|i: int|
        0 <= i < provider::run_len(rest) ==> blocks::child_key(#[trigger] rest[i]) != Some(
            provider::PROVIDER_ID@,
        )
}

/// The settings start with a line that is not blank, end with a line that is not, and have
/// providers, of which none is the gateway.
pub open spec fn tidy_settings(settings: Seq<char>) -> bool {
    let bs = blocks::blocks_of(settings);
    let ls = lines::lines_of(settings);
    &&& settings == blocks::tidied(settings)
    &&& ls.len() > 0
    &&& !text::blank(ls[0])
    &&& provider_laws::has_providers(settings)
    &&& forall|i: int|
        0 <= i < bs.len() && (#[trigger] bs[i]).0 == provider::PROVIDERS_BLOCK@ ==> others_only(
            bs[i].1,
        )
}

pub proof fn lemma_all_kept(ls: Seq<Seq<char>>, owner: Option<Seq<char>>)
    requires
        provider::other_entry(owner),
        forall|i: int|
            0 <= i < ls.len() ==> blocks::child_key(#[trigger] ls[i]) != Some(
                provider::PROVIDER_ID@,
            ),
    ensures
        provider::kept(ls, owner) == ls,
    decreases ls.len(),
{
    if ls.len() > 0 {
        let rest = ls.skip(1);
        assert(blocks::child_key(ls[0]) != Some(provider::PROVIDER_ID@));
        assert forall|i: int| 0 <= i < rest.len() implies blocks::child_key(#[trigger] rest[i])
            != Some(provider::PROVIDER_ID@) by {
            assert(rest[i] == ls[i + 1]);
        }
        lemma_all_kept(rest, provider::owner_of(ls[0], owner));
        assert(seq![ls[0]] + rest == ls);
    }
}

/// A removal leaves such a block as it is.
proof fn lemma_removed_same(t: Seq<char>)
    requires
        others_only(t),
    ensures
        provider::removed_block(t) == t,
{
    let ls = lines::lines_of(t);
    lines::lemma_lines_of(t);
    provider::lemma_providers_at(ls);
    let p = provider::providers_at(ls);
    let rest = ls.skip(p + 1);
    provider::lemma_run_len(rest);
    let r = provider::run_len(rest);
    assert(!provider::stops(rest[0]));
    assert(r >= 1);
    let run = rest.take(r);
    let tail = run.skip(1);
    assert(run[0] == rest[0]);
    assert(blocks::child_key(rest[0]) != Some(provider::PROVIDER_ID@));
    assert forall|i: int| 0 <= i < tail.len() implies blocks::child_key(#[trigger] tail[i]) != Some(
        provider::PROVIDER_ID@,
    ) by {
        assert(tail[i] == rest[i + 1]);
    }
    lemma_all_kept(tail, blocks::child_key(rest[0]));
    assert(seq![run[0]] + tail == run);
    assert(provider::other_entries(ls) == run);
    lines::lemma_joined_split(ls, p + 1);
    lines::lemma_joined_split(rest, r);
    let a = lines::joined(ls.take(p + 1));
    let b = lines::joined(run);
    let c = lines::joined(rest.skip(r));
    assert(a + (b + c) == a + b + c);
}

/// White space at the end of a text belongs to its last part, where that is not blank.
proof fn lemma_trimmed_add(a: Seq<char>, b: Seq<char>)
    requires
        !text::blank(b),
    ensures
        blocks::tidied(a + b) == a + blocks::tidied(b),
{
    text::lemma_trimmed_end(b);
    text::lemma_blank_trimmed(b);
    let t = text::trimmed_end(b);
    let n = (a.len() + t.len()) as int;
    let all = a + b;
    assert(all[n - 1] == t.last());
    assert forall|i: int| n <= i < all.len() implies text::white(#[trigger] all[i]) by {
        assert(all[i] == b[i - a.len()]);
    }
    text::lemma_trimmed_end_unique(all, n);
    assert(all.take(n) == a + t);
    assert((a + t).push('\n') == a + t.push('\n'));
}

/// The text of a block is not blank.
proof fn lemma_block_nonblank(bs: Seq<(Seq<char>, Seq<char>)>, i: int)
    requires
        blocks::good_blocks(bs),
        0 <= i < bs.len(),
    ensures
        !text::blank(bs[i].1),
{
    let t = bs[i].1;
    if blocks::keyed(bs[i].0, t) {
        let ls = lines::lines_of(t);
        lines::lemma_lines_of(t);
        let l = ls[0];
        text::lemma_cut(l, ':');
        let n = text::cut(l, ':');
        assert(lines::joined(ls) == l + lines::joined(ls.skip(1)));
        assert(t[n] == ':');
        assert(!text::white(t[n]));
    }
}

/// Settings that start with a line that is not blank are the concatenation of their blocks.
proof fn lemma_no_blank_head(s: Seq<char>)
    requires
        lines::lines_of(s).len() > 0,
        !text::blank(lines::lines_of(s)[0]),
    ensures
        blocks::without_blank_head(s) == s,
{
    let ls = lines::lines_of(s);
    blocks::lemma_plain_len(ls);
    let n = blocks::plain_len(ls);
    let head = ls.take(n);
    if n > 0 {
        let j = choose|j: int| 0 <= j < ls[0].len() && !text::white(#[trigger] ls[0][j]);
        assert(lines::joined(head) == head[0] + lines::joined(head.skip(1)));
        assert(head[0] == ls[0]);
        assert(blocks::head_of(s)[j] == ls[0][j]);
        assert(!text::white(blocks::head_of(s)[j]));
    } else {
        assert(head.len() == 0);
        assert(lines::joined(head).len() == 0);
        assert(s.skip(0) == s);
    }
}

/// Making the gateway the default leaves the providers where they are.
proof fn lemma_default_keeps_providers(u: Seq<char>, id: Seq<char>)
    requires
        provider_laws::has_providers(u),
        provider_laws::no_nl(id),
    ensures
        provider_laws::has_providers(default_model::with_default_model(u, id)),
{
    let key = default_model::DEFAULT_BLOCK@;
    let other = provider::PROVIDERS_BLOCK@;
    let new = default_model::default_text(id);
    let us = blocks::blocks_of(u);
    let at = choose|i: int| 0 <= i < us.len() && (#[trigger] us[i]).0 == other;
    default_laws::lemma_keys();
    default_laws::lemma_default_text(id);
    if default_laws::has_default(u) {
        default_laws::lemma_replacing_blocks(u, key, new);
        let ds = blocks::mapped(us, blocks::replacing(key, new));
        assert(ds[at].0 == other);
    } else {
        let body = text::trimmed_end(u);
        let w = text::lemma_trimmed_rest(u);
        let nn = seq!['\n', '\n'];
        let gap = body + nn;
        assert(text::blank(nn));
        assert(lines::ended(gap));
        blocks::lemma_blocks_add(gap, key, new);
        blocks::lemma_blocks_white(body, nn);
        blocks::lemma_blocks_white(body, w);
        let ts = blocks::blocks_of(gap);
        let ds = blocks::blocks_of(default_model::with_default_model(u, id));
        assert(ds == ts.push((key, new)));
        assert(ts[at].0 == us[at].0);
        assert(ds[at].0 == other);
    }
}

/// What a removal leaves of such settings, alone and after a write: all of it.
proof fn lemma_nothing_removed(
    s: Seq<char>,
    proxy: Seq<char>,
    models: Seq<(Seq<char>, Seq<char>)>,
)
    requires
        tidy_settings(s),
        provider_laws::no_nl(proxy),
        provider_laws::plain_models(models),
    ensures
        lines::ended(s),
        blocks::render(blocks::blocks_of(s)) == s,
        provider::without_provider(s) == s,
        ({
            let f = provider::upserting(proxy, models);
            let g = provider::removing();
            let bs = blocks::blocks_of(s);
            forall|i: int|
                0 <= i < bs.len() ==> lines::ended(f((#[trigger] bs[i]).0, bs[i].1)) && g(
                    bs[i].0,
                    f(bs[i].0, bs[i].1),
                ) == bs[i].1
        }),
{
    let key = provider::PROVIDERS_BLOCK@;
    let f = provider::upserting(proxy, models);
    let g = provider::removing();
    let bs = blocks::blocks_of(s);
    assert(s.last() == '\n');
    default_laws::lemma_keys();
    blocks::lemma_blocks_of(s);
    lemma_no_blank_head(s);
    assert forall|i: int| 0 <= i < bs.len() implies lines::ended(f((#[trigger] bs[i]).0, bs[i].1))
        && g(bs[i].0, f(bs[i].0, bs[i].1)) == bs[i].1 && g(bs[i].0, bs[i].1) == bs[i].1 by {
        assert(lines::ended(bs[i].1));
        if bs[i].0 == key {
            assert(provider_laws::providers_block(bs[i].1));
            lemma_removed_same(bs[i].1);
            provider_laws::lemma_upserted_block(bs[i].1, proxy, models);
            provider_laws::lemma_upserted_twice(bs[i].1, proxy, models, proxy, models);
        }
    }
    assert(blocks::mapped(bs, g) == bs);
}

/// The settings with another block in place of the default-model block end as they did.
proof fn lemma_replaced_tidy(bs: Seq<(Seq<char>, Seq<char>)>, n: int, id: Seq<char>)
    requires
        blocks::good_blocks(bs),
        forall|i: int| 0 <= i < bs.len() ==> lines::ended((#[trigger] bs[i]).1),
        blocks::render(bs) == blocks::tidied(blocks::render(bs)),
        0 <= n < bs.len(),
        bs[n].0 == default_model::DEFAULT_BLOCK@,
        provider_laws::no_nl(id),
    ensures
        ({
            let ms = bs.update(
                n,
                (default_model::DEFAULT_BLOCK@, default_model::default_text(id)),
            );
            &&& blocks::good_blocks(ms)
            &&& blocks::tidied(blocks::render(ms)) == blocks::render(ms)
        }),
{
    let key = default_model::DEFAULT_BLOCK@;
    let new = default_model::default_text(id);
    let ms = bs.update(n, (key, new));
    default_laws::lemma_keys();
    default_laws::lemma_default_text(id);
    assert forall|i: int| 0 <= i < ms.len() implies (blocks::keyed((#[trigger] ms[i]).0, ms[i].1)
        || (i == 0 && blocks::headed(ms[i].0, ms[i].1))) && lines::ended(ms[i].1) by {
        if i != n {
            assert(ms[i] == bs[i]);
            assert(lines::ended(bs[i].1));
        }
    }
    let z = bs.len() - 1;
    let a = bs.drop_last();
    let b = ms.drop_last();
    assert(bs == a + seq![bs[z]]);
    assert(ms == b + seq![ms[z]]);
    blocks::lemma_render_add(a, seq![bs[z]]);
    blocks::lemma_render_add(b, seq![ms[z]]);
    blocks::lemma_render_one(bs[z]);
    blocks::lemma_render_one(ms[z]);
    lemma_block_nonblank(bs, z);
    lemma_block_nonblank(ms, z);
    let x = blocks::render(a);
    let y = blocks::render(b);
    lemma_trimmed_add(x, bs[z].1);
    lemma_trimmed_add(y, ms[z].1);
    assert(blocks::tidied(bs[z].1) == bs[z].1) by {
        assert((x + blocks::tidied(bs[z].1)).skip(x.len() as int) == blocks::tidied(bs[z].1));
        assert((x + bs[z].1).skip(x.len() as int) == bs[z].1);
    }
}

/// Where the settings have a default model, removing the gateway after it was set up as the
/// default gives them back.
proof fn lemma_back_with_default(
    s: Seq<char>,
    proxy: Seq<char>,
    models: Seq<(Seq<char>, Seq<char>)>,
)
    requires
        provider_laws::no_nl(proxy),
        provider_laws::plain_models(models),
        tidy_settings(s),
        default_laws::has_default(s),
        default_laws::at_most_one(blocks::blocks_of(s), default_model::DEFAULT_BLOCK@),
    ensures
        ({
            let kept = default_model::saved_default(provider::with_provider(s, proxy, models));
            let written = actions::setup_settings(s, proxy, models, true);
            actions::removed_settings(written, Some(kept)) == s
        }),
{
    let key = default_model::DEFAULT_BLOCK@;
    let other = provider::PROVIDERS_BLOCK@;
    let id = gateway::default_id(models);
    let new = default_model::default_text(id);
    let f = provider::upserting(proxy, models);
    let g = provider::removing();
    let bs = blocks::blocks_of(s);
    let u = provider::with_provider(s, proxy, models);
    let us = blocks::blocks_of(u);
    let kept = default_model::saved_default(u);
    action_laws::lemma_default_id(models);
    default_laws::lemma_keys();
    default_laws::lemma_default_text(id);
    lemma_nothing_removed(s, proxy, models);
    blocks::lemma_blocks_of(s);
    default_model::lemma_block_at(bs, key);
    let n = default_model::block_at(bs, key);
    let at = choose|i: int| 0 <= i < bs.len() && (#[trigger] bs[i]).0 == other;
    provider_laws::law_write_keeps_blocks(s, proxy, models);
    assert(us == blocks::mapped(bs, f));
    assert(bs[n].0 == key);
    assert(lines::ended(bs[n].1));
    assert(us[n] == bs[n]);
    assert forall|i: int| 0 <= i < n implies (#[trigger] us[i]).0 != key by {
        assert(us[i].0 == bs[i].0);
    }
    default_model::lemma_block_at_unique(us, key, n);
    assert(kept == bs[n].1);
    let d = actions::setup_settings(s, proxy, models, true);
    let ds = blocks::mapped(us, blocks::replacing(key, new));
    default_laws::lemma_replacing_blocks(u, key, new);
    assert(blocks::has_block(us, key));
    assert(d == blocks::render(ds));
    assert(ds[at].0 == other);
    assert(provider_laws::has_providers(d));
    let ms = bs.update(n, (key, new));
    assert(blocks::mapped(ds, g) == ms) by {
        assert forall|i: int| 0 <= i < ms.len() implies #[trigger] blocks::mapped(ds, g)[i]
            == ms[i] by {
            assert(lines::ended(f(bs[i].0, bs[i].1)) && g(bs[i].0, f(bs[i].0, bs[i].1))
                == bs[i].1);
            if i != n {
                assert(bs[i].0 != key);
                assert(ds[i] == us[i]);
            }
        }
    }
    lemma_replaced_tidy(bs, n, id);
    let e = provider::without_provider(d);
    assert(e == blocks::render(ms));
    blocks::lemma_blocks_of_render(ms);
    assert forall|i: int| 0 <= i < n implies (#[trigger] ms[i]).0 != key by {
        assert(ms[i] == bs[i]);
    }
    default_laws::lemma_points_here(e, n, id);
    default_laws::lemma_keyed_nonblank(key, kept);
    assert(blocks::mapped(ms, blocks::replacing(key, kept)) == bs) by {
        assert forall|i: int| 0 <= i < bs.len() implies #[trigger] blocks::mapped(
            ms,
            blocks::replacing(key, kept),
        )[i] == bs[i] by {
            assert(lines::ended(bs[i].1));
            if i != n {
                assert(bs[i].0 != key);
                assert(ms[i] == bs[i]);
            }
        }
    }
}

/// Where the settings have no default model, removing the gateway after it was set up as
/// the default gives them back.
proof fn lemma_back_without_default(
    s: Seq<char>,
    proxy: Seq<char>,
    models: Seq<(Seq<char>, Seq<char>)>,
)
    requires
        provider_laws::no_nl(proxy),
        provider_laws::plain_models(models),
        tidy_settings(s),
        !default_laws::has_default(s),
    ensures
        ({
            let kept = default_model::saved_default(provider::with_provider(s, proxy, models));
            let written = actions::setup_settings(s, proxy, models, true);
            actions::removed_settings(written, Some(kept)) == s
        }),
{
    let key = default_model::DEFAULT_BLOCK@;
    let other = provider::PROVIDERS_BLOCK@;
    let id = gateway::default_id(models);
    let bs = blocks::blocks_of(s);
    let u = provider::with_provider(s, proxy, models);
    let us = blocks::blocks_of(u);
    let kept = default_model::saved_default(u);
    let d = actions::setup_settings(s, proxy, models, true);
    let e = provider::without_provider(d);
    let left = actions::removed_settings(d, Some(kept));
    action_laws::lemma_default_id(models);
    lemma_nothing_removed(s, proxy, models);
    default_model::lemma_block_at(bs, key);
    setup_laws::law_write_keeps_default(s, proxy, models);
    text::lemma_blank_trimmed(kept);
    assert(default_model::saved_default(s).len() == 0);
    assert(text::blank(kept));
    let at = choose|i: int| 0 <= i < bs.len() && (#[trigger] bs[i]).0 == other;
    provider_laws::law_write_keeps_blocks(s, proxy, models);
    assert(us[at].0 == other);
    lemma_default_keeps_providers(u, id);
    assert forall|i: int, j: int|
        0 <= i < bs.len() && 0 <= j < bs.len() && (#[trigger] bs[i]).0 == key && (
        #[trigger] bs[j]).0 == key implies i == j by {
        assert(blocks::has_block(bs, key));
    }
    action_laws::law_remove_undoes_setup(s, proxy, models);
    assert(text::trimmed_end(left) == text::trimmed_end(s));
    let x = blocks::render(
        blocks::mapped(blocks::blocks_of(e), blocks::replacing(key, Seq::empty())),
    );
    let y = blocks::render(blocks::mapped(blocks::blocks_of(d), provider::removing()));
    setup_laws::lemma_trimmed_tidied(x);
    setup_laws::lemma_trimmed_tidied(y);
    assert(e == blocks::tidied(y));
    text::lemma_blank_trimmed(s);
    text::lemma_blank_trimmed(left);
    let j = choose|j: int|
        0 <= j < lines::lines_of(s)[0].len() && !text::white(#[trigger] lines::lines_of(s)[0][j]);
    assert(!text::blank(s)) by {
        let ls = lines::lines_of(s);
        lines::lemma_lines_of(s);
        assert(lines::joined(ls) == ls[0] + lines::joined(ls.skip(1)));
        assert(!text::white(s[j]));
    }
    assert(left == blocks::tidied(left));
}

/// Removing the gateway after it was set up as the default gives the settings back, char by
/// char, with their other providers and their default model. This is about settings whose
/// first and last lines are not blank, with a providers block in which the other entries
/// follow the providers line directly, and with one default-model block at most.
pub proof fn law_settings_come_back(
    settings: Seq<char>,
    proxy: Seq<char>,
    models: Seq<(Seq<char>, Seq<char>)>,
)
    requires
        provider_laws::no_nl(proxy),
        provider_laws::plain_models(models),
        tidy_settings(settings),
        default_laws::at_most_one(blocks::blocks_of(settings), default_model::DEFAULT_BLOCK@),
    ensures
        ({
            let kept = default_model::saved_default(
                provider::with_provider(settings, proxy, models),
            );
            let written = actions::setup_settings(settings, proxy, models, true);
            actions::removed_settings(written, Some(kept)) == settings
        }),
{
    if default_laws::has_default(settings) {
        lemma_back_with_default(settings, proxy, models);
    } else {
        lemma_back_without_default(settings, proxy, models);
    }
}

} // verus!
