//! What setting the gateway up again promises: nothing changes any more.

use vstd::prelude::*;

use crate::action_laws;
use crate::actions;
use crate::blocks;
use crate::default_laws;
use crate::default_model;
use crate::gateway;
use crate::lines;
use crate::provider;
use crate::provider_laws;
use crate::setup_laws;
use crate::text;

verus! {

/// The lines of a providers block end with another provider's entry, or behind the
/// entries: what is added at the end stays there.
pub open spec fn open_lines(ls: Seq<Seq<char>>) -> bool {
    let rest = ls.skip(provider::providers_at(ls) + 1);
    &&& provider::providers_at(ls) < ls.len()
    &&& provider::run_len(rest) < rest.len() || provider::other_entry(
        provider_laws::last_owner(rest, None),
    )
}

/// What stands behind the providers line but for the gateway's entry.
pub open spec fn other_lines(ls: Seq<Seq<char>>) -> Seq<Seq<char>> {
    provider::other_entries(ls) + provider::after_entries(ls)
}

proof fn lemma_last_owner_push(ls: Seq<Seq<char>>, l: Seq<char>, owner: Option<Seq<char>>)
    ensures
        provider_laws::last_owner(ls.push(l), owner) == provider::owner_of(
            l,
            provider_laws::last_owner(ls, owner),
        ),
    decreases ls.len(),
{
    let all = ls.push(l);
    if ls.len() == 0 {
        assert(all.skip(1).len() == 0);
        assert(provider_laws::last_owner(all.skip(1), provider::owner_of(l, owner))
            == provider::owner_of(l, owner));
    } else {
        assert(all.skip(1) == ls.skip(1).push(l));
        lemma_last_owner_push(ls.skip(1), l, provider::owner_of(ls[0], owner));
    }
}

/// One line more at the end, which says nothing.
proof fn lemma_open_line(ls: Seq<Seq<char>>, m: Seq<char>)
    requires
        !provider::is_providers_line(m),
        !provider::stops(m),
        blocks::child_key(m) is None,
    ensures
        open_lines(ls.push(m)) == open_lines(ls),
        open_lines(ls) ==> provider::providers_at(ls.push(m)) == provider::providers_at(ls)
            && provider::before_entries(ls.push(m)) == provider::before_entries(ls)
            && other_lines(ls.push(m)) == other_lines(ls).push(m),
{
    let ms = ls.push(m);
    let p = provider::providers_at(ls);
    provider::lemma_providers_at(ls);
    if p >= ls.len() {
        assert forall|i: int| 0 <= i < p + 1 implies !provider::is_providers_line(
            #[trigger] ms[i],
        ) by {
            if i < p {
                assert(ms[i] == ls[i]);
            }
        }
        provider::lemma_providers_at_unique(ms, p + 1);
    } else {
        assert forall|i: int| 0 <= i < p implies !provider::is_providers_line(
            #[trigger] ms[i],
        ) by {
            assert(ms[i] == ls[i]);
        }
        assert(ms[p] == ls[p]);
        provider::lemma_providers_at_unique(ms, p);
        assert(provider::before_entries(ms) == provider::before_entries(ls));
        let rest = ls.skip(p + 1);
        let rest2 = ms.skip(p + 1);
        assert(rest2 == rest.push(m));
        provider::lemma_run_len(rest);
        lemma_last_owner_push(rest, m, None);
        let r = provider::run_len(rest);
        if r == rest.len() {
            assert forall|i: int| 0 <= i < r + 1 implies !provider::stops(#[trigger] rest2[i]) by {
                if i < r {
                    assert(rest2[i] == rest[i]);
                }
            }
            provider::lemma_run_len_unique(rest2, r + 1);
            assert(rest.take(r) == rest);
            assert(rest2.take(r + 1) == rest2);
            provider_laws::lemma_kept_push(rest, m, None);
            assert(rest.skip(r).len() == 0);
            assert(rest2.skip(r + 1).len() == 0);
            if open_lines(ls) {
                assert(other_lines(ms) == other_lines(ls).push(m));
            }
        } else {
            assert forall|i: int| 0 <= i < r implies !provider::stops(#[trigger] rest2[i]) by {
                assert(rest2[i] == rest[i]);
            }
            assert(rest2[r] == rest[r]);
            provider::lemma_run_len_unique(rest2, r);
            assert(rest2.take(r) == rest.take(r));
            assert(rest2.skip(r) == rest.skip(r).push(m));
            assert(other_lines(ms) == other_lines(ls).push(m));
        }
    }
}

/// A character of white space at the end of the last line.
proof fn lemma_open_last(init: Seq<Seq<char>>, l: Seq<char>, c: char)
    requires
        l.len() > 0,
        text::white(c),
    ensures
        open_lines(init.push(l.push(c))) == open_lines(init.push(l)),
        open_lines(init.push(l)) ==> {
            let ls = init.push(l);
            let ms = init.push(l.push(c));
            &&& provider::before_entries(ms) == provider::before_entries(ls)
            &&& provider::providers_at(ms) == provider::providers_at(ls)
            &&& other_lines(ls).len() > 0
            &&& other_lines(ls).last() == l
            &&& other_lines(ms) == other_lines(ls).drop_last().push(l.push(c))
        },
{
    let m = l.push(c);
    let ls = init.push(l);
    let ms = init.push(m);
    setup_laws::lemma_line_white(l, c);
    let p = provider::providers_at(ls);
    provider::lemma_providers_at(ls);
    assert forall|i: int| 0 <= i < p implies !provider::is_providers_line(#[trigger] ms[i]) by {
        assert(!provider::is_providers_line(ls[i]));
        if i < init.len() {
            assert(ms[i] == ls[i]);
        }
    }
    if p < ls.len() {
        if p < init.len() {
            assert(ms[p] == ls[p]);
        }
        assert(provider::is_providers_line(ms[p]));
    }
    provider::lemma_providers_at_unique(ms, p);
    if p == init.len() {
        assert(ls.skip(p + 1).len() == 0);
        assert(ms.skip(p + 1) == ls.skip(p + 1));
    } else if p < init.len() {
        let a = init.skip(p + 1);
        let rest = ls.skip(p + 1);
        let rest2 = ms.skip(p + 1);
        assert(rest == a.push(l));
        assert(rest2 == a.push(m));
        assert(provider::before_entries(ms) == provider::before_entries(ls));
        lemma_last_owner_push(a, l, None);
        lemma_last_owner_push(a, m, None);
        provider::lemma_run_len(rest);
        let r = provider::run_len(rest);
        assert forall|i: int| 0 <= i < r implies !provider::stops(#[trigger] rest2[i]) by {
            assert(!provider::stops(rest[i]));
            if i < a.len() {
                assert(rest2[i] == rest[i]);
            }
        }
        if r < rest.len() {
            if r < a.len() {
                assert(rest2[r] == rest[r]);
            }
            assert(provider::stops(rest2[r]));
        }
        provider::lemma_run_len_unique(rest2, r);
        if r == rest.len() {
            assert(rest.take(r) == rest);
            assert(rest2.take(r) == rest2);
            assert(rest.skip(r).len() == 0);
            assert(rest2.skip(r).len() == 0);
            provider_laws::lemma_kept_push(a, l, None);
            provider_laws::lemma_kept_push(a, m, None);
            let k = provider::kept(a, None);
            if open_lines(ls) {
                assert(other_lines(ls) == k.push(l));
                assert(other_lines(ms) == k.push(m));
                assert(k.push(l).drop_last() == k);
            }
        } else {
            assert(rest.take(r) == rest2.take(r));
            let b = a.skip(r);
            assert(rest.skip(r) == b.push(l));
            assert(rest2.skip(r) == b.push(m));
            let o = provider::other_entries(ls);
            assert(other_lines(ls) == (o + b).push(l));
            assert(other_lines(ms) == (o + b).push(m));
            assert((o + b).push(l).drop_last() == o + b);
        }
    }
}

/// The block ends with another provider's entry, or behind the entries.
pub open spec fn open_block(t: Seq<char>) -> bool {
    open_lines(lines::lines_of(t))
}

proof fn lemma_upserted_text(
    t: Seq<char>,
    proxy: Seq<char>,
    models: Seq<(Seq<char>, Seq<char>)>,
)
    requires
        open_block(t),
    ensures
        provider::upserted_block(t, proxy, models) == lines::joined(
            provider::before_entries(lines::lines_of(t)),
        ) + provider::provider_text(proxy, models) + lines::joined(
            other_lines(lines::lines_of(t)),
        ),
{
    let ls = lines::lines_of(t);
    let a = provider::other_entries(ls);
    let b = provider::after_entries(ls);
    lines::lemma_joined_add(a, b);
    let x = lines::joined(provider::before_entries(ls)) + provider::provider_text(proxy, models);
    assert(x + lines::joined(a) + lines::joined(b) == x + (lines::joined(a) + lines::joined(b)));
}

/// White space at the end of such a block goes behind what is written into it.
proof fn lemma_open_white(
    t: Seq<char>,
    w: Seq<char>,
    proxy: Seq<char>,
    models: Seq<(Seq<char>, Seq<char>)>,
)
    requires
        text::blank(w),
    ensures
        open_block(t + w) == open_block(t),
        open_block(t) ==> provider::upserted_block(t + w, proxy, models)
            == provider::upserted_block(t, proxy, models) + w,
    decreases w.len(),
{
    if w.len() == 0 {
        assert(t + w == t);
        let x = provider::upserted_block(t, proxy, models);
        assert(x + w == x);
    } else {
        let v = w.drop_last();
        let c = w.last();
        assert(text::white(w[w.len() - 1]));
        assert forall|i: int| 0 <= i < v.len() implies text::white(#[trigger] v[i]) by {
            assert(v[i] == w[i]);
        }
        lemma_open_white(t, v, proxy, models);
        let u = t + v;
        assert(t + w == u.push(c));
        let ls = lines::lines_of(u);
        let ms = lines::lines_of(u.push(c));
        lines::lemma_lines_of(u);
        lines::lemma_lines_push(u, c);
        let x = lines::joined(provider::before_entries(ls)) + provider::provider_text(
            proxy,
            models,
        );
        let y = other_lines(ls);
        if lines::ended(u) {
            let m = seq![c];
            setup_laws::lemma_white_line(c);
            lemma_open_line(ls, m);
            if open_lines(ls) {
                lines::lemma_joined_push(y, m);
                assert(x + (lines::joined(y) + m) == (x + lines::joined(y)).push(c));
            }
        } else {
            let init = ls.drop_last();
            let l = ls.last();
            let m = l.push(c);
            assert(ls == init.push(l));
            assert(ms == init.push(m));
            assert(lines::one_line(ls[ls.len() - 1]));
            lemma_open_last(init, l, c);
            if open_lines(ls) {
                assert(y == y.drop_last().push(l));
                lines::lemma_joined_push(y.drop_last(), l);
                lines::lemma_joined_push(y.drop_last(), m);
                let z = lines::joined(y.drop_last());
                assert(x + (z + m) == (x + (z + l)).push(c));
            }
        }
        if open_block(t) {
            lemma_upserted_text(u, proxy, models);
            lemma_upserted_text(u.push(c), proxy, models);
            let q = provider::upserted_block(t, proxy, models);
            assert((q + v).push(c) == q + w);
        }
    }
}

proof fn lemma_kept_len(ls: Seq<Seq<char>>, owner: Option<Seq<char>>)
    ensures
        provider::kept(ls, owner).len() <= ls.len(),
    decreases ls.len(),
{
    if ls.len() > 0 {
        lemma_kept_len(ls.skip(1), provider::owner_of(ls[0], owner));
    }
}

/// The lines of an entry are not kept.
proof fn lemma_entry_kept(entry: Seq<Seq<char>>, ls: Seq<Seq<char>>)
    requires
        provider_laws::entry_lines(entry),
    ensures
        provider::kept(entry + ls, None).len() <= ls.len(),
{
    let o = Some(provider::PROVIDER_ID@);
    let tail = entry.skip(1);
    let all = entry + ls;
    assert(all.skip(1) == tail + ls);
    assert(all[0] == entry[0]);
    assert forall|i: int| 0 <= i < tail.len() implies blocks::child_key(
        #[trigger] tail[i],
    ) is None by {
        assert(tail[i] == entry[i + 1]);
    }
    provider_laws::lemma_kept_plain(tail, ls, o);
    lemma_kept_len(ls, o);
}

/// A block into which the entry was written is open where it holds another entry or goes on
/// behind the entries.
proof fn lemma_written_open(
    t: Seq<char>,
    proxy: Seq<char>,
    models: Seq<(Seq<char>, Seq<char>)>,
)
    requires
        provider_laws::providers_block(t),
        provider_laws::no_nl(proxy),
        provider_laws::plain_models(models),
        provider::providers_at(lines::lines_of(t)) < lines::lines_of(t).len(),
        other_lines(lines::lines_of(t)).len() > 0,
    ensures
        open_block(provider::upserted_block(t, proxy, models)),
{
    let ls = lines::lines_of(t);
    let entry = provider::provider_lines(proxy, models);
    lines::lemma_lines_of(t);
    provider_laws::lemma_provider_lines(proxy, models);
    provider_laws::lemma_upserted_block(t, proxy, models);
    provider_laws::lemma_entry_in_place(ls, entry);
    let all = provider_laws::entry_in_place(ls, entry);
    let p = provider::providers_at(ls);
    provider::lemma_providers_at(ls);
    let b = provider::other_entries(ls);
    let c = provider::after_entries(ls);
    let rest = all.skip(p + 1);
    assert(rest == entry + b + c);
    provider::lemma_run_len(rest);
    let r = provider::run_len(rest);
    if r == rest.len() {
        assert(rest.skip(r).len() == 0);
        assert(c.len() == 0);
        assert(rest.take(r) == rest);
        assert(rest == entry + b);
        let init = b.drop_last();
        let z = b.last();
        assert(rest == (entry + init).push(z));
        provider_laws::lemma_kept_push(entry + init, z, None);
        lemma_last_owner_push(entry + init, z, None);
        lemma_entry_kept(entry, init);
        assert(provider::kept(rest, None) == b);
    }
}

/// The settings end with the gateway's entry once it is written.
pub open spec fn ends_with_entry(settings: Seq<char>) -> bool {
    let bs = blocks::blocks_of(lines::with_nl(settings));
    let ls = lines::lines_of(bs.last().1);
    &&& bs.len() > 0
    &&& bs.last().0 == provider::PROVIDERS_BLOCK@
    &&& provider::providers_at(ls) >= ls.len() || other_lines(ls).len() == 0
}

/// Setting up again with the same models changes nothing more, where the settings have a
/// default model.
proof fn lemma_again_with_default(
    settings: Seq<char>,
    proxy: Seq<char>,
    models: Seq<(Seq<char>, Seq<char>)>,
)
    requires
        provider_laws::no_nl(proxy),
        provider_laws::plain_models(models),
        default_laws::has_default(settings),
        !provider_laws::hanging(settings),
        provider_laws::has_providers(settings) || provider_laws::tidy_models(models),
    ensures
        actions::setup_settings(
            actions::setup_settings(settings, proxy, models, true),
            proxy,
            models,
            true,
        ) == actions::setup_settings(settings, proxy, models, true),
{
    let key = default_model::DEFAULT_BLOCK@;
    let other = provider::PROVIDERS_BLOCK@;
    let id = gateway::default_id(models);
    let new = default_model::default_text(id);
    let f = provider::upserting(proxy, models);
    let h = blocks::replacing(key, new);
    let u = provider::with_provider(settings, proxy, models);
    let us = blocks::blocks_of(u);
    let bs = blocks::blocks_of(settings);
    action_laws::lemma_default_id(models);
    default_laws::lemma_keys();
    default_laws::lemma_default_text(id);
    let n = choose|i: int| 0 <= i < bs.len() && (#[trigger] bs[i]).0 == key;
    if provider_laws::has_providers(settings) {
        lemma_written_blocks(settings, proxy, models);
    } else {
        provider_laws::lemma_section_text(proxy, models);
        let section = provider::section_text(proxy, models);
        blocks::lemma_appended(settings, other, section);
        let ts = blocks::blocks_of(blocks::body_of(settings));
        assert(us == ts.push((other, blocks::tidied(section))));
        assert(us[ts.len() as int].0 == other);
        assert(blocks::has_block(bs, key));
        assert(blocks::has_block(ts, key));
        let m = choose|i: int| 0 <= i < ts.len() && (#[trigger] ts[i]).0 == key;
        assert(us[m].0 == key);
        provider_laws::lemma_tidy_section(proxy, models);
        provider_laws::lemma_tidied_section(proxy, models, proxy, models);
        assert(blocks::mapped(us, f) == us) by {
            blocks::lemma_blocks_of(u);
            assert forall|i: int| 0 <= i < us.len() implies #[trigger] blocks::mapped(us, f)[i]
                == us[i] by {
                assert(lines::ended(us[i].1));
                if i < ts.len() {
                    assert(us[i] == ts[i]);
                    if ts[i].0 == other {
                        assert(blocks::has_block(ts, other));
                        assert(blocks::has_block(bs, other));
                    }
                }
            }
        }
    }
    assert(provider_laws::has_providers(u));
    assert(default_laws::has_default(u));
    default_laws::lemma_replacing_blocks(u, key, new);
    let ds = blocks::mapped(us, h);
    let d = default_model::with_default_model(u, id);
    assert(d == blocks::render(ds));
    blocks::lemma_blocks_of(u);
    let p = choose|i: int| 0 <= i < us.len() && (#[trigger] us[i]).0 == other;
    let q = choose|i: int| 0 <= i < us.len() && (#[trigger] us[i]).0 == key;
    assert(ds[p].0 == other);
    assert(ds[q].0 == key);
    assert forall|i: int| 0 <= i < ds.len() implies #[trigger] blocks::mapped(ds, f)[i] == ds[i]
        && blocks::mapped(ds, h)[i] == ds[i] by {
        assert(lines::ended(us[i].1));
        assert(blocks::mapped(us, f)[i] == us[i]);
    }
    assert(blocks::mapped(ds, f) == ds);
    assert(blocks::mapped(ds, h) == ds);
}

/// A block into which the entry was written, with other white space at the end, is not
/// changed by a second write where it goes on behind the entry.
proof fn lemma_last_stays(
    t0: Seq<char>,
    l: Seq<char>,
    w: Seq<char>,
    proxy: Seq<char>,
    models: Seq<(Seq<char>, Seq<char>)>,
)
    requires
        provider_laws::providers_block(t0),
        provider_laws::no_nl(proxy),
        provider_laws::plain_models(models),
        provider::providers_at(lines::lines_of(t0)) < lines::lines_of(t0).len(),
        other_lines(lines::lines_of(t0)).len() > 0,
        text::blank(w),
        provider::upserted_block(t0, proxy, models) == l + w,
        provider::upserted_block(l + w, proxy, models) == l + w,
    ensures
        provider::upserted_block(l + seq!['\n', '\n'], proxy, models) == l + seq!['\n', '\n'],
{
    let nn = seq!['\n', '\n'];
    assert(text::blank(nn));
    lemma_written_open(t0, proxy, models);
    lemma_open_white(l, w, proxy, models);
    lemma_open_white(l, nn, proxy, models);
    let x = provider::upserted_block(l, proxy, models);
    assert(x + w == l + w);
    assert(x.len() == l.len());
    assert forall|j: int| 0 <= j < l.len() implies x[j] == l[j] by {
        assert((x + w)[j] == (l + w)[j]);
    }
    assert(x == l);
}

/// Settings whose blocks a write leaves alone, also with two line breaks at the end, stay
/// as they are when the default model that was added behind them is written again.
proof fn lemma_default_stays(
    u: Seq<char>,
    proxy: Seq<char>,
    models: Seq<(Seq<char>, Seq<char>)>,
)
    requires
        provider_laws::plain_models(models),
        lines::ended(u),
        provider_laws::has_providers(u),
        !default_laws::has_default(u),
        u == blocks::render(blocks::blocks_of(u)),
        ({
            let f = provider::upserting(proxy, models);
            let ts = blocks::blocks_of(text::trimmed_end(u) + seq!['\n', '\n']);
            forall|i: int| 0 <= i < ts.len() ==> f((#[trigger] ts[i]).0, ts[i].1) == ts[i].1
        }),
    ensures
        ({
            let id = gateway::default_id(models);
            let d = default_model::with_default_model(u, id);
            default_model::with_default_model(
                provider::with_provider(d, proxy, models),
                id,
            ) == d
        }),
{
    let key = default_model::DEFAULT_BLOCK@;
    let other = provider::PROVIDERS_BLOCK@;
    let id = gateway::default_id(models);
    let new = default_model::default_text(id);
    let f = provider::upserting(proxy, models);
    let h = blocks::replacing(key, new);
    let nn = seq!['\n', '\n'];
    let us = blocks::blocks_of(u);
    let body = text::trimmed_end(u);
    let w = text::lemma_trimmed_rest(u);
    let gap = body + nn;
    let d = default_model::with_default_model(u, id);
    let at = choose|i: int| 0 <= i < us.len() && (#[trigger] us[i]).0 == other;
    assert(text::blank(nn));
    action_laws::lemma_default_id(models);
    default_laws::lemma_keys();
    default_laws::lemma_default_text(id);
    blocks::lemma_blocks_of(u);
    assert(lines::ended(gap));
    blocks::lemma_blocks_add(gap, key, new);
    blocks::lemma_blocks_white(body, nn);
    blocks::lemma_blocks_white(body, w);
    blocks::lemma_blocks_of(gap);
    let ts = blocks::blocks_of(gap);
    let ds = blocks::blocks_of(d);
    assert(ds == ts.push((key, new)));
    assert(ts.len() == us.len());
    assert forall|i: int| 0 <= i < ts.len() implies #[trigger] h(ts[i].0, ts[i].1) == ts[i].1 by {
        assert(lines::ended(ts[i].1));
        assert(ts[i].0 == us[i].0);
    }
    assert(blocks::mapped(ts, f) == ts) by {
        assert forall|i: int| 0 <= i < ts.len() implies #[trigger] blocks::mapped(ts, f)[i]
            == ts[i] by {
            assert(f(ts[i].0, ts[i].1) == ts[i].1);
        }
    }
    assert(blocks::mapped(ts, h) == ts) by {
        assert forall|i: int| 0 <= i < ts.len() implies #[trigger] blocks::mapped(ts, h)[i]
            == ts[i] by {
            assert(h(ts[i].0, ts[i].1) == ts[i].1);
        }
    }
    assert(blocks::mapped(ds, f) == ds) by {
        assert(blocks::mapped(ds, f) == blocks::mapped(ts, f).push((key, lines::with_nl(new))));
    }
    assert(blocks::mapped(ds, h) == ds) by {
        assert(blocks::mapped(ds, h) == blocks::mapped(ts, h).push((key, new)));
    }
    assert(ds[at].0 == other) by {
        assert(ts[at].0 == us[at].0);
    }
    assert(ds[ts.len() as int].0 == key);
    assert(lines::ended(d));
    blocks::lemma_blocks_of(d);
    text::lemma_blank_trimmed(u);
    assert(blocks::without_blank_head(u) == u);
    blocks::lemma_head(u);
    assert(!text::blank(u)) by {
        if text::blank(u) {
            assert(body.len() == 0);
            assert(lines::lines_of(body).len() == 0);
        }
    }
    blocks::lemma_appended(u, key, new);
    assert(blocks::body_of(u) == gap);
    assert(ds == ts + seq![(key, new)]);
    blocks::lemma_render_add(ts, seq![(key, new)]);
    blocks::lemma_render_one((key, new));
    assert(blocks::render(ds) == d);
}

/// What a write makes of settings with a providers block, and that a second write leaves it
/// alone.
proof fn lemma_written_blocks(
    settings: Seq<char>,
    proxy: Seq<char>,
    models: Seq<(Seq<char>, Seq<char>)>,
)
    requires
        provider_laws::no_nl(proxy),
        provider_laws::plain_models(models),
        !provider_laws::hanging(settings),
        provider_laws::has_providers(settings),
    ensures
        ({
            let f = provider::upserting(proxy, models);
            let u = provider::with_provider(settings, proxy, models);
            let us = blocks::blocks_of(u);
            &&& us == blocks::mapped(blocks::blocks_of(lines::with_nl(settings)), f)
            &&& blocks::mapped(us, f) == us
            &&& u == blocks::render(us)
            &&& lines::ended(u)
            &&& provider_laws::has_providers(u)
            &&& default_laws::has_default(u) == default_laws::has_default(settings)
        }),
{
    let key = default_model::DEFAULT_BLOCK@;
    let other = provider::PROVIDERS_BLOCK@;
    let f = provider::upserting(proxy, models);
    let s = lines::with_nl(settings);
    let u = provider::with_provider(settings, proxy, models);
    let us = blocks::blocks_of(u);
    let bs = blocks::blocks_of(settings);
    let ss = blocks::blocks_of(s);
    provider_laws::law_later_write_wins(settings, proxy, models, proxy, models);
    provider_laws::law_write_keeps_blocks(settings, proxy, models);
    provider_laws::lemma_settings_nl(settings, proxy, models);
    provider_laws::lemma_has_providers_nl(settings);
    provider_laws::lemma_upserting_blocks(s, proxy, models);
    assert(u == blocks::render(us));
    let at = choose|i: int| 0 <= i < ss.len() && (#[trigger] ss[i]).0 == other;
    assert(us[at].0 == other);
    assert(provider_laws::has_providers(u));
    assert(!provider_laws::hanging(u));
    provider_laws::law_write_keeps_blocks(u, proxy, models);
    if !lines::ended(settings) {
        assert(settings.push('\n') == settings + seq!['\n']);
        assert(text::blank(seq!['\n']));
        blocks::lemma_blocks_white(settings, seq!['\n']);
        blocks::lemma_grown_keys(bs, seq!['\n'], key);
    }
    if default_laws::has_default(u) {
        let j = choose|j: int| 0 <= j < us.len() && (#[trigger] us[j]).0 == key;
        assert(ss[j].0 == key);
        assert(blocks::has_block(ss, key));
    }
    if blocks::has_block(ss, key) {
        let j = choose|j: int| 0 <= j < ss.len() && (#[trigger] ss[j]).0 == key;
        assert(us[j].0 == key);
        assert(blocks::has_block(us, key));
    }
}

/// Setting up again with the same models changes nothing more, where the settings have no
/// default model but go on behind the gateway's entry.
proof fn lemma_again_without_default(
    settings: Seq<char>,
    proxy: Seq<char>,
    models: Seq<(Seq<char>, Seq<char>)>,
)
    requires
        provider_laws::no_nl(proxy),
        provider_laws::plain_models(models),
        !default_laws::has_default(settings),
        !provider_laws::hanging(settings),
        provider_laws::has_providers(settings),
        !ends_with_entry(settings),
    ensures
        actions::setup_settings(
            actions::setup_settings(settings, proxy, models, true),
            proxy,
            models,
            true,
        ) == actions::setup_settings(settings, proxy, models, true),
{
    let other = provider::PROVIDERS_BLOCK@;
    let f = provider::upserting(proxy, models);
    let s = lines::with_nl(settings);
    let u = provider::with_provider(settings, proxy, models);
    let us = blocks::blocks_of(u);
    let ss = blocks::blocks_of(s);
    let nn = seq!['\n', '\n'];
    assert(text::blank(nn));
    default_laws::lemma_keys();
    lemma_written_blocks(settings, proxy, models);
    blocks::lemma_blocks_of(s);
    let body = text::trimmed_end(u);
    let w = text::lemma_trimmed_rest(u);
    let gap = body + nn;
    assert(lines::ended(gap));
    blocks::lemma_blocks_white(body, nn);
    blocks::lemma_blocks_white(body, w);
    blocks::lemma_blocks_of(gap);
    let bb = blocks::blocks_of(body);
    let ts = blocks::blocks_of(gap);
    assert(bb.len() == us.len());
    let z = bb.len() - 1;
    assert forall|i: int| 0 <= i < ts.len() implies f((#[trigger] ts[i]).0, ts[i].1)
        == ts[i].1 by {
        assert(lines::ended(ts[i].1));
        assert(blocks::mapped(us, f)[i] == us[i]);
        assert(ts[i].0 == us[i].0);
        if i < z {
            assert(ts[i] == us[i]);
        } else if ts[i].0 == other {
            let t0 = ss[z].1;
            let l = bb[z].1;
            assert(us[z].0 == ss[z].0);
            assert(us[z] == (other, provider::upserted_block(t0, proxy, models)));
            assert(us[z].1 == l + w);
            assert(lines::ended(t0));
            assert(provider_laws::providers_block(t0));
            lemma_last_stays(t0, l, w, proxy, models);
        }
    }
    lemma_default_stays(u, proxy, models);
}

/// Setting up again with the same models changes nothing more. This leaves out settings
/// whose last line is a providers line without a newline; settings with a default model and
/// without a providers block where the name of the last model ends in white space; and
/// settings without a default model that end with the gateway's entry once it is written,
/// behind which the second write drops a blank line.
pub proof fn law_setup_twice(
    settings: Seq<char>,
    proxy: Seq<char>,
    models: Seq<(Seq<char>, Seq<char>)>,
)
    requires
        provider_laws::no_nl(proxy),
        provider_laws::plain_models(models),
        !provider_laws::hanging(settings),
        default_laws::has_default(settings) ==> provider_laws::has_providers(settings)
            || provider_laws::tidy_models(models),
        !default_laws::has_default(settings) ==> provider_laws::has_providers(settings)
            && !ends_with_entry(settings),
    ensures
        actions::setup_settings(
            actions::setup_settings(settings, proxy, models, true),
            proxy,
            models,
            true,
        ) == actions::setup_settings(settings, proxy, models, true),
{
    if default_laws::has_default(settings) {
        lemma_again_with_default(settings, proxy, models);
    } else {
        lemma_again_without_default(settings, proxy, models);
    }
}

} // verus!
