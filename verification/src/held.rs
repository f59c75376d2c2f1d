//! Text of one block of the settings, and how it stays there through writes and removals.

use vstd::prelude::*;

use crate::blocks;
use crate::default_laws;
use crate::default_model;
use crate::lines;
use crate::provider;
use crate::provider_laws;
use crate::setup_laws;
use crate::text;
use crate::text_laws;

verus! {

/// The text ends with a line break, and not with white space in front of that.
pub open spec fn tight(t: Seq<char>) -> bool {
    t.len() >= 2 && t.last() == '\n' && !text::white(t[t.len() - 2])
}

/// `part` stands in a block of `s` with the key `key`.
pub open spec fn held(s: Seq<char>, key: Seq<char>, part: Seq<char>) -> bool {
    exists|i: int|
        0 <= i < blocks::blocks_of(s).len() && (#[trigger] blocks::blocks_of(s)[i]).0 == key
            && text_laws::inside(blocks::blocks_of(s)[i].1, part)
}

/// Other white space behind a text does not matter to what stands in it, as long as it starts
/// with a line break.
pub proof fn lemma_tight(l: Seq<char>, w: Seq<char>, v: Seq<char>, part: Seq<char>)
    requires
        text::blank(w),
        v.len() > 0,
        v[0] == '\n',
        text_laws::inside(l + w, part),
        tight(part),
    ensures
        text_laws::inside(l + v, part),
{
    let s = l + w;
    let (a, b) = choose|a: Seq<char>, b: Seq<char>| s == #[trigger] (a + part + b);
    assert(text_laws::inside(s, part));
    assert(s == a + part + b);
    let e = a.len() + part.len() - 1;
    assert(s[e - 1] == part[part.len() - 2]);
    if e - 1 >= l.len() {
        assert(s[e - 1] == w[e - 1 - l.len()]);
    }
    if e < l.len() {
        let c = l.skip(e + 1);
        assert(l == a + part + c) by {
            assert forall|i: int| 0 <= i < l.len() implies l[i] == (a + part + c)[i] by {
                assert(l[i] == s[i]);
            }
        }
        assert(l + v == a + part + (c + v));
    } else {
        assert(l.len() == e);
        assert(l + v == a + part + v.skip(1)) by {
            let t = a + part + v.skip(1);
            assert((l + v).len() == t.len());
            assert forall|i: int| 0 <= i < t.len() implies (l + v)[i] == t[i] by {
                if i < e {
                    assert(s[i] == l[i]);
                } else if i == e {
                    assert(t[i] == part.last());
                }
            }
        }
    }
}

/// White space at the end of a text but one line break is dropped, and nothing of what stands
/// in it.
pub proof fn lemma_tidied_holds(x: Seq<char>, part: Seq<char>)
    requires
        text_laws::inside(x, part),
        tight(part),
    ensures
        text_laws::inside(blocks::tidied(x), part),
{
    let w = text::lemma_trimmed_rest(x);
    lemma_tight(text::trimmed_end(x), w, seq!['\n'], part);
    assert(blocks::tidied(x) == text::trimmed_end(x) + seq!['\n']);
}

pub proof fn lemma_render_at(bs: Seq<(Seq<char>, Seq<char>)>, i: int)
    requires
        0 <= i < bs.len(),
    ensures
        text_laws::inside(blocks::render(bs), bs[i].1),
{
    let a = bs.take(i);
    let c = bs.skip(i + 1);
    assert(bs == a + seq![bs[i]] + c);
    blocks::lemma_render_add(a + seq![bs[i]], c);
    blocks::lemma_render_add(a, seq![bs[i]]);
    blocks::lemma_render_one(bs[i]);
    text_laws::lemma_inside(blocks::render(a), bs[i].1, blocks::render(c));
}

pub proof fn lemma_nl_holds(t: Seq<char>, part: Seq<char>)
    requires
        text_laws::inside(t, part),
    ensures
        text_laws::inside(lines::with_nl(t), part),
        text_laws::inside(t + seq!['\n'], part),
{
    text_laws::lemma_inside_more(Seq::empty(), t, seq!['\n'], part);
    assert(t.push('\n') == t + seq!['\n']);
}

/// What stands in a block stands in the settings.
pub proof fn lemma_held_inside(s: Seq<char>, key: Seq<char>, part: Seq<char>)
    requires
        held(s, key, part),
    ensures
        text_laws::inside(s, part),
{
    let bs = blocks::blocks_of(s);
    let i = choose|i: int|
        0 <= i < bs.len() && (#[trigger] bs[i]).0 == key && text_laws::inside(bs[i].1, part);
    lemma_render_at(bs, i);
    blocks::lemma_blocks_of(s);
    blocks::lemma_head(s);
    let r = blocks::without_blank_head(s);
    text_laws::lemma_inside_chain(r, bs[i].1, part);
    let head = blocks::head_of(s);
    if text::blank(head) {
        assert(s == head + r);
        text_laws::lemma_inside_more(head, r, Seq::empty(), part);
    }
}

/// The last block may end with other white space.
proof fn lemma_held_white(body: Seq<char>, w: Seq<char>, v: Seq<char>, key: Seq<char>, part: Seq<char>)
    requires
        text::blank(w),
        text::blank(v),
        v.len() > 0,
        v[0] == '\n',
        held(body + w, key, part),
        tight(part),
    ensures
        held(body + v, key, part),
{
    blocks::lemma_blocks_white(body, w);
    blocks::lemma_blocks_white(body, v);
    let bb = blocks::blocks_of(body);
    let bs = blocks::blocks_of(body + w);
    let cs = blocks::blocks_of(body + v);
    let i = choose|i: int|
        0 <= i < bs.len() && (#[trigger] bs[i]).0 == key && text_laws::inside(bs[i].1, part);
    assert(cs[i].0 == key);
    if i == bb.len() - 1 {
        lemma_tight(bb[i].1, w, v, part);
    } else {
        assert(cs[i] == bs[i]);
    }
}

proof fn lemma_held_nl(s: Seq<char>, key: Seq<char>, part: Seq<char>)
    requires
        held(s, key, part),
    ensures
        held(lines::with_nl(s), key, part),
{
    if !lines::ended(s) {
        let nl = seq!['\n'];
        assert(text::blank(nl));
        assert(s.push('\n') == s + nl);
        blocks::lemma_blocks_white(s, nl);
        let bs = blocks::blocks_of(s);
        let cs = blocks::blocks_of(s + nl);
        let i = choose|i: int|
            0 <= i < bs.len() && (#[trigger] bs[i]).0 == key && text_laws::inside(bs[i].1, part);
        lemma_nl_holds(bs[i].1, part);
        assert(cs[i].0 == key);
        if i < bs.len() - 1 {
            assert(cs[i] == bs[i]);
        }
    }
}

/// A write leaves what stands in a block that is not of providers.
pub proof fn lemma_write_holds(
    s: Seq<char>,
    proxy: Seq<char>,
    models: Seq<(Seq<char>, Seq<char>)>,
    key: Seq<char>,
    part: Seq<char>,
)
    requires
        held(s, key, part),
        tight(part),
        key != provider::PROVIDERS_BLOCK@,
        provider_laws::no_nl(proxy),
        provider_laws::plain_models(models),
    ensures
        held(provider::with_provider(s, proxy, models), key, part),
{
    let u = provider::with_provider(s, proxy, models);
    let us = blocks::blocks_of(u);
    if provider_laws::has_providers(s) {
        let base = if provider_laws::hanging(s) {
            provider_laws::lemma_remove_hanging(s, proxy, models);
            s
        } else {
            provider_laws::law_write_keeps_blocks(s, proxy, models);
            lemma_held_nl(s, key, part);
            lines::with_nl(s)
        };
        let bs = blocks::blocks_of(base);
        assert(us == blocks::mapped(bs, provider::upserting(proxy, models)));
        let i = choose|i: int|
            0 <= i < bs.len() && (#[trigger] bs[i]).0 == key && text_laws::inside(bs[i].1, part);
        lemma_nl_holds(bs[i].1, part);
        assert(us[i].0 == key);
    } else {
        let other = provider::PROVIDERS_BLOCK@;
        let section = provider::section_text(proxy, models);
        provider_laws::lemma_section_text(proxy, models);
        blocks::lemma_appended(s, other, section);
        let body = text::trimmed_end(s);
        let w = text::lemma_trimmed_rest(s);
        let nn = seq!['\n', '\n'];
        assert(text::blank(nn));
        lemma_held_white(body, w, nn, key, part);
        let gap = body + nn;
        assert(body.len() > 0) by {
            if body.len() == 0 {
                assert(body + w == w);
                lemma_held_inside(s, key, part);
                lemma_nonblank(s, part);
                text::lemma_blank_trimmed(s);
            }
        }
        let ts = blocks::blocks_of(blocks::body_of(s));
        let i = choose|i: int|
            0 <= i < ts.len() && (#[trigger] ts[i]).0 == key && text_laws::inside(ts[i].1, part);
        assert(us == ts.push((other, blocks::tidied(section))));
        assert(us[i] == ts[i]);
    }
}

proof fn lemma_nonblank(s: Seq<char>, part: Seq<char>)
    requires
        text_laws::inside(s, part),
        tight(part),
    ensures
        !text::blank(s),
{
    let (a, b) = choose|a: Seq<char>, b: Seq<char>| s == #[trigger] (a + part + b);
    let i = a.len() + part.len() - 2;
    assert(s[i] == part[part.len() - 2]);
}

/// What a write makes of each block stands in the settings that it writes.
pub proof fn lemma_write_inside(
    s: Seq<char>,
    n: int,
    proxy: Seq<char>,
    models: Seq<(Seq<char>, Seq<char>)>,
)
    requires
        provider_laws::has_providers(s),
        0 <= n < blocks::blocks_of(s).len(),
    ensures
        text_laws::inside(
            provider::with_provider(s, proxy, models),
            provider::upserting(proxy, models)(blocks::blocks_of(s)[n].0, blocks::blocks_of(s)[n].1),
        ),
{
    let f = provider::upserting(proxy, models);
    let ms = blocks::mapped(blocks::blocks_of(s), f);
    lemma_render_at(ms, n);
    lemma_nl_holds(blocks::render(ms), ms[n].1);
}

/// A write leaves text behind which it adds the providers.
pub proof fn lemma_added_inside(s: Seq<char>, section: Seq<char>, part: Seq<char>)
    requires
        text_laws::inside(s, part) || text_laws::inside(section, part),
        tight(part),
    ensures
        text_laws::inside(blocks::appended(s, section), part),
{
    let body = text::trimmed_end(s);
    let w = text::lemma_trimmed_rest(s);
    let nn = seq!['\n', '\n'];
    let all = if body.len() == 0 {
        section
    } else {
        body + nn + section
    };
    assert(text_laws::inside(all, part)) by {
        if text_laws::inside(section, part) {
            text_laws::lemma_inside_more(body + nn, section, Seq::empty(), part);
        } else {
            lemma_nonblank(s, part);
            text::lemma_blank_trimmed(s);
            lemma_tight(body, w, nn, part);
            text_laws::lemma_inside_more(Seq::empty(), body + nn, section, part);
        }
    }
    lemma_tidied_holds(all, part);
}

/// What a write makes of a providers block stands in the settings.
pub proof fn lemma_write_block(
    s: Seq<char>,
    n: int,
    proxy: Seq<char>,
    models: Seq<(Seq<char>, Seq<char>)>,
)
    requires
        0 <= n < blocks::blocks_of(s).len(),
        blocks::blocks_of(s)[n].0 == provider::PROVIDERS_BLOCK@,
        n < blocks::blocks_of(s).len() - 1 || lines::ended(s),
        provider_laws::no_nl(proxy),
        provider_laws::plain_models(models),
    ensures
        held(
            provider::with_provider(s, proxy, models),
            provider::PROVIDERS_BLOCK@,
            provider::upserted_block(blocks::blocks_of(s)[n].1, proxy, models),
        ),
{
    let key = provider::PROVIDERS_BLOCK@;
    let bs = blocks::blocks_of(s);
    let u = provider::with_provider(s, proxy, models);
    let us = blocks::blocks_of(u);
    assert(provider_laws::has_providers(s));
    if provider_laws::hanging(s) {
        provider_laws::lemma_remove_hanging(s, proxy, models);
    } else {
        provider_laws::law_write_keeps_blocks(s, proxy, models);
        if !lines::ended(s) {
            assert(text::blank(seq!['\n']));
            assert(s.push('\n') == s + seq!['\n']);
            blocks::lemma_blocks_white(s, seq!['\n']);
        }
        assert(blocks::blocks_of(lines::with_nl(s))[n] == bs[n]);
    }
    let x = provider::upserted_block(bs[n].1, proxy, models);
    assert(us[n] == (key, x));
    assert(Seq::<char>::empty() + x + Seq::<char>::empty() == x);
}

/// Making the gateway the default leaves what stands in any other block.
pub proof fn lemma_default_holds(u: Seq<char>, id: Seq<char>, key: Seq<char>, part: Seq<char>)
    requires
        held(u, key, part),
        tight(part),
        key != default_model::DEFAULT_BLOCK@,
        provider_laws::no_nl(id),
    ensures
        held(default_model::with_default_model(u, id), key, part),
{
    let dkey = default_model::DEFAULT_BLOCK@;
    let new = default_model::default_text(id);
    let us = blocks::blocks_of(u);
    let d = default_model::with_default_model(u, id);
    let ds = blocks::blocks_of(d);
    default_laws::lemma_keys();
    default_laws::lemma_default_text(id);
    if default_laws::has_default(u) {
        default_laws::lemma_replacing_blocks(u, dkey, new);
        assert(ds == blocks::mapped(us, blocks::replacing(dkey, new)));
        let i = choose|i: int|
            0 <= i < us.len() && (#[trigger] us[i]).0 == key && text_laws::inside(us[i].1, part);
        lemma_nl_holds(us[i].1, part);
        assert(ds[i].0 == key);
    } else {
        let body = text::trimmed_end(u);
        let w = text::lemma_trimmed_rest(u);
        let nn = seq!['\n', '\n'];
        assert(text::blank(nn));
        lemma_held_white(body, w, nn, key, part);
        let gap = body + nn;
        assert(lines::ended(gap));
        blocks::lemma_blocks_add(gap, dkey, new);
        let ts = blocks::blocks_of(gap);
        let i = choose|i: int|
            0 <= i < ts.len() && (#[trigger] ts[i]).0 == key && text_laws::inside(ts[i].1, part);
        assert(ds == ts.push((dkey, new)));
        assert(ds[i] == ts[i]);
    }
}

/// A removal leaves what it leaves of a block in the settings.
proof fn lemma_removal_block(s: Seq<char>, i: int, key: Seq<char>, part: Seq<char>)
    requires
        provider_laws::has_providers(s),
        tight(part),
        0 <= i < blocks::blocks_of(lines::with_nl(s)).len(),
        blocks::blocks_of(lines::with_nl(s))[i].0 == key,
        text_laws::inside(
            provider::removing()(key, blocks::blocks_of(lines::with_nl(s))[i].1),
            part,
        ),
    ensures
        held(provider::without_provider(s), key, part),
{
    let t = lines::with_nl(s);
    let bs = blocks::blocks_of(t);
    let ms = blocks::mapped(bs, provider::removing());
    let f = |k: Seq<char>, t: Seq<char>| t;
    let nl = seq!['\n'];
    provider_laws::lemma_settings_nl(s, Seq::empty(), Seq::empty());
    provider_laws::lemma_has_providers_nl(s);
    setup_laws::lemma_removing_blocks(t);
    setup_laws::lemma_drop_empty(ms, f);
    assert(ms[i].1 == provider::removing()(key, bs[i].1));
    assert(ms[i].1.len() > 0) by {
        lemma_nonblank(ms[i].1, part);
    }
    let m = setup_laws::lemma_drop_empty_keeps(ms, i);
    let ns = setup_laws::drop_empty(ms);
    let x = blocks::render(ms);
    blocks::lemma_blocks_of_render(ns);
    let u = text::trimmed_end(x);
    let w = text::lemma_trimmed_rest(x);
    let e = provider::without_provider(s);
    assert(e == u + nl);
    assert(text::blank(nl));
    assert(u + w == x);
    assert(blocks::blocks_of(u + w)[m].0 == key);
    lemma_held_white(u, w, nl, key, part);
}

/// A removal leaves what stands in a block that is not of providers.
pub proof fn lemma_removal_holds(s: Seq<char>, key: Seq<char>, part: Seq<char>)
    requires
        held(s, key, part),
        tight(part),
        key != provider::PROVIDERS_BLOCK@,
    ensures
        held(provider::without_provider(s), key, part),
{
    lemma_held_nl(s, key, part);
    let bs = blocks::blocks_of(lines::with_nl(s));
    if provider_laws::has_providers(s) {
        let i = choose|i: int|
            0 <= i < bs.len() && (#[trigger] bs[i]).0 == key && text_laws::inside(bs[i].1, part);
        lemma_nl_holds(bs[i].1, part);
        lemma_removal_block(s, i, key, part);
    }
}

/// What a removal leaves of a providers block stands in the settings.
pub proof fn lemma_removal_entries(s: Seq<char>, n: int, part: Seq<char>)
    requires
        0 <= n < blocks::blocks_of(s).len(),
        blocks::blocks_of(s)[n].0 == provider::PROVIDERS_BLOCK@,
        n < blocks::blocks_of(s).len() - 1 || lines::ended(s),
        text_laws::inside(provider::removed_block(blocks::blocks_of(s)[n].1), part),
        tight(part),
    ensures
        held(provider::without_provider(s), provider::PROVIDERS_BLOCK@, part),
{
    let key = provider::PROVIDERS_BLOCK@;
    let bs = blocks::blocks_of(s);
    assert(provider_laws::has_providers(s));
    if !lines::ended(s) {
        assert(text::blank(seq!['\n']));
        assert(s.push('\n') == s + seq!['\n']);
        blocks::lemma_blocks_white(s, seq!['\n']);
    }
    assert(blocks::blocks_of(lines::with_nl(s))[n] == bs[n]);
    lemma_nl_holds(provider::removed_block(bs[n].1), part);
    lemma_removal_block(s, n, key, part);
}

/// Putting the default model back leaves what stands in any other block.
pub proof fn lemma_restore_holds(
    saved: Option<Seq<char>>,
    e: Seq<char>,
    key: Seq<char>,
    part: Seq<char>,
)
    requires
        held(e, key, part),
        tight(part),
        key != default_model::DEFAULT_BLOCK@,
    ensures
        text_laws::inside(default_model::restored(saved, e), part),
{
    let dkey = default_model::DEFAULT_BLOCK@;
    let bs = blocks::blocks_of(e);
    let i = choose|i: int|
        0 <= i < bs.len() && (#[trigger] bs[i]).0 == key && text_laws::inside(bs[i].1, part);
    lemma_held_inside(e, key, part);
    lemma_nonblank(e, part);
    lemma_nl_holds(e, part);
    lemma_nl_holds(bs[i].1, part);
    if default_model::current_provider(e) == Some(provider::PROVIDER_ID@) {
        default_model::lemma_block_at(bs, dkey);
        assert(blocks::has_block(bs, dkey)) by {
            if !blocks::has_block(bs, dkey) {
                assert(default_model::saved_default(e).len() == 0);
                assert(lines::lines_of(default_model::saved_default(e)).len() == 0);
            }
        }
        match saved {
            Some(b) => {
                let new = if text::blank(b) {
                    Seq::empty()
                } else {
                    b
                };
                let ms = blocks::mapped(bs, blocks::replacing(dkey, new));
                let x = blocks::render(ms);
                assert(ms[i].1 == lines::with_nl(bs[i].1));
                lemma_render_at(ms, i);
                text_laws::lemma_inside_chain(x, ms[i].1, part);
                lemma_nl_holds(x, part);
                lemma_tidied_holds(x, part);
            },
            None => {
                let ms = blocks::mapped(bs, default_model::clearing());
                let x = blocks::render(ms);
                assert(ms[i].1 == lines::with_nl(bs[i].1));
                lemma_render_at(ms, i);
                text_laws::lemma_inside_chain(x, ms[i].1, part);
                lemma_nl_holds(x, part);
            },
        }
    }
}

} // verus!
