//! That the gateway's entry stands in the settings once, however often it is written.

use vstd::prelude::*;

use crate::blocks;
use crate::default_laws;
use crate::default_model;
use crate::entry_count;
use crate::lines;
use crate::provider;
use crate::provider_laws;
use crate::setup_laws;
use crate::text;

verus! {

proof fn lemma_count_last(a: Seq<Seq<char>>, l: Seq<char>, m: Seq<char>)
    requires
        blocks::child_key(l) == blocks::child_key(m),
    ensures
        entry_count::line_count(a.push(l)) == entry_count::line_count(a.push(m)),
{
    assert(a.push(l) == a + seq![l]);
    assert(a.push(m) == a + seq![m]);
    entry_count::lemma_count_add(a, seq![l]);
    entry_count::lemma_count_add(a, seq![m]);
    entry_count::lemma_count_one(l);
    entry_count::lemma_count_one(m);
    entry_count::lemma_provider_line(l);
    entry_count::lemma_provider_line(m);
}

proof fn lemma_count_none(a: Seq<Seq<char>>, m: Seq<char>)
    requires
        blocks::child_key(m) is None,
    ensures
        entry_count::line_count(a.push(m)) == entry_count::line_count(a),
{
    assert(a.push(m) == a + seq![m]);
    entry_count::lemma_count_add(a, seq![m]);
    entry_count::lemma_count_one(m);
    entry_count::lemma_provider_line(m);
}

proof fn lemma_outside_push(t: Seq<char>, c: char)
    requires
        text::white(c),
    ensures
        entry_count::outside_count(t.push(c)) == entry_count::outside_count(t),
{
    let ls = lines::lines_of(t);
    let ms = lines::lines_of(t.push(c));
    lines::lemma_lines_of(t);
    lines::lemma_lines_push(t, c);
    provider::lemma_providers_at(ls);
    provider::lemma_providers_at(ms);
    let p = provider::providers_at(ls);
    let x = provider::after_entries(ls);
    let y = provider::after_entries(ms);
    if lines::ended(t) {
        let m = seq![c];
        setup_laws::lemma_white_line(c);
        setup_laws::lemma_removed_line(ls, m);
        lemma_count_none(x, m);
    } else {
        let init = ls.drop_last();
        let l = ls.last();
        let m = l.push(c);
        assert(ls == init.push(l));
        assert(ms == init.push(m));
        assert(lines::one_line(ls[ls.len() - 1]));
        setup_laws::lemma_line_white(l, c);
        setup_laws::lemma_removed_last(init, l, c);
        if p < ls.len() {
            if p == init.len() {
                assert(provider::before_entries(ls) == init.push(l));
                assert(provider::before_entries(ms) == init.push(m));
                lemma_count_last(init, l, m);
            } else {
                assert(provider::before_entries(ls) == provider::before_entries(ms));
            }
            if y != x {
                assert(x == x.drop_last().push(l));
                lemma_count_last(x.drop_last(), l, m);
            }
        }
    }
}

/// White space at the end of a block makes no difference to the lines outside its entries.
proof fn lemma_outside_white(t: Seq<char>, w: Seq<char>)
    requires
        text::blank(w),
    ensures
        entry_count::outside_count(t + w) == entry_count::outside_count(t),
    decreases w.len(),
{
    if w.len() == 0 {
        assert(t + w == t);
    } else {
        let v = w.drop_last();
        assert forall|i: int| 0 <= i < v.len() implies text::white(#[trigger] v[i]) by {
            assert(v[i] == w[i]);
        }
        assert(text::white(w[w.len() - 1]));
        lemma_outside_white(t, v);
        assert((t + v).push(w.last()) == t + w);
        lemma_outside_push(t + v, w.last());
    }
}

/// The number of lines of a block that open the gateway's entry and that a write does not
/// replace.
pub open spec fn strays(key: Seq<char>, t: Seq<char>) -> nat {
    if key == provider::PROVIDERS_BLOCK@ {
        entry_count::outside_count(t)
    } else {
        entry_count::entry_count(t)
    }
}

/// The gateway's entry has one place at most: there is no second providers block, and no
/// line outside the entries of that block opens it.
pub open spec fn one_place(s: Seq<char>) -> bool {
    let bs = blocks::blocks_of(s);
    &&& lines::ended(s)
    &&& default_laws::at_most_one(bs, provider::PROVIDERS_BLOCK@)
    &&& forall|i: int| 0 <= i < bs.len() ==> strays((#[trigger] bs[i]).0, bs[i].1) == 0
}

/// The gateway's entry stands in its place, once.
pub open spec fn in_place(s: Seq<char>) -> bool {
    let bs = blocks::blocks_of(s);
    &&& one_place(s)
    &&& provider_laws::has_providers(s)
    &&& forall|i: int|
        0 <= i < bs.len() && (#[trigger] bs[i]).0 == provider::PROVIDERS_BLOCK@
            ==> entry_count::entry_count(bs[i].1) == 1
}

proof fn lemma_strays_white(key: Seq<char>, t: Seq<char>, w: Seq<char>)
    requires
        text::blank(w),
    ensures
        strays(key, t + w) == strays(key, t),
        entry_count::entry_count(t + w) == entry_count::entry_count(t),
{
    lemma_outside_white(t, w);
    entry_count::lemma_count_white(t, w);
}

/// A sum of which one part is 1 and the others are 0.
proof fn lemma_sum_one(
    bs: Seq<(Seq<char>, Seq<char>)>,
    f: spec_fn(Seq<char>, Seq<char>) -> nat,
    n: int,
)
    requires
        n < bs.len(),
        forall|i: int|
            0 <= i < bs.len() ==> f((#[trigger] bs[i]).0, bs[i].1) == (if i == n {
                1nat
            } else {
                0nat
            }),
    ensures
        entry_count::block_sum(bs, f) == (if n >= 0 {
            1nat
        } else {
            0nat
        }),
    decreases bs.len(),
{
    if bs.len() > 0 {
        let init = bs.drop_last();
        let z = bs.len() - 1;
        assert(f(bs[z].0, bs[z].1) == (if z == n {
            1nat
        } else {
            0nat
        }));
        let m = if n == z {
            -1
        } else {
            n
        };
        assert forall|i: int| 0 <= i < init.len() implies f((#[trigger] init[i]).0, init[i].1)
            == (if i == m {
            1nat
        } else {
            0nat
        }) by {
            assert(init[i] == bs[i]);
        }
        lemma_sum_one(init, f, m);
    }
}

/// Where the entry stands in its place, one line opens it.
pub proof fn lemma_in_place(s: Seq<char>)
    requires
        in_place(s),
    ensures
        entry_count::entry_count(s) == 1,
{
    let key = provider::PROVIDERS_BLOCK@;
    let bs = blocks::blocks_of(s);
    let count = |k: Seq<char>, t: Seq<char>| entry_count::entry_count(t);
    blocks::lemma_blocks_of(s);
    entry_count::lemma_head_count(s);
    entry_count::lemma_count_render(bs);
    let n = choose|i: int| 0 <= i < bs.len() && (#[trigger] bs[i]).0 == key;
    assert forall|i: int| 0 <= i < bs.len() implies count((#[trigger] bs[i]).0, bs[i].1) == (
    if i == n {
        1nat
    } else {
        0nat
    }) by {
        assert(strays(bs[i].0, bs[i].1) == 0);
        assert(bs[n].0 == key);
    }
    lemma_sum_one(bs, count, n);
}

/// Settings that do not open the entry, with one providers block at most, have one place for
/// it at most.
pub proof fn lemma_one_place(settings: Seq<char>)
    requires
        !provider::provider_in(settings),
        default_laws::at_most_one(blocks::blocks_of(settings), provider::PROVIDERS_BLOCK@),
    ensures
        one_place(lines::with_nl(settings)),
{
    let key = provider::PROVIDERS_BLOCK@;
    let s = lines::with_nl(settings);
    let cs = blocks::blocks_of(settings);
    let bs = blocks::blocks_of(s);
    let count = |k: Seq<char>, t: Seq<char>| entry_count::entry_count(t);
    entry_count::lemma_provider_in(settings);
    entry_count::lemma_count_tidied(settings);
    blocks::lemma_blocks_of(s);
    entry_count::lemma_head_count(s);
    entry_count::lemma_count_render(bs);
    assert forall|i: int| 0 <= i < bs.len() implies strays((#[trigger] bs[i]).0, bs[i].1) == 0 by {
        entry_count::lemma_sum_at_least(bs, count, i);
        assert(lines::ended(bs[i].1));
        entry_count::lemma_outside_le(bs[i].1);
    }
    if !lines::ended(settings) {
        assert(settings.push('\n') == settings + seq!['\n']);
        assert(text::blank(seq!['\n']));
        blocks::lemma_blocks_white(settings, seq!['\n']);
    }
    assert(bs.len() == cs.len());
    assert forall|i: int, j: int|
        0 <= i < bs.len() && 0 <= j < bs.len() && (#[trigger] bs[i]).0 == key && (
        #[trigger] bs[j]).0 == key implies i == j by {
        assert(cs[i].0 == key);
        assert(cs[j].0 == key);
    }
}

/// A write leaves alone the lines of a block outside its entries, of which none opens the
/// entry where the block is new.
proof fn lemma_upserted_outside(
    t: Seq<char>,
    proxy: Seq<char>,
    models: Seq<(Seq<char>, Seq<char>)>,
)
    requires
        provider_laws::providers_block(t),
        provider_laws::no_nl(proxy),
        provider_laws::plain_models(models),
    ensures
        entry_count::outside_count(provider::upserted_block(t, proxy, models))
            == entry_count::outside_count(t),
{
    let ls = lines::lines_of(t);
    let entry = provider::provider_lines(proxy, models);
    provider_laws::lemma_provider_lines(proxy, models);
    provider_laws::lemma_upserted_block(t, proxy, models);
    if provider::providers_at(ls) < ls.len() {
        provider_laws::lemma_entry_in_place(ls, entry);
    } else {
        lemma_section_outside(entry);
    }
}

proof fn lemma_section_outside(entry: Seq<Seq<char>>)
    requires
        provider_laws::entry_lines(entry),
    ensures
        ({
            let all = provider_laws::section_lines(entry);
            &&& provider::providers_at(all) < all.len()
            &&& entry_count::line_count(provider::before_entries(all)) == 0
            &&& entry_count::line_count(provider::after_entries(all)) == 0
        }),
{
    let all = provider_laws::section_lines(entry);
    provider_laws::lemma_section_lines(entry);
    let a = all[0];
    let b = all[1];
    reveal_strlit("llm-pi-ai:");
    reveal_strlit("  providers:");
    reveal_strlit("    ais-codex:");
    assert(all.take(2) == seq![a] + seq![b]);
    entry_count::lemma_count_add(seq![a], seq![b]);
    entry_count::lemma_count_one(a);
    entry_count::lemma_count_one(b);
    assert(a[0] == 'l');
    assert(b[2] == 'p');
    if provider::is_provider_line(a) {
        assert("    ais-codex:"@[0] == a.subrange(0, 14)[0]);
    }
    if provider::is_provider_line(b) {
        assert("    ais-codex:"@[2] == b.subrange(0, 14)[2]);
    }
}

/// A write puts the entry in its place.
pub proof fn lemma_written_in_place(
    s: Seq<char>,
    proxy: Seq<char>,
    models: Seq<(Seq<char>, Seq<char>)>,
)
    requires
        one_place(s),
        provider_laws::no_nl(proxy),
        provider_laws::plain_models(models),
    ensures
        in_place(provider::with_provider(s, proxy, models)),
{
    let key = provider::PROVIDERS_BLOCK@;
    let u = provider::with_provider(s, proxy, models);
    let bs = blocks::blocks_of(s);
    let us = blocks::blocks_of(u);
    default_laws::lemma_keys();
    if provider_laws::has_providers(s) {
        blocks::lemma_blocks_of(s);
        provider_laws::law_write_keeps_blocks(s, proxy, models);
        let at = choose|i: int| 0 <= i < bs.len() && (#[trigger] bs[i]).0 == key;
        assert(us[at].0 == key);
        assert forall|i: int| 0 <= i < us.len() implies strays((#[trigger] us[i]).0, us[i].1) == 0
            && (us[i].0 == key ==> entry_count::entry_count(us[i].1) == 1) by {
            assert(strays(bs[i].0, bs[i].1) == 0);
            assert(lines::ended(bs[i].1));
            if bs[i].0 == key {
                assert(provider_laws::providers_block(bs[i].1));
                lemma_upserted_outside(bs[i].1, proxy, models);
                entry_count::lemma_upserted_count(bs[i].1, proxy, models);
            }
        }
        assert forall|i: int, j: int|
            0 <= i < us.len() && 0 <= j < us.len() && (#[trigger] us[i]).0 == key && (
            #[trigger] us[j]).0 == key implies i == j by {
            assert(bs[i].0 == key);
            assert(bs[j].0 == key);
        }
    } else {
        lemma_appended_in_place(s, proxy, models);
    }
}

proof fn lemma_appended_in_place(
    s: Seq<char>,
    proxy: Seq<char>,
    models: Seq<(Seq<char>, Seq<char>)>,
)
    requires
        one_place(s),
        !provider_laws::has_providers(s),
        provider_laws::no_nl(proxy),
        provider_laws::plain_models(models),
    ensures
        in_place(provider::with_provider(s, proxy, models)),
{
    let key = provider::PROVIDERS_BLOCK@;
    let u = provider::with_provider(s, proxy, models);
    let bs = blocks::blocks_of(s);
    let us = blocks::blocks_of(u);
    let k = provider::section_text(proxy, models);
    let entry = provider::provider_lines(proxy, models);
    provider_laws::lemma_section_text(proxy, models);
    provider_laws::lemma_provider_lines(proxy, models);
    provider_laws::lemma_section_lines(entry);
    lines::lemma_lines_of_joined(provider_laws::section_lines(entry));
    lemma_section_outside(entry);
    entry_count::lemma_section_count(entry);
    blocks::lemma_appended(s, key, k);
    let ts = blocks::blocks_of(blocks::body_of(s));
    let z = ts.len() as int;
    assert(us == ts.push((key, blocks::tidied(k))));
    let nl = seq!['\n'];
    let kb = text::trimmed_end(k);
    let kw = text::lemma_trimmed_rest(k);
    assert(text::blank(nl));
    assert(blocks::tidied(k) == kb + nl);
    lemma_strays_white(key, kb, kw);
    lemma_strays_white(key, kb, nl);
    assert(us[z].0 == key);
    let body = text::trimmed_end(s);
    let w = text::lemma_trimmed_rest(s);
    let nn = seq!['\n', '\n'];
    assert(text::blank(nn));
    blocks::lemma_blocks_white(body, w);
    blocks::lemma_blocks_white(body, nn);
    let bb = blocks::blocks_of(body);
    assert(bs.len() == bb.len());
    assert(ts.len() == bb.len());
    assert forall|i: int| 0 <= i < z implies strays((#[trigger] us[i]).0, us[i].1) == 0
        && us[i].0 != key by {
        assert(us[i] == ts[i]);
        assert(ts[i].0 == bs[i].0);
        assert(strays(bs[i].0, bs[i].1) == 0);
        if i == bb.len() - 1 {
            lemma_strays_white(bb[i].0, bb[i].1, w);
            lemma_strays_white(bb[i].0, bb[i].1, nn);
        }
    }
}

/// No line of the default-model block opens the gateway's entry.
proof fn lemma_default_count(id: Seq<char>)
    requires
        provider_laws::no_nl(id),
    ensures
        entry_count::entry_count(default_model::default_text(id)) == 0,
{
    let a = provider::line_text("agent-default-model:"@, ""@);
    let b = provider::line_text("  provider: "@, "ais-codex"@);
    let c = provider::line_text("  model: "@, id);
    let d = provider::line_text("  reasoningEffort: "@, "high"@);
    reveal_strlit("agent-default-model:");
    reveal_strlit("");
    reveal_strlit("  provider: ");
    reveal_strlit("ais-codex");
    reveal_strlit("  model: ");
    reveal_strlit("  reasoningEffort: ");
    reveal_strlit("high");
    reveal_strlit("    ais-codex:");
    provider_laws::lemma_line_text("agent-default-model:"@, ""@);
    provider_laws::lemma_line_text("  provider: "@, "ais-codex"@);
    provider_laws::lemma_line_text("  model: "@, id);
    provider_laws::lemma_line_text("  reasoningEffort: "@, "high"@);
    assert(a[2] == 'e' && b[2] == 'p' && c[2] == 'm' && d[2] == 'r');
    lemma_line_count(a);
    lemma_line_count(b);
    lemma_line_count(c);
    lemma_line_count(d);
    entry_count::lemma_count_texts(a, b);
    entry_count::lemma_count_texts(a + b, c);
    entry_count::lemma_count_texts(a + b + c, d);
}

proof fn lemma_line_count(l: Seq<char>)
    requires
        lines::one_line(l),
        l.len() > 2,
        l[2] != ' ',
    ensures
        entry_count::entry_count(l) == 0,
{
    reveal_strlit("    ais-codex:");
    assert(lines::good_lines(seq![l]));
    lines::lemma_joined_one(l);
    lines::lemma_lines_of_joined(seq![l]);
    entry_count::lemma_count_one(l);
    if provider::is_provider_line(l) {
        assert("    ais-codex:"@[2] == l.subrange(0, 14)[2]);
    }
}

/// Making the gateway the default leaves the entry in its place.
pub proof fn lemma_default_in_place(s: Seq<char>, id: Seq<char>)
    requires
        in_place(s),
        provider_laws::no_nl(id),
    ensures
        in_place(default_model::with_default_model(s, id)),
{
    let key = default_model::DEFAULT_BLOCK@;
    let other = provider::PROVIDERS_BLOCK@;
    let new = default_model::default_text(id);
    let bs = blocks::blocks_of(s);
    let d = default_model::with_default_model(s, id);
    let ds = blocks::blocks_of(d);
    default_laws::lemma_keys();
    default_laws::lemma_default_text(id);
    lemma_default_count(id);
    blocks::lemma_blocks_of(s);
    let at = choose|i: int| 0 <= i < bs.len() && (#[trigger] bs[i]).0 == other;
    if default_laws::has_default(s) {
        default_laws::lemma_replacing_blocks(s, key, new);
        assert(ds == blocks::mapped(bs, blocks::replacing(key, new)));
        assert(ds[at].0 == other);
        assert forall|i: int| 0 <= i < ds.len() implies strays((#[trigger] ds[i]).0, ds[i].1) == 0
            && (ds[i].0 == other ==> entry_count::entry_count(ds[i].1) == 1 && bs[i].0 == other) by {
            assert(strays(bs[i].0, bs[i].1) == 0);
            assert(lines::ended(bs[i].1));
        }
    } else {
        let body = text::trimmed_end(s);
        let w = text::lemma_trimmed_rest(s);
        let nn = seq!['\n', '\n'];
        let gap = body + nn;
        assert(text::blank(nn));
        assert(lines::ended(gap));
        blocks::lemma_blocks_add(gap, key, new);
        blocks::lemma_blocks_white(body, nn);
        blocks::lemma_blocks_white(body, w);
        let bb = blocks::blocks_of(body);
        let ts = blocks::blocks_of(gap);
        assert(ds == ts.push((key, new)));
        assert(bs.len() == bb.len());
        assert(ts.len() == bb.len());
        assert(ds[at] == ts[at]);
        assert(ts[at].0 == bs[at].0);
        assert(d.last() == new.last());
        assert forall|i: int| 0 <= i < ds.len() implies strays((#[trigger] ds[i]).0, ds[i].1) == 0
            && (ds[i].0 == other ==> entry_count::entry_count(ds[i].1) == 1 && i < bs.len()
            && bs[i].0 == other) by {
            if i < ts.len() {
                assert(ds[i] == ts[i]);
                assert(ts[i].0 == bs[i].0);
                assert(strays(bs[i].0, bs[i].1) == 0);
                if i == bb.len() - 1 {
                    lemma_strays_white(bb[i].0, bb[i].1, w);
                    lemma_strays_white(bb[i].0, bb[i].1, nn);
                }
            }
        }
    }
    assert(provider_laws::has_providers(d));
    assert forall|i: int, j: int|
        0 <= i < ds.len() && 0 <= j < ds.len() && (#[trigger] ds[i]).0 == other && (
        #[trigger] ds[j]).0 == other implies i == j by {
        assert(strays(ds[i].0, ds[i].1) == 0);
        assert(strays(ds[j].0, ds[j].1) == 0);
        assert(bs[i].0 == other);
        assert(bs[j].0 == other);
    }
}

} // verus!
