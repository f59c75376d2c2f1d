//! How many lines of the settings open the gateway's entry, before and after a write or
//! a removal.

use vstd::prelude::*;

use crate::blocks;
use crate::lines;
use crate::provider;
use crate::provider_laws;
use crate::text;

verus! {

/// The number of lines that open the gateway's entry.
pub open spec fn line_count(ls: Seq<Seq<char>>) -> nat
    decreases ls.len(),
{
    if ls.len() == 0 {
        0
    } else {
        line_count(ls.skip(1)) + (if provider::is_provider_line(ls[0]) {
            1nat
        } else {
            0nat
        })
    }
}

/// The number of lines of a text that open the gateway's entry.
pub open spec fn entry_count(s: Seq<char>) -> nat {
    line_count(lines::lines_of(s))
}

/// The sum of `f(key, text)` over some blocks.
pub open spec fn block_sum(
    bs: Seq<(Seq<char>, Seq<char>)>,
    f: spec_fn(Seq<char>, Seq<char>) -> nat,
) -> nat
    decreases bs.len(),
{
    if bs.len() == 0 {
        0
    } else {
        block_sum(bs.drop_last(), f) + f(bs.last().0, bs.last().1)
    }
}

/// The number of lines of a providers block, outside its entries, that open the gateway's
/// entry.
pub open spec fn outside_count(block: Seq<char>) -> nat {
    let ls = lines::lines_of(block);
    if provider::providers_at(ls) < ls.len() {
        line_count(provider::before_entries(ls)) + line_count(provider::after_entries(ls))
    } else {
        0
    }
}

/// What a block adds to the count once the entry is written.
pub open spec fn written_count() -> spec_fn(Seq<char>, Seq<char>) -> nat {
    |k: Seq<char>, t: Seq<char>|
        if k == provider::PROVIDERS_BLOCK@ {
            outside_count(t) + 1
        } else {
            entry_count(t)
        }
}

/// What a block adds to the count once the entry is removed.
pub open spec fn left_count() -> spec_fn(Seq<char>, Seq<char>) -> nat {
    |k: Seq<char>, t: Seq<char>|
        if k != provider::PROVIDERS_BLOCK@ {
            entry_count(t)
        } else if provider::removed_block(t).len() > 0 {
            outside_count(t)
        } else {
            0
        }
}

pub proof fn lemma_count_add(a: Seq<Seq<char>>, b: Seq<Seq<char>>)
    ensures
        line_count(a + b) == line_count(a) + line_count(b),
    decreases a.len(),
{
    if a.len() == 0 {
        assert(a + b == b);
    } else {
        assert((a + b).skip(1) == a.skip(1) + b);
        lemma_count_add(a.skip(1), b);
    }
}

pub proof fn lemma_count_one(l: Seq<char>)
    ensures
        line_count(seq![l]) == (if provider::is_provider_line(l) {
            1nat
        } else {
            0nat
        }),
{
    assert(seq![l].skip(1).len() == 0);
    assert(line_count(seq![l].skip(1)) == 0);
}

/// Some line opens the entry exactly where the count is not zero.
pub proof fn lemma_provider_in(s: Seq<char>)
    ensures
        provider::provider_in(s) == (entry_count(s) > 0),
{
    lemma_count_zero(lines::lines_of(s));
}

proof fn lemma_count_zero(ls: Seq<Seq<char>>)
    ensures
        (line_count(ls) == 0) == (forall|i: int|
            0 <= i < ls.len() ==> !provider::is_provider_line(#[trigger] ls[i])),
    decreases ls.len(),
{
    if ls.len() > 0 {
        let rest = ls.skip(1);
        lemma_count_zero(rest);
        if line_count(ls) == 0 {
            assert forall|i: int| 0 <= i < ls.len() implies !provider::is_provider_line(
                #[trigger] ls[i],
            ) by {
                if i > 0 {
                    assert(ls[i] == rest[i - 1]);
                }
            }
        }
        if forall|i: int| 0 <= i < ls.len() ==> !provider::is_provider_line(#[trigger] ls[i]) {
            assert forall|i: int| 0 <= i < rest.len() implies !provider::is_provider_line(
                #[trigger] rest[i],
            ) by {
                assert(rest[i] == ls[i + 1]);
            }
            assert(!provider::is_provider_line(ls[0]));
        }
    }
}

/// A line opens the gateway's entry exactly where its key is the entry's.
pub proof fn lemma_provider_line(l: Seq<char>)
    ensures
        provider::is_provider_line(l) == (blocks::child_key(l) == Some(provider::PROVIDER_ID@)),
{
    reveal_strlit("    ais-codex:");
    reveal_strlit("ais-codex");
    let p = "    ais-codex:"@;
    let id = provider::PROVIDER_ID@;
    assert(p.len() == 14 && id.len() == 9);
    if provider::is_provider_line(l) {
        assert forall|i: int| 0 <= i < 14 implies l[i] == p[i] by {
            assert(p[i] == l.subrange(0, 14)[i]);
        }
        let m = l.skip(4);
        text::lemma_cut_unique(m, ':', 9);
        assert(m.take(9) =~= id);
        assert(blocks::key_text(id));
    }
    if blocks::child_key(l) == Some(id) {
        let m = l.skip(4);
        text::lemma_cut(m, ':');
        assert(text::cut(m, ':') == 9);
        assert forall|i: int| 0 <= i < 14 implies l[i] == p[i] by {
            if i >= 4 {
                assert(l[i] == m[i - 4]);
                if i < 13 {
                    assert(m[i - 4] == m.take(9)[i - 4]);
                    assert(id[i - 4] == p[i]);
                }
            }
        }
        assert(l.subrange(0, 14) =~= p);
    }
}

proof fn lemma_count_push(s: Seq<char>, c: char)
    requires
        text::white(c),
    ensures
        entry_count(s.push(c)) == entry_count(s),
{
    let ls = lines::lines_of(s);
    lines::lemma_lines_of(s);
    lines::lemma_lines_push(s, c);
    reveal_strlit("    ais-codex:");
    if lines::ended(s) {
        assert(ls.push(seq![c]) == ls + seq![seq![c]]);
        lemma_count_add(ls, seq![seq![c]]);
        lemma_count_one(seq![c]);
    } else {
        let init = ls.drop_last();
        let l = ls.last();
        let m = l.push(c);
        assert(ls == init + seq![l]);
        assert(init.push(m) == init + seq![m]);
        lemma_count_add(init, seq![l]);
        lemma_count_add(init, seq![m]);
        lemma_count_one(l);
        lemma_count_one(m);
        let p = "    ais-codex:"@;
        if provider::is_provider_line(l) {
            assert(m.subrange(0, 14) =~= l.subrange(0, 14));
        }
        if provider::is_provider_line(m) {
            assert(p[13] == m.subrange(0, 14)[13]);
            assert(m.subrange(0, 14) =~= l.subrange(0, 14));
        }
    }
}

/// White chars at the end of a text make no difference to the count.
pub proof fn lemma_count_white(s: Seq<char>, w: Seq<char>)
    requires
        text::blank(w),
    ensures
        entry_count(s + w) == entry_count(s),
    decreases w.len(),
{
    if w.len() == 0 {
        assert(s + w == s);
    } else {
        let v = w.drop_last();
        assert forall|i: int| 0 <= i < v.len() implies text::white(#[trigger] v[i]) by {
            assert(v[i] == w[i]);
        }
        assert(text::white(w[w.len() - 1]));
        lemma_count_white(s, v);
        assert((s + v).push(w.last()) == s + w);
        lemma_count_push(s + v, w.last());
    }
}

pub proof fn lemma_count_tidied(s: Seq<char>)
    ensures
        entry_count(blocks::tidied(s)) == entry_count(s),
        entry_count(lines::with_nl(s)) == entry_count(s),
{
    let w = text::lemma_trimmed_rest(s);
    lemma_count_white(text::trimmed_end(s), w);
    lemma_count_white(text::trimmed_end(s), seq!['\n']);
    assert(blocks::tidied(s) == text::trimmed_end(s) + seq!['\n']);
    lemma_count_white(s, seq!['\n']);
    assert(s.push('\n') == s + seq!['\n']);
}

pub proof fn lemma_count_texts(a: Seq<char>, b: Seq<char>)
    requires
        lines::ended(a),
    ensures
        entry_count(a + b) == entry_count(a) + entry_count(b),
{
    lines::lemma_lines_add(a, b);
    lemma_count_add(lines::lines_of(a), lines::lines_of(b));
}

/// The count over blocks that end in newlines is the sum of the blocks' counts.
pub proof fn lemma_count_render(bs: Seq<(Seq<char>, Seq<char>)>)
    requires
        forall|i: int| 0 <= i < bs.len() ==> lines::ended((#[trigger] bs[i]).1),
    ensures
        entry_count(blocks::render(bs)) == block_sum(
            bs,
            |k: Seq<char>, t: Seq<char>| entry_count(t),
        ),
    decreases bs.len(),
{
    if bs.len() == 0 {
        assert(bs.map_values(|b: (Seq<char>, Seq<char>)| b.1).len() == 0);
    } else {
        let init = bs.drop_last();
        let last = bs[bs.len() - 1];
        assert(bs == init + seq![last]);
        assert forall|i: int| 0 <= i < init.len() implies lines::ended((#[trigger] init[i]).1) by {
            assert(init[i] == bs[i]);
        }
        lemma_count_render(init);
        blocks::lemma_render_ended(init);
        blocks::lemma_render_add(init, seq![last]);
        blocks::lemma_render_one(last);
        lemma_count_texts(blocks::render(init), last.1);
    }
}

/// Sums over blocks agree where they agree block by block.
proof fn lemma_sum_mapped(
    bs: Seq<(Seq<char>, Seq<char>)>,
    f: spec_fn(Seq<char>, Seq<char>) -> Seq<char>,
    a: spec_fn(Seq<char>, Seq<char>) -> nat,
    b: spec_fn(Seq<char>, Seq<char>) -> nat,
)
    requires
        forall|i: int|
            0 <= i < bs.len() ==> a((#[trigger] bs[i]).0, f(bs[i].0, bs[i].1)) == b(
                bs[i].0,
                bs[i].1,
            ),
    ensures
        block_sum(blocks::mapped(bs, f), a) == block_sum(bs, b),
    decreases bs.len(),
{
    if bs.len() > 0 {
        let init = bs.drop_last();
        let last = bs[bs.len() - 1];
        assert forall|i: int| 0 <= i < init.len() implies a(
            (#[trigger] init[i]).0,
            f(init[i].0, init[i].1),
        ) == b(init[i].0, init[i].1) by {
            assert(init[i] == bs[i]);
        }
        lemma_sum_mapped(init, f, a, b);
        assert(blocks::mapped(bs, f).drop_last() == blocks::mapped(init, f));
    }
}

proof fn lemma_kept_count(ls: Seq<Seq<char>>, owner: Option<Seq<char>>)
    ensures
        line_count(provider::kept(ls, owner)) == 0,
    decreases ls.len(),
{
    if ls.len() > 0 {
        let o = provider::owner_of(ls[0], owner);
        lemma_kept_count(ls.skip(1), o);
        lemma_provider_line(ls[0]);
        if provider::other_entry(o) {
            let rest = provider::kept(ls.skip(1), o);
            assert((seq![ls[0]] + rest).skip(1) == rest);
        }
    }
}

proof fn lemma_entry_line_count(entry: Seq<Seq<char>>)
    requires
        provider_laws::entry_lines(entry),
    ensures
        line_count(entry) == 1,
{
    let rest = entry.skip(1);
    lemma_provider_line(entry[0]);
    assert forall|i: int| 0 <= i < rest.len() implies !provider::is_provider_line(
        #[trigger] rest[i],
    ) by {
        assert(rest[i] == entry[i + 1]);
        lemma_provider_line(rest[i]);
    }
    lemma_count_zero(rest);
}

pub proof fn lemma_section_count(entry: Seq<Seq<char>>)
    requires
        provider_laws::entry_lines(entry),
    ensures
        line_count(provider_laws::section_lines(entry)) == 1,
{
    let a = provider::line_text("llm-pi-ai:"@, ""@);
    let b = provider::line_text("  providers:"@, ""@);
    reveal_strlit("llm-pi-ai:");
    reveal_strlit("  providers:");
    reveal_strlit("    ais-codex:");
    lemma_count_add(seq![a, b], entry);
    lemma_entry_line_count(entry);
    assert(seq![a, b] == seq![a] + seq![b]);
    lemma_count_add(seq![a], seq![b]);
    lemma_count_one(a);
    lemma_count_one(b);
    assert(a[0] == 'l');
    assert(b[2] == 'p');
    if provider::is_provider_line(a) {
        assert("    ais-codex:"@[0] == a.subrange(0, 14)[0]);
    }
    if provider::is_provider_line(b) {
        assert("    ais-codex:"@[2] == b.subrange(0, 14)[2]);
    }
}

pub proof fn lemma_upserted_count(
    block: Seq<char>,
    proxy: Seq<char>,
    models: Seq<(Seq<char>, Seq<char>)>,
)
    requires
        provider_laws::providers_block(block),
        provider_laws::no_nl(proxy),
        provider_laws::plain_models(models),
    ensures
        entry_count(provider::upserted_block(block, proxy, models)) == outside_count(block) + 1,
{
    let ls = lines::lines_of(block);
    let entry = provider::provider_lines(proxy, models);
    provider_laws::lemma_upserted_block(block, proxy, models);
    provider_laws::lemma_provider_lines(proxy, models);
    lemma_entry_line_count(entry);
    if provider::providers_at(ls) < ls.len() {
        let before = provider::before_entries(ls);
        let others = provider::other_entries(ls);
        let after = provider::after_entries(ls);
        let rest = ls.skip(provider::providers_at(ls) + 1);
        lemma_kept_count(rest.take(provider::run_len(rest)), None);
        lemma_count_add(before, entry);
        lemma_count_add(before + entry, others);
        lemma_count_add(before + entry + others, after);
    } else {
        lemma_section_count(entry);
    }
}

proof fn lemma_removed_count(block: Seq<char>)
    requires
        lines::ended(block),
    ensures
        entry_count(provider::removed_block(block)) == (if provider::removed_block(block).len()
            > 0 {
            outside_count(block)
        } else {
            0
        }),
        lines::ended(provider::removed_block(block)),
{
    let ls = lines::lines_of(block);
    lines::lemma_lines_of(block);
    provider_laws::lemma_part_ended(ls);
    if provider::providers_at(ls) < ls.len() && provider::other_entries(ls).len() > 0 {
        let before = provider::before_entries(ls);
        let others = provider::other_entries(ls);
        let after = provider::after_entries(ls);
        provider_laws::lemma_ended_lines_add(before, others);
        provider_laws::lemma_ended_lines_add(before + others, after);
        let n = before + others + after;
        lines::lemma_lines_of_joined(n);
        lines::lemma_joined_ended(n);
        lines::lemma_joined_add(before, others);
        lines::lemma_joined_add(before + others, after);
        lemma_count_add(before, others);
        lemma_count_add(before + others, after);
        let rest = ls.skip(provider::providers_at(ls) + 1);
        lemma_kept_count(rest.take(provider::run_len(rest)), None);
    }
}

/// After a write the settings open the gateway's entry once in each providers block,
/// besides the lines outside the entries that did so before; once at the end where there
/// is no such block.
pub proof fn law_written_once(
    settings: Seq<char>,
    proxy: Seq<char>,
    models: Seq<(Seq<char>, Seq<char>)>,
)
    requires
        !provider_laws::hanging(settings),
        provider_laws::no_nl(proxy),
        provider_laws::plain_models(models),
    ensures
        entry_count(provider::with_provider(settings, proxy, models)) == (
        if provider_laws::has_providers(settings) {
            block_sum(blocks::blocks_of(lines::with_nl(settings)), written_count())
        } else {
            entry_count(settings) + 1
        }),
        provider::provider_in(provider::with_provider(settings, proxy, models)),
{
    let key = provider::PROVIDERS_BLOCK@;
    let all = provider::with_provider(settings, proxy, models);
    lemma_provider_in(all);
    if provider_laws::has_providers(settings) {
        let s = lines::with_nl(settings);
        let bs = blocks::blocks_of(s);
        let f = provider::upserting(proxy, models);
        provider_laws::law_write_keeps_blocks(settings, proxy, models);
        provider_laws::lemma_settings_nl(settings, proxy, models);
        provider_laws::lemma_has_providers_nl(settings);
        provider_laws::lemma_upserting_blocks(s, proxy, models);
        blocks::lemma_blocks_of(s);
        reveal_strlit("llm-pi-ai");
        assert(key.len() == 9);
        let cs = blocks::mapped(bs, f);
        let count = |k: Seq<char>, t: Seq<char>| entry_count(t);
        assert forall|i: int| 0 <= i < bs.len() implies lines::ended(
            f((#[trigger] bs[i]).0, bs[i].1),
        ) && count(bs[i].0, f(bs[i].0, bs[i].1)) == written_count()(bs[i].0, bs[i].1) by {
            if bs[i].0 == key {
                assert(provider_laws::providers_block(bs[i].1));
                lemma_upserted_count(bs[i].1, proxy, models);
                provider_laws::lemma_upserted_block(bs[i].1, proxy, models);
            }
        }
        assert forall|i: int| 0 <= i < cs.len() implies lines::ended((#[trigger] cs[i]).1) by {
            assert(cs[i] == (bs[i].0, f(bs[i].0, bs[i].1)));
        }
        lemma_count_render(cs);
        lemma_sum_mapped(bs, f, count, written_count());
        let i = choose|i: int| 0 <= i < bs.len() && (#[trigger] bs[i]).0 == key;
        lemma_sum_at_least(bs, written_count(), i);
    } else {
        let k = provider::section_text(proxy, models);
        let entry = provider::provider_lines(proxy, models);
        provider_laws::lemma_section_text(proxy, models);
        blocks::lemma_appended(settings, key, k);
        let b = blocks::body_of(settings);
        lemma_count_texts(b, blocks::tidied(k));
        lemma_count_tidied(k);
        provider_laws::lemma_provider_lines(proxy, models);
        provider_laws::lemma_section_lines(entry);
        lines::lemma_lines_of_joined(provider_laws::section_lines(entry));
        lemma_section_count(entry);
        let body = text::trimmed_end(settings);
        let w = text::lemma_trimmed_rest(settings);
        lemma_count_white(body, w);
        lemma_count_white(body, seq!['\n', '\n']);
    }
}

pub proof fn lemma_sum_at_least(
    bs: Seq<(Seq<char>, Seq<char>)>,
    f: spec_fn(Seq<char>, Seq<char>) -> nat,
    i: int,
)
    requires
        0 <= i < bs.len(),
    ensures
        block_sum(bs, f) >= f(bs[i].0, bs[i].1),
    decreases bs.len(),
{
    if i < bs.len() - 1 {
        lemma_sum_at_least(bs.drop_last(), f, i);
    }
}

/// After a removal no line opens the gateway's entry but those outside the entries of a
/// providers block.
pub proof fn law_removed_entries(settings: Seq<char>)
    ensures
        entry_count(provider::without_provider(settings)) == (
        if provider_laws::has_providers(settings) {
            block_sum(blocks::blocks_of(lines::with_nl(settings)), left_count())
        } else {
            entry_count(settings)
        }),
{
    let key = provider::PROVIDERS_BLOCK@;
    lemma_count_tidied(settings);
    if provider_laws::has_providers(settings) {
        let s = lines::with_nl(settings);
        let bs = blocks::blocks_of(s);
        let g = provider::removing();
        provider_laws::lemma_settings_nl(settings, Seq::empty(), Seq::empty());
        provider_laws::lemma_has_providers_nl(settings);
        blocks::lemma_blocks_of(s);
        let cs = blocks::mapped(bs, g);
        let count = |k: Seq<char>, t: Seq<char>| entry_count(t);
        assert forall|i: int| 0 <= i < bs.len() implies lines::ended(
            g((#[trigger] bs[i]).0, bs[i].1),
        ) && count(bs[i].0, g(bs[i].0, bs[i].1)) == left_count()(bs[i].0, bs[i].1) by {
            lemma_removed_count(bs[i].1);
        }
        assert forall|i: int| 0 <= i < cs.len() implies lines::ended((#[trigger] cs[i]).1) by {
            assert(cs[i] == (bs[i].0, g(bs[i].0, bs[i].1)));
        }
        lemma_count_render(cs);
        lemma_sum_mapped(bs, g, count, left_count());
        lemma_count_tidied(blocks::render(cs));
    }
}

/// Settings that do not open the gateway's entry do not open it after a write and a
/// removal.
pub proof fn law_write_then_remove(
    settings: Seq<char>,
    proxy: Seq<char>,
    models: Seq<(Seq<char>, Seq<char>)>,
)
    requires
        !provider::provider_in(settings),
        provider_laws::no_nl(proxy),
        provider_laws::plain_models(models),
    ensures
        !provider::provider_in(
            provider::without_provider(provider::with_provider(settings, proxy, models)),
        ),
{
    provider_laws::law_remove_undoes_write(settings, proxy, models);
    lemma_provider_in(settings);
    lemma_provider_in(
        provider::without_provider(provider::with_provider(settings, proxy, models)),
    );
    if provider_laws::has_providers(settings) {
        law_removed_entries(settings);
        let s = lines::with_nl(settings);
        let bs = blocks::blocks_of(s);
        lemma_count_tidied(settings);
        blocks::lemma_blocks_of(s);
        blocks::lemma_head(s);
        lemma_count_render(bs);
        let count = |k: Seq<char>, t: Seq<char>| entry_count(t);
        lemma_head_count(s);
        lemma_sum_le(bs, left_count(), count);
    } else {
        lemma_head_count(settings);
        lemma_count_tidied(blocks::without_blank_head(settings));
    }
}

/// A blank head opens no entry.
pub proof fn lemma_head_count(s: Seq<char>)
    ensures
        entry_count(blocks::without_blank_head(s)) == entry_count(s),
{
    blocks::lemma_head(s);
    let head = blocks::head_of(s);
    if text::blank(head) {
        let rest = s.skip(head.len() as int);
        assert(s == head + rest);
        let none = Seq::<char>::empty();
        lemma_count_white(none, head);
        assert(none + head == head);
        if head.len() < s.len() {
            lemma_count_texts(head, rest);
        } else {
            assert(rest == none);
        }
    }
}

pub proof fn lemma_outside_le(block: Seq<char>)
    requires
        lines::ended(block),
    ensures
        outside_count(block) <= entry_count(block),
{
    let ls = lines::lines_of(block);
    provider::lemma_providers_at(ls);
    let p = provider::providers_at(ls);
    if p < ls.len() {
        let rest = ls.skip(p + 1);
        provider::lemma_run_len(rest);
        let r = provider::run_len(rest);
        assert(ls == ls.take(p + 1) + rest);
        assert(rest == rest.take(r) + rest.skip(r));
        lemma_count_add(ls.take(p + 1), rest);
        lemma_count_add(rest.take(r), rest.skip(r));
    }
}

proof fn lemma_sum_le(
    bs: Seq<(Seq<char>, Seq<char>)>,
    a: spec_fn(Seq<char>, Seq<char>) -> nat,
    b: spec_fn(Seq<char>, Seq<char>) -> nat,
)
    requires
        forall|i: int| 0 <= i < bs.len() ==> lines::ended((#[trigger] bs[i]).1),
        a == left_count(),
        b == (|k: Seq<char>, t: Seq<char>| entry_count(t)),
    ensures
        block_sum(bs, a) <= block_sum(bs, b),
    decreases bs.len(),
{
    if bs.len() > 0 {
        let init = bs.drop_last();
        let last = bs[bs.len() - 1];
        assert forall|i: int| 0 <= i < init.len() implies lines::ended((#[trigger] init[i]).1) by {
            assert(init[i] == bs[i]);
        }
        lemma_sum_le(init, a, b);
        lemma_outside_le(last.1);
    }
}

} // verus!
