//! What setting the gateway up and taking it out again promise together.

use vstd::prelude::*;

use crate::blocks;
use crate::default_laws;
use crate::default_model;
use crate::lines;
use crate::provider;
use crate::provider_laws;
use crate::text;

verus! {

pub proof fn lemma_line_white(l: Seq<char>, c: char)
    requires
        l.len() > 0,
        text::white(c),
    ensures
        provider::is_providers_line(l.push(c)) == provider::is_providers_line(l),
        provider::stops(l.push(c)) == provider::stops(l),
        blocks::child_key(l.push(c)) == blocks::child_key(l),
{
    assert(l.push(c) == l + seq![c]);
    text::lemma_trimmed_white(l, seq![c]);
    blocks::lemma_key_push(l, c);
    let m = l.push(c);
    assert(m.drop_last() == l);
    text::lemma_blank_trimmed(l);
    text::lemma_blank_trimmed(m);
    if l.len() < 4 && blocks::indented(m) {
        assert(m.skip(4).len() == 0);
    }
}

pub proof fn lemma_white_line(c: char)
    requires
        text::white(c),
    ensures
        !provider::is_providers_line(seq![c]),
        !provider::stops(seq![c]),
        blocks::child_key(seq![c]) is None,
{
    let m = seq![c];
    assert(m.drop_last().len() == 0);
    assert(text::trimmed_end(m.drop_last()).len() == 0);
    reveal_strlit("  providers:");
    assert("  providers:"@.len() == 12);
}

proof fn lemma_kept_owner(ls: Seq<Seq<char>>, owner: Option<Seq<char>>)
    requires
        !provider::other_entry(owner),
        provider::other_entry(provider_laws::last_owner(ls, owner)),
    ensures
        provider::kept(ls, owner).len() > 0,
    decreases ls.len(),
{
    if ls.len() > 0 {
        let o = provider::owner_of(ls[0], owner);
        if !provider::other_entry(o) {
            lemma_kept_owner(ls.skip(1), o);
        }
    }
}

/// One line more at the end of a block, which says nothing.
pub proof fn lemma_removed_line(ls: Seq<Seq<char>>, m: Seq<char>)
    requires
        !provider::is_providers_line(m),
        !provider::stops(m),
        blocks::child_key(m) is None,
    ensures
        provider::providers_at(ls) < ls.len() <==> provider::providers_at(ls.push(m))
            < ls.len() + 1,
        provider::providers_at(ls) < ls.len() ==> {
            let a = provider::other_entries(ls);
            let b = provider::other_entries(ls.push(m));
            let x = provider::after_entries(ls);
            let y = provider::after_entries(ls.push(m));
            &&& provider::before_entries(ls.push(m)) == provider::before_entries(ls)
            &&& a.len() > 0 <==> b.len() > 0
            &&& (b == a && y == x) || (b == a && y == x.push(m)) || (b == a.push(m) && y == x
                && x.len() == 0)
        },
{
    let ms = ls.push(m);
    let p = provider::providers_at(ls);
    provider::lemma_providers_at(ls);
    assert forall|i: int| 0 <= i < p implies !provider::is_providers_line(#[trigger] ms[i]) by {
        assert(ms[i] == ls[i]);
    }
    if p >= ls.len() {
        assert forall|i: int| 0 <= i < p + 1 implies !provider::is_providers_line(
            #[trigger] ms[i],
        ) by {
            if i < p {
                assert(ms[i] == ls[i]);
            }
        }
        provider::lemma_providers_at_unique(ms, p + 1);
    } else {
        assert(ms[p] == ls[p]);
        provider::lemma_providers_at_unique(ms, p);
        assert(provider::before_entries(ms) == provider::before_entries(ls));
        let rest = ls.skip(p + 1);
        let rest2 = ms.skip(p + 1);
        assert(rest2 == rest.push(m));
        provider::lemma_run_len(rest);
        let r = provider::run_len(rest);
        if r == rest.len() {
            assert forall|i: int| 0 <= i < r + 1 implies !provider::stops(#[trigger] rest2[i]) by {
                if i < r {
                    assert(rest2[i] == rest[i]);
                }
            }
            provider::lemma_run_len_unique(rest2, r + 1);
            assert(rest.take(r) == rest);
            assert(rest2.take(r + 1) == rest2);
            provider_laws::lemma_kept_push(rest, m, None);
            assert(rest.skip(r).len() == 0);
            assert(rest2.skip(r + 1) == rest.skip(r));
            if provider::other_entry(provider_laws::last_owner(rest, None)) {
                lemma_kept_owner(rest, None);
            }
        } else {
            assert forall|i: int| 0 <= i < r implies !provider::stops(#[trigger] rest2[i]) by {
                assert(rest2[i] == rest[i]);
            }
            assert(rest2[r] == rest[r]);
            provider::lemma_run_len_unique(rest2, r);
            assert(rest2.take(r) == rest.take(r));
            assert(rest2.skip(r) == rest.skip(r).push(m));
        }
    }
}

/// A character of white space at the end of the last line of a block.
pub proof fn lemma_removed_last(init: Seq<Seq<char>>, l: Seq<char>, c: char)
    requires
        l.len() > 0,
        text::white(c),
    ensures
        provider::providers_at(init.push(l)) == provider::providers_at(init.push(l.push(c))),
        provider::providers_at(init.push(l)) < init.len() + 1 ==> {
            let ls = init.push(l);
            let ms = init.push(l.push(c));
            let a = provider::other_entries(ls);
            let b = provider::other_entries(ms);
            let x = provider::after_entries(ls);
            let y = provider::after_entries(ms);
            &&& a.len() > 0 ==> provider::before_entries(ms) == provider::before_entries(ls)
            &&& a.len() > 0 <==> b.len() > 0
            &&& (b == a && y == x) || (b == a && x.len() > 0 && x.last() == l && y
                == x.drop_last().push(l.push(c))) || (a.len() > 0 && a.last() == l && b
                == a.drop_last().push(l.push(c)) && y == x && x.len() == 0)
        },
{
    let m = l.push(c);
    let ls = init.push(l);
    let ms = init.push(m);
    lemma_line_white(l, c);
    let p = provider::providers_at(ls);
    provider::lemma_providers_at(ls);
    assert forall|i: int| 0 <= i < p implies !provider::is_providers_line(#[trigger] ms[i]) by {
        assert(!provider::is_providers_line(ls[i]));
        if i < init.len() {
            assert(ms[i] == ls[i]);
        }
    }
    if p < ls.len() {
        if p < init.len() {
            assert(ms[p] == ls[p]);
        }
        assert(provider::is_providers_line(ms[p]));
    }
    provider::lemma_providers_at_unique(ms, p);
    if p == init.len() {
        assert(ls.skip(p + 1).len() == 0);
        assert(ms.skip(p + 1) == ls.skip(p + 1));
    } else if p < init.len() {
        let a = init.skip(p + 1);
        let rest = ls.skip(p + 1);
        let rest2 = ms.skip(p + 1);
        assert(rest == a.push(l));
        assert(rest2 == a.push(m));
        assert(provider::before_entries(ms) == provider::before_entries(ls));
        provider::lemma_run_len(rest);
        let r = provider::run_len(rest);
        assert forall|i: int| 0 <= i < r implies !provider::stops(#[trigger] rest2[i]) by {
            assert(!provider::stops(rest[i]));
            if i < a.len() {
                assert(rest2[i] == rest[i]);
            }
        }
        if r < rest.len() {
            if r < a.len() {
                assert(rest2[r] == rest[r]);
            }
            assert(provider::stops(rest2[r]));
        }
        provider::lemma_run_len_unique(rest2, r);
        if r == rest.len() {
            assert(rest.take(r) == rest);
            assert(rest2.take(r) == rest2);
            assert(rest.skip(r).len() == 0);
            assert(rest2.skip(r) == rest.skip(r));
            provider_laws::lemma_kept_push(a, l, None);
            provider_laws::lemma_kept_push(a, m, None);
            let k = provider::kept(a, None);
            if provider::other_entry(
                provider::owner_of(l, provider_laws::last_owner(a, None)),
            ) {
                assert(k.push(l).drop_last() == k);
            }
        } else {
            assert(rest.take(r) == rest2.take(r));
            let b = a.skip(r);
            assert(rest.skip(r) == b.push(l));
            assert(rest2.skip(r) == b.push(m));
            assert(b.push(l).drop_last() == b);
        }
    }
}

/// A character of white space at the end of a providers block is left out or goes to the
/// end of what a removal leaves.
proof fn lemma_removed_push(t: Seq<char>, c: char)
    requires
        text::white(c),
    ensures
        provider::removed_block(t.push(c)) == provider::removed_block(t) || (
        provider::removed_block(t).len() > 0 && provider::removed_block(t.push(c))
            == provider::removed_block(t).push(c)),
{
    let ls = lines::lines_of(t);
    let ms = lines::lines_of(t.push(c));
    lines::lemma_lines_of(t);
    lines::lemma_lines_push(t, c);
    provider::lemma_providers_at(ls);
    provider::lemma_providers_at(ms);
    let p = provider::providers_at(ls);
    let x = lines::joined(provider::before_entries(ls));
    let y = lines::joined(provider::other_entries(ls));
    let z = lines::joined(provider::after_entries(ls));
    if lines::ended(t) {
        let m = seq![c];
        lemma_white_line(c);
        lemma_removed_line(ls, m);
        if p < ls.len() {
            lines::lemma_joined_push(provider::after_entries(ls), m);
            lines::lemma_joined_push(provider::other_entries(ls), m);
            assert(x + y + (z + m) == (x + y + z).push(c));
            if provider::after_entries(ls).len() == 0 {
                assert(z.len() == 0);
                assert(x + (y + m) + z == (x + y + z).push(c));
            }
            lemma_removed_some(ls);
        }
    } else {
        let init = ls.drop_last();
        let l = ls.last();
        let m = l.push(c);
        assert(ls == init.push(l));
        assert(ms == init.push(m));
        assert(lines::one_line(ls[ls.len() - 1]));
        lemma_removed_last(init, l, c);
        if p < ls.len() {
            let a = provider::other_entries(ls);
            let b = provider::after_entries(ls);
            if b.len() > 0 && b.last() == l {
                assert(b == b.drop_last().push(l));
                lines::lemma_joined_push(b.drop_last(), l);
                lines::lemma_joined_push(b.drop_last(), m);
                let q = lines::joined(b.drop_last());
                assert(x + y + (q + m) == (x + y + (q + l)).push(c));
            }
            if a.len() > 0 && a.last() == l && b.len() == 0 {
                assert(z.len() == 0);
                assert(a == a.drop_last().push(l));
                lines::lemma_joined_push(a.drop_last(), l);
                lines::lemma_joined_push(a.drop_last(), m);
                let q = lines::joined(a.drop_last());
                assert(x + (q + m) + z == (x + (q + l) + z).push(c));
            }
            lemma_removed_some(ls);
        }
    }
}

proof fn lemma_removed_some(ls: Seq<Seq<char>>)
    requires
        lines::good_lines(ls),
        provider::providers_at(ls) < ls.len(),
    ensures
        lines::joined(provider::before_entries(ls)).len() > 0,
{
    let p = provider::providers_at(ls);
    provider::lemma_providers_at(ls);
    let b = provider::before_entries(ls);
    assert(b.len() > 0 && b[0] == ls[0]);
    assert(lines::one_line(ls[0]));
    assert(lines::joined(b) == b[0] + lines::joined(b.skip(1)));
}

/// White space at the end of a providers block does not matter to what a removal leaves,
/// up to white space at the end.
proof fn lemma_removed_white(t: Seq<char>, w: Seq<char>)
    requires
        text::blank(w),
    ensures
        exists|v: Seq<char>|
            text::blank(v) && provider::removed_block(t + w) == provider::removed_block(t) + v,
    decreases w.len(),
{
    let x = provider::removed_block(t);
    if w.len() == 0 {
        assert(t + w == t);
        let v = Seq::<char>::empty();
        assert(x == x + v);
        assert(text::blank(v));
    } else {
        let u = w.drop_last();
        let c = w.last();
        assert(text::white(w[w.len() - 1]));
        assert forall|i: int| 0 <= i < u.len() implies text::white(#[trigger] u[i]) by {
            assert(u[i] == w[i]);
        }
        lemma_removed_white(t, u);
        assert(t + w == (t + u).push(c));
        lemma_removed_push(t + u, c);
        let v = choose|v: Seq<char>|
            text::blank(v) && provider::removed_block(t + u) == x + v;
        let y = provider::removed_block(t + u);
        if provider::removed_block(t + w) != y {
            assert(y.push(c) == y + seq![c]);
            let z = v.push(c);
            assert(text::blank(z));
            assert(y.push(c) == x + z);
        }
    }
}

/// The blocks that hold some text.
pub open spec fn drop_empty(bs: Seq<(Seq<char>, Seq<char>)>) -> Seq<(Seq<char>, Seq<char>)>
    decreases bs.len(),
{
    if bs.len() == 0 {
        bs
    } else if bs.last().1.len() == 0 {
        drop_empty(bs.drop_last())
    } else {
        drop_empty(bs.drop_last()).push(bs.last())
    }
}

/// Every block is ended, and empty, keyed, or the head at the start.
pub open spec fn loose_blocks(bs: Seq<(Seq<char>, Seq<char>)>) -> bool {
    forall|i: int|
        0 <= i < bs.len() ==> lines::ended((#[trigger] bs[i]).1) && (bs[i].1.len() == 0
            || blocks::keyed(bs[i].0, bs[i].1) || (i == 0 && blocks::headed(bs[i].0, bs[i].1)))
}

pub proof fn lemma_drop_empty(
    bs: Seq<(Seq<char>, Seq<char>)>,
    f: spec_fn(Seq<char>, Seq<char>) -> Seq<char>,
)
    requires
        loose_blocks(bs),
        forall|i: int|
            0 <= i < bs.len() && (#[trigger] bs[i]).1.len() == 0 ==> f(bs[i].0, bs[i].1).len()
                == 0,
    ensures
        blocks::good_blocks(drop_empty(bs)),
        forall|i: int|
            0 <= i < drop_empty(bs).len() ==> lines::ended((#[trigger] drop_empty(bs)[i]).1),
        drop_empty(bs).len() <= bs.len(),
        blocks::render(drop_empty(bs)) == blocks::render(bs),
        blocks::render(blocks::mapped(drop_empty(bs), f)) == blocks::render(
            blocks::mapped(bs, f),
        ),
    decreases bs.len(),
{
    if bs.len() > 0 {
        let init = bs.drop_last();
        let last = bs[bs.len() - 1];
        assert forall|i: int| 0 <= i < init.len() implies lines::ended((#[trigger] init[i]).1) && (
        init[i].1.len() == 0 || blocks::keyed(init[i].0, init[i].1) || (i == 0 && blocks::headed(
            init[i].0,
            init[i].1,
        ))) && (init[i].1.len() == 0 ==> f(init[i].0, init[i].1).len() == 0) by {
            assert(init[i] == bs[i]);
        }
        lemma_drop_empty(init, f);
        let d = drop_empty(init);
        assert(bs == init + seq![last]);
        blocks::lemma_render_add(init, seq![last]);
        blocks::lemma_render_one(last);
        provider_laws::lemma_mapped_last(init, last.0, last.1, f);
        if last.1.len() == 0 {
            assert(drop_empty(bs) == d);
            assert(blocks::render(init) + last.1 == blocks::render(init));
            let r = blocks::render(blocks::mapped(init, f));
            assert(r + f(last.0, last.1) == r);
        } else {
            let e = d.push(last);
            assert(e == d + seq![last]);
            assert(drop_empty(bs) == e);
            blocks::lemma_render_add(d, seq![last]);
            provider_laws::lemma_mapped_last(d, last.0, last.1, f);
            assert forall|i: int| 0 <= i < e.len() implies blocks::keyed(
                (#[trigger] e[i]).0,
                e[i].1,
            ) || (i == 0 && blocks::headed(e[i].0, e[i].1)) by {
                if i < d.len() {
                    assert(e[i] == d[i]);
                }
            }
            assert forall|i: int| 0 <= i < e.len() implies lines::ended((#[trigger] e[i]).1) by {
                if i < d.len() {
                    assert(e[i] == d[i]);
                }
            }
        }
    }
}

/// Blocks without the key `key` are still without it once the empty ones are gone.
proof fn lemma_drop_empty_none(bs: Seq<(Seq<char>, Seq<char>)>, key: Seq<char>)
    requires
        forall|i: int| 0 <= i < bs.len() ==> (#[trigger] bs[i]).0 != key,
    ensures
        forall|i: int| 0 <= i < drop_empty(bs).len() ==> (#[trigger] drop_empty(bs)[i]).0 != key,
    decreases bs.len(),
{
    if bs.len() > 0 {
        assert(bs[bs.len() - 1].0 != key);
        lemma_drop_empty_none(bs.drop_last(), key);
        let d = drop_empty(bs.drop_last());
        if bs.last().1.len() > 0 {
            let e = d.push(bs.last());
            assert forall|i: int| 0 <= i < e.len() implies (#[trigger] e[i]).0 != key by {
                if i < d.len() {
                    assert(e[i] == d[i]);
                }
            }
        }
    }
}

/// The only block of a key is the only one once the empty ones are gone.
proof fn lemma_drop_empty_one(bs: Seq<(Seq<char>, Seq<char>)>, n: int) -> (m: int)
    requires
        0 <= n < bs.len(),
        bs[n].1.len() > 0,
        forall|i: int| 0 <= i < bs.len() && i != n ==> (#[trigger] bs[i]).0 != bs[n].0,
    ensures
        0 <= m < drop_empty(bs).len(),
        drop_empty(bs)[m] == bs[n],
        forall|i: int|
            0 <= i < drop_empty(bs).len() && i != m ==> (#[trigger] drop_empty(bs)[i]).0
                != bs[n].0,
    decreases bs.len(),
{
    let init = bs.drop_last();
    let d = drop_empty(init);
    let e = drop_empty(bs);
    if n == bs.len() - 1 {
        assert forall|i: int| 0 <= i < init.len() implies (#[trigger] init[i]).0 != bs[n].0 by {
            assert(init[i] == bs[i]);
        }
        lemma_drop_empty_none(init, bs[n].0);
        assert(e == d.push(bs[n]));
        assert forall|i: int| 0 <= i < e.len() && i != d.len() implies (#[trigger] e[i]).0
            != bs[n].0 by {
            assert(e[i] == d[i]);
        }
        d.len() as int
    } else {
        assert(init[n] == bs[n]);
        assert forall|i: int| 0 <= i < init.len() && i != n implies (#[trigger] init[i]).0
            != init[n].0 by {
            assert(init[i] == bs[i]);
        }
        let m = lemma_drop_empty_one(init, n);
        if bs.last().1.len() > 0 {
            assert(e == d.push(bs.last()));
            assert(e[m] == d[m]);
            assert forall|i: int| 0 <= i < e.len() && i != m implies (#[trigger] e[i]).0
                != bs[n].0 by {
                if i < d.len() {
                    assert(e[i] == d[i]);
                } else {
                    assert(e[i] == bs[bs.len() - 1]);
                }
            }
        }
        m
    }
}

/// What a removal leaves of a providers block is such a block or nothing.
proof fn lemma_removed_block(t: Seq<char>)
    requires
        provider_laws::providers_block(t),
    ensures
        provider::removed_block(t).len() == 0 || blocks::keyed(
            provider::PROVIDERS_BLOCK@,
            provider::removed_block(t),
        ),
        lines::ended(provider::removed_block(t)),
{
    let ls = lines::lines_of(t);
    lines::lemma_lines_of(t);
    provider::lemma_providers_at(ls);
    let p = provider::providers_at(ls);
    if p < ls.len() && provider::other_entries(ls).len() > 0 {
        let a = provider::before_entries(ls);
        let b = provider::other_entries(ls);
        let c = provider::after_entries(ls);
        let rest = ls.skip(p + 1);
        provider::lemma_run_len(rest);
        let r = provider::run_len(rest);
        let good = |l: Seq<char>|
            lines::one_line(l) && lines::ended(l) && blocks::key_of(l) is None;
        assert forall|i: int| 0 <= i < rest.len() implies good(#[trigger] rest[i]) by {
            assert(rest[i] == ls[p + 1 + i]);
        }
        assert forall|i: int| 0 <= i < rest.take(r).len() implies good(
            #[trigger] rest.take(r)[i],
        ) by {
            assert(good(rest[i]));
        }
        provider_laws::lemma_kept_all(rest.take(r), None, good);
        assert forall|i: int| 0 <= i < c.len() implies good(#[trigger] c[i]) by {
            assert(good(rest[r + i]));
        }
        let all = a + b + c;
        assert(all[0] == ls[0]);
        assert forall|i: int| 0 <= i < all.len() implies lines::one_line(#[trigger] all[i])
            && lines::ended(all[i]) && (i > 0 ==> blocks::key_of(all[i]) is None) by {
            if i < a.len() {
                assert(all[i] == ls[i]);
            } else if i < a.len() + b.len() {
                assert(good(b[i - a.len()]));
            } else {
                assert(good(c[i - a.len() - b.len()]));
            }
        }
        assert(lines::ended_lines(all));
        lines::lemma_lines_of_joined(all);
        lines::lemma_joined_ended(all);
        lines::lemma_joined_add(a + b, c);
        lines::lemma_joined_add(a, b);
    }
}

/// What a removal leaves of the blocks of ended settings.
pub proof fn lemma_removing_blocks(s: Seq<char>)
    requires
        lines::ended(s),
    ensures
        loose_blocks(blocks::mapped(blocks::blocks_of(s), provider::removing())),
        forall|i: int|
            0 <= i < blocks::blocks_of(s).len() && (#[trigger] blocks::blocks_of(s)[i]).0
                != provider::PROVIDERS_BLOCK@ ==> blocks::mapped(
                blocks::blocks_of(s),
                provider::removing(),
            )[i] == blocks::blocks_of(s)[i] && blocks::blocks_of(s)[i].1.len() > 0,
{
    let bs = blocks::blocks_of(s);
    let g = provider::removing();
    let ms = blocks::mapped(bs, g);
    blocks::lemma_blocks_of(s);
    default_laws::lemma_keys();
    assert forall|i: int| 0 <= i < ms.len() implies lines::ended((#[trigger] ms[i]).1) && (
    ms[i].1.len() == 0 || blocks::keyed(ms[i].0, ms[i].1) || (i == 0 && blocks::headed(
        ms[i].0,
        ms[i].1,
    ))) by {
        assert(lines::ended(bs[i].1));
        if bs[i].0 == provider::PROVIDERS_BLOCK@ {
            assert(provider_laws::providers_block(bs[i].1));
            lemma_removed_block(bs[i].1);
        }
    }
    assert forall|i: int| 0 <= i < bs.len() && (#[trigger] bs[i]).0
        != provider::PROVIDERS_BLOCK@ implies ms[i] == bs[i] && bs[i].1.len() > 0 by {
        assert(lines::ended(bs[i].1));
        if bs[i].1.len() == 0 {
            lines::lemma_lines_of(bs[i].1);
            assert(text::blank(bs[i].1));
        }
    }
}

pub proof fn lemma_trimmed_tidied(s: Seq<char>)
    ensures
        text::trimmed_end(blocks::tidied(s)) == text::trimmed_end(s),
        text::trimmed_end(lines::with_nl(s)) == text::trimmed_end(s),
{
    let t = text::trimmed_end(s);
    text::lemma_trimmed_end(s);
    assert(t.push('\n') == t + seq!['\n']);
    text::lemma_trimmed_white(t, seq!['\n']);
    text::lemma_trimmed_end_unique(t, t.len() as int);
    assert(t.take(t.len() as int) == t);
    if !lines::ended(s) {
        assert(s.push('\n') == s + seq!['\n']);
        text::lemma_trimmed_white(s, seq!['\n']);
    }
}

/// The text that `saved` puts in place of the default-model block: none where it is
/// blank.
pub open spec fn put_back(saved: Seq<char>) -> Seq<char> {
    if text::blank(saved) {
        Seq::empty()
    } else {
        saved
    }
}

/// Taking the gateway out of settings whose default model points at it gives the other
/// blocks, with what was kept in place of the default-model block.
#[verifier::rlimit(40)]
proof fn lemma_removed_default(d: Seq<char>, id: Seq<char>, n: int, saved: Seq<char>)
    requires
        lines::ended(d),
        provider_laws::no_nl(id),
        provider_laws::has_providers(d),
        0 <= n < blocks::blocks_of(d).len(),
        blocks::blocks_of(d)[n] == (
            default_model::DEFAULT_BLOCK@,
            default_model::default_text(id),
        ),
        forall|i: int|
            0 <= i < blocks::blocks_of(d).len() && i != n ==> (#[trigger] blocks::blocks_of(d)[i]).0
                != default_model::DEFAULT_BLOCK@,
    ensures
        text::trimmed_end(
            default_model::restored(Some(saved), provider::without_provider(d)),
        ) == text::trimmed_end(
            blocks::render(
                blocks::mapped(
                    blocks::mapped(blocks::blocks_of(d), provider::removing()),
                    blocks::replacing(default_model::DEFAULT_BLOCK@, put_back(saved)),
                ),
            ),
        ),
{
    let key = default_model::DEFAULT_BLOCK@;
    let new = default_model::default_text(id);
    let bs = blocks::blocks_of(d);
    let ms = blocks::mapped(bs, provider::removing());
    let h = blocks::replacing(key, put_back(saved));
    default_laws::lemma_keys();
    default_laws::lemma_default_text(id);
    lemma_removing_blocks(d);
    assert(bs[n].0 == key);
    assert(ms[n] == (key, new));
    assert forall|i: int| 0 <= i < ms.len() && (#[trigger] ms[i]).1.len() == 0 implies h(
        ms[i].0,
        ms[i].1,
    ).len() == 0 by {
        if ms[i].0 == key {
            assert(bs[i].0 == key);
            assert(i == n);
        }
    }
    lemma_drop_empty(ms, h);
    assert forall|i: int| 0 <= i < ms.len() && i != n implies (#[trigger] ms[i]).0 != key by {
        assert(bs[i].0 != key);
    }
    let m = lemma_drop_empty_one(ms, n);
    let ns = drop_empty(ms);
    let x = blocks::render(ms);
    blocks::lemma_blocks_of_render(ns);
    let u = text::trimmed_end(x);
    let w = text::lemma_trimmed_rest(x);
    blocks::lemma_blocks_white(u, w);
    let nl = seq!['\n'];
    assert(text::blank(nl));
    blocks::lemma_blocks_white(u, nl);
    let e = provider::without_provider(d);
    assert(e == u + nl);
    let us = blocks::blocks_of(u);
    let es = blocks::blocks_of(e);
    assert(us.len() == ns.len());
    let pre = us.drop_last();
    let k = us.last().0;
    let l = us.last().1;
    assert(ns == pre.push((k, l + w)));
    assert(es == pre.push((k, l + nl)));
    if m == pre.len() {
        text::lemma_trimmed_end(x);
        text::lemma_trimmed_end_unique(u, u.len() as int);
        assert(u.take(u.len() as int) == u);
        lemma_last_default(u, w, id);
        assert(l + nl == new);
    } else {
        assert(es[m] == pre[m]);
        assert(ns[m] == pre[m]);
    }
    assert forall|i: int| 0 <= i < m implies (#[trigger] es[i]).0 != key by {
        assert(ns[i].0 != key);
        assert(es[i] == pre[i]);
        assert(ns[i] == pre[i]);
    }
    default_laws::lemma_points_here(e, m, id);
    assert(es == pre + seq![(k, l + nl)]);
    assert(ns == pre + seq![(k, l + w)]);
    provider_laws::lemma_mapped_last(pre, k, l + nl, h);
    provider_laws::lemma_mapped_last(pre, k, l + w, h);
    let r = blocks::render(blocks::mapped(pre, h));
    assert(text::trimmed_end(r + h(k, l + nl)) == text::trimmed_end(r + h(k, l + w))) by {
        if k != key {
            assert(lines::ended(ns[pre.len() as int].1));
            assert(h(k, l + nl) == l + nl);
            assert(h(k, l + w) == l + w);
            assert(r + (l + nl) == (r + l) + nl);
            assert(r + (l + w) == (r + l) + w);
            text::lemma_trimmed_white(r + l, nl);
            text::lemma_trimmed_white(r + l, w);
        }
    }
    let out = blocks::render(blocks::mapped(es, h));
    lemma_trimmed_tidied(out);
    if text::blank(saved) {
        assert(!text::blank(e)) by {
            if text::blank(e) {
                assert(text::trimmed_end(e).len() == 0) by {
                    text::lemma_blank_trimmed(e);
                }
                assert(Seq::<char>::empty() + e == e);
                blocks::lemma_blocks_white(Seq::empty(), e);
                assert(lines::lines_of(Seq::<char>::empty()).len() == 0);
                assert(blocks::blocks_of(Seq::<char>::empty()).len() == 0);
            }
        }
    }
}

/// Where the default-model block comes last, it keeps its text when white space at the
/// end is dropped and the last line ended.
proof fn lemma_last_default(u: Seq<char>, w: Seq<char>, id: Seq<char>)
    requires
        provider_laws::no_nl(id),
        text::blank(w),
        u == text::trimmed_end(u),
        blocks::blocks_of(u).len() > 0,
        blocks::blocks_of(u).last().1 + w == default_model::default_text(id),
    ensures
        blocks::blocks_of(u).last().1 + seq!['\n'] == default_model::default_text(id),
{
    let us = blocks::blocks_of(u);
    let l = us.last().1;
    let new = default_model::default_text(id);
    default_laws::lemma_default_text(id);
    text::lemma_trimmed_white(l, w);
    text::lemma_trimmed_end(l);
    text::lemma_trimmed_end(new);
    let pre = us.drop_last();
    assert(us == pre + seq![us.last()]);
    blocks::lemma_render_add(pre, seq![us.last()]);
    blocks::lemma_render_one(us.last());
    blocks::lemma_blocks_of(u);
    blocks::lemma_head(u);
    text::lemma_trimmed_end(u);
    if w.len() == 0 {
        assert(l + w == l);
        assert(l.last() == '\n');
        assert(blocks::without_blank_head(u).last() == l.last());
        assert(u.last() == l.last());
        assert(false);
    }
    assert(l == text::trimmed_end(l));
    assert(l + seq!['\n'] == l.push('\n'));
}

/// White space at the end of the settings does not matter to what a removal leaves of the
/// blocks, up to white space at the end.
proof fn lemma_removing_grown(bs: Seq<(Seq<char>, Seq<char>)>, w: Seq<char>)
    requires
        text::blank(w),
        bs.len() > 0,
    ensures
        text::trimmed_end(
            blocks::render(blocks::mapped(blocks::grown(bs, w), provider::removing())),
        ) == text::trimmed_end(
            blocks::render(blocks::mapped(bs.drop_last(), provider::removing())) + (
            if bs.last().0 == provider::PROVIDERS_BLOCK@ {
                provider::removed_block(bs.last().1)
            } else {
                bs.last().1
            }),
        ),
{
    let g = provider::removing();
    let pre = bs.drop_last();
    let k = bs.last().0;
    let l = bs.last().1;
    assert(blocks::grown(bs, w) == pre + seq![(k, l + w)]);
    provider_laws::lemma_mapped_last(pre, k, l + w, g);
    let r = blocks::render(blocks::mapped(pre, g));
    let y = if k == provider::PROVIDERS_BLOCK@ {
        provider::removed_block(l)
    } else {
        l
    };
    lemma_removed_white(l, w);
    let v = if k == provider::PROVIDERS_BLOCK@ {
        choose|v: Seq<char>|
            text::blank(v) && provider::removed_block(l + w) == provider::removed_block(l) + v
    } else {
        w
    };
    let z = if lines::ended(y + v) {
        v
    } else {
        v.push('\n')
    };
    assert(g(k, l + w) == y + z);
    assert(text::blank(z));
    assert(r + (y + z) == (r + y) + z);
    text::lemma_trimmed_white(r + y, z);
}

/// Taking the gateway out again after it was made the default gives what taking it out
/// gives without that, up to white space at the end.
proof fn lemma_default_then_remove(s: Seq<char>, id: Seq<char>)
    requires
        lines::ended(s),
        provider_laws::has_providers(s),
        provider_laws::no_nl(id),
        default_laws::at_most_one(blocks::blocks_of(s), default_model::DEFAULT_BLOCK@),
    ensures
        text::trimmed_end(
            default_model::restored(
                Some(default_model::saved_default(s)),
                provider::without_provider(default_model::with_default_model(s, id)),
            ),
        ) == text::trimmed_end(provider::without_provider(s)),
{
    let key = default_model::DEFAULT_BLOCK@;
    let other = provider::PROVIDERS_BLOCK@;
    let new = default_model::default_text(id);
    let g = provider::removing();
    let bs = blocks::blocks_of(s);
    let d = default_model::with_default_model(s, id);
    let saved = default_model::saved_default(s);
    default_laws::lemma_keys();
    default_laws::lemma_default_text(id);
    blocks::lemma_blocks_of(s);
    default_model::lemma_block_at(bs, key);
    lemma_trimmed_tidied(blocks::render(blocks::mapped(bs, g)));
    let at = choose|i: int| 0 <= i < bs.len() && (#[trigger] bs[i]).0 == other;
    if default_laws::has_default(s) {
        let n = default_model::block_at(bs, key);
        let f = blocks::replacing(key, new);
        let cs = blocks::mapped(bs, f);
        default_laws::lemma_replacing_blocks(s, key, new);
        assert(d == blocks::render(cs));
        assert(cs[n] == (key, new));
        assert(cs[at].0 == other);
        assert forall|i: int| 0 <= i < cs.len() && i != n implies (#[trigger] cs[i]).0 != key by {
            assert(bs[n].0 == key);
            assert(cs[i].0 == bs[i].0);
        }
        assert(blocks::has_block(cs, other));
        lemma_removed_default(d, id, n, saved);
        assert(bs[n].0 == key);
        assert(blocks::keyed(key, bs[n].1));
        default_laws::lemma_keyed_nonblank(key, bs[n].1);
        let h = blocks::replacing(key, saved);
        let out = blocks::mapped(blocks::mapped(cs, g), h);
        let want = blocks::mapped(bs, g);
        lemma_removing_blocks(s);
        assert forall|i: int| 0 <= i < bs.len() implies #[trigger] out[i] == want[i] by {
            assert(lines::ended(want[i].1));
            assert(lines::ended(bs[i].1));
            assert(cs[i].0 == bs[i].0);
            if i == n {
                assert(want[i] == bs[i]);
            } else {
                assert(cs[i].0 != key);
            }
        }
        assert(out == want);
    } else {
        let body = text::trimmed_end(s);
        let nn = seq!['\n', '\n'];
        let gap = body + nn;
        assert(lines::ended(gap));
        blocks::lemma_blocks_add(gap, key, new);
        assert(text::blank(nn));
        blocks::lemma_blocks_white(body, nn);
        let w = text::lemma_trimmed_rest(s);
        blocks::lemma_blocks_white(body, w);
        let bb = blocks::blocks_of(body);
        let ts = blocks::blocks_of(gap);
        let cs = blocks::blocks_of(d);
        assert(cs == ts.push((key, new)));
        assert(bb.len() == bs.len());
        assert(ts[at].0 == bs[at].0);
        assert(cs[at].0 == other);
        assert(blocks::has_block(cs, other));
        assert forall|i: int| 0 <= i < cs.len() && i != ts.len() implies (#[trigger] cs[i]).0
            != key by {
            assert(cs[i] == ts[i]);
            assert(ts[i].0 == bs[i].0);
        }
        assert(lines::ended(d));
        lemma_removed_default(d, id, ts.len() as int, saved);
        let h = blocks::replacing(key, Seq::empty());
        let ms = blocks::mapped(ts, g);
        assert(blocks::mapped(cs, g) == ms + seq![(key, new)]);
        provider_laws::lemma_mapped_last(ms, key, new, h);
        assert(blocks::mapped(ms, h) == ms) by {
            lemma_removing_blocks(gap);
            assert forall|i: int| 0 <= i < ms.len() implies #[trigger] blocks::mapped(ms, h)[i]
                == ms[i] by {
                assert(lines::ended(ms[i].1));
                assert(ms[i].0 == ts[i].0);
                assert(cs[i] == ts[i]);
            }
        }
        let r = blocks::render(ms);
        assert(r + Seq::<char>::empty() == r);
        lemma_removing_grown(bb, nn);
        lemma_removing_grown(bb, w);
    }
}

/// Setting the gateway up as the default and taking it out again gives the settings back
/// as a removal alone would, with their default model; settings without a providers
/// block come back as they were. Blank lines in front of the first key and white space
/// at the end are left out of it.
pub proof fn law_setup_then_remove(
    settings: Seq<char>,
    proxy: Seq<char>,
    models: Seq<(Seq<char>, Seq<char>)>,
    id: Seq<char>,
)
    requires
        provider_laws::no_nl(proxy),
        provider_laws::plain_models(models),
        provider_laws::no_nl(id),
        default_laws::at_most_one(blocks::blocks_of(settings), default_model::DEFAULT_BLOCK@),
    ensures
        ({
            let written = provider::with_provider(settings, proxy, models);
            text::trimmed_end(
                default_model::restored(
                    Some(default_model::saved_default(written)),
                    provider::without_provider(default_model::with_default_model(written, id)),
                ),
            )
        }) == text::trimmed_end(
            if provider_laws::has_providers(settings) {
                provider::without_provider(settings)
            } else {
                blocks::without_blank_head(settings)
            },
        ),
{
    let key = default_model::DEFAULT_BLOCK@;
    let other = provider::PROVIDERS_BLOCK@;
    let u = provider::with_provider(settings, proxy, models);
    let f = provider::upserting(proxy, models);
    let bs = blocks::blocks_of(settings);
    let us = blocks::blocks_of(u);
    default_laws::lemma_keys();
    if provider_laws::has_providers(settings) {
        let at = choose|i: int| 0 <= i < bs.len() && (#[trigger] bs[i]).0 == other;
        if provider_laws::hanging(settings) {
            provider_laws::lemma_remove_hanging(settings, proxy, models);
        } else {
            provider_laws::law_write_keeps_blocks(settings, proxy, models);
            if !lines::ended(settings) {
                assert(settings.push('\n') == settings + seq!['\n']);
                blocks::lemma_blocks_white(settings, seq!['\n']);
            }
        }
        assert(us.len() == bs.len());
        assert forall|i: int| 0 <= i < us.len() implies (#[trigger] us[i]).0 == bs[i].0 by {}
        assert(us[at].0 == other);
    } else {
        provider_laws::lemma_section_text(proxy, models);
        let section = provider::section_text(proxy, models);
        blocks::lemma_appended(settings, other, section);
        let body = text::trimmed_end(settings);
        let w = text::lemma_trimmed_rest(settings);
        blocks::lemma_blocks_white(body, w);
        let ts = blocks::blocks_of(blocks::body_of(settings));
        if body.len() > 0 {
            blocks::lemma_blocks_white(body, seq!['\n', '\n']);
        }
        assert(us == ts.push((other, blocks::tidied(section))));
        assert(us[ts.len() as int].0 == other);
        assert(ts.len() == bs.len());
        assert forall|i: int| 0 <= i < ts.len() implies (#[trigger] us[i]).0 == bs[i].0 by {
            assert(us[i] == ts[i]);
        }
        lemma_trimmed_tidied(blocks::without_blank_head(settings));
    }
    assert(provider_laws::has_providers(u));
    assert forall|i: int, j: int|
        0 <= i < us.len() && 0 <= j < us.len() && (#[trigger] us[i]).0 == key && (
        #[trigger] us[j]).0 == key implies i == j by {
        if i < bs.len() && j < bs.len() {
            assert(bs[i].0 == key);
            assert(bs[j].0 == key);
        }
    }
    lemma_default_then_remove(u, id);
    provider_laws::law_remove_undoes_write(settings, proxy, models);
}

/// The entries of other providers stay as they are in a write, and in a removal that leaves
/// any.
pub proof fn law_other_entries_stay(
    block: Seq<char>,
    proxy: Seq<char>,
    models: Seq<(Seq<char>, Seq<char>)>,
)
    requires
        provider_laws::providers_block(block),
        provider::providers_at(lines::lines_of(block)) < lines::lines_of(block).len(),
        provider_laws::no_nl(proxy),
        provider_laws::plain_models(models),
    ensures
        provider::other_entries(lines::lines_of(provider::upserted_block(block, proxy, models)))
            == provider::other_entries(lines::lines_of(block)),
        provider::removed_block(block).len() == 0 <==> provider::other_entries(
            lines::lines_of(block),
        ).len() == 0,
        provider::removed_block(block).len() > 0 ==> provider::other_entries(
            lines::lines_of(provider::removed_block(block)),
        ) == provider::other_entries(lines::lines_of(block)),
{
    let ls = lines::lines_of(block);
    lines::lemma_lines_of(block);
    provider::lemma_providers_at(ls);
    provider_laws::lemma_provider_lines(proxy, models);
    provider_laws::lemma_upserted_block(block, proxy, models);
    provider_laws::lemma_entry_in_place(ls, provider::provider_lines(proxy, models));
    lemma_removed_some(ls);
    let p = provider::providers_at(ls);
    let a = provider::before_entries(ls);
    let b = provider::other_entries(ls);
    let c = provider::after_entries(ls);
    if b.len() > 0 {
        let rest = ls.skip(p + 1);
        provider::lemma_run_len(rest);
        let r = provider::run_len(rest);
        let whole = |l: Seq<char>| lines::one_line(l) && lines::ended(l);
        let runs = |l: Seq<char>| lines::one_line(l) && lines::ended(l) && !provider::stops(l);
        assert forall|i: int| 0 <= i < rest.take(r).len() implies runs(
            #[trigger] rest.take(r)[i],
        ) by {
            assert(rest[i] == ls[p + 1 + i]);
        }
        provider_laws::lemma_kept_all(rest.take(r), None, runs);
        assert forall|i: int| 0 <= i < c.len() implies whole(#[trigger] c[i]) by {
            assert(c[i] == ls[p + 1 + r + i]);
        }
        assert forall|i: int| 0 <= i < a.len() implies whole(#[trigger] a[i]) by {
            assert(a[i] == ls[i]);
        }
        let all = a + b + c;
        assert forall|i: int| 0 <= i < all.len() implies lines::one_line(#[trigger] all[i])
            && lines::ended(all[i]) by {
            if i < a.len() {
                assert(whole(a[i]));
            } else if i < a.len() + b.len() {
                assert(runs(b[i - a.len()]));
            } else {
                assert(whole(c[i - a.len() - b.len()]));
            }
        }
        lines::lemma_lines_of_joined(all);
        lines::lemma_joined_add(a + b, c);
        lines::lemma_joined_add(a, b);
        assert(lines::lines_of(provider::removed_block(block)) == all);
        assert forall|i: int| 0 <= i < p implies !provider::is_providers_line(
            #[trigger] all[i],
        ) by {
            assert(all[i] == ls[i]);
        }
        assert(all[p] == ls[p]);
        provider::lemma_providers_at_unique(all, p);
        let left = all.skip(p + 1);
        assert(left == b + c);
        assert forall|i: int| 0 <= i < b.len() implies !provider::stops(#[trigger] left[i]) by {
            assert(runs(b[i]));
        }
        if c.len() > 0 {
            assert(left[b.len() as int] == rest[r]);
        }
        provider::lemma_run_len_unique(left, b.len() as int);
        assert(left.take(b.len() as int) == b);
        provider_laws::lemma_kept_again(rest.take(r), None, None);
    }
}

/// A block with some text stays when the empty ones are gone.
pub proof fn lemma_drop_empty_keeps(bs: Seq<(Seq<char>, Seq<char>)>, n: int) -> (m: int)
    requires
        0 <= n < bs.len(),
        bs[n].1.len() > 0,
    ensures
        0 <= m < drop_empty(bs).len(),
        drop_empty(bs)[m] == bs[n],
    decreases bs.len(),
{
    let init = bs.drop_last();
    if n == bs.len() - 1 {
        drop_empty(init).len() as int
    } else {
        assert(init[n] == bs[n]);
        lemma_drop_empty_keeps(init, n)
    }
}

/// Some block has the key and the text, up to white space at the end.
pub open spec fn holds_block(s: Seq<char>, key: Seq<char>, t: Seq<char>) -> bool {
    exists|j: int|
        0 <= j < blocks::blocks_of(s).len() && (#[trigger] blocks::blocks_of(s)[j]).0 == key
            && text::trimmed_end(blocks::blocks_of(s)[j].1) == text::trimmed_end(t)
}

/// A removal keeps every block but those of providers.
pub proof fn law_remove_keeps_blocks(settings: Seq<char>, i: int)
    requires
        0 <= i < blocks::blocks_of(settings).len(),
        blocks::blocks_of(settings)[i].0 != provider::PROVIDERS_BLOCK@,
    ensures
        holds_block(
            provider::without_provider(settings),
            blocks::blocks_of(settings)[i].0,
            blocks::blocks_of(settings)[i].1,
        ),
{
    let s = lines::with_nl(settings);
    let cs = blocks::blocks_of(settings);
    let bs = blocks::blocks_of(s);
    let nl = seq!['\n'];
    assert(text::blank(nl));
    if !lines::ended(settings) {
        assert(settings.push('\n') == settings + nl);
        blocks::lemma_blocks_white(settings, nl);
        if i == cs.len() - 1 {
            text::lemma_trimmed_white(cs[i].1, nl);
        }
    }
    assert(bs[i].0 == cs[i].0);
    assert(text::trimmed_end(bs[i].1) == text::trimmed_end(cs[i].1));
    provider_laws::lemma_settings_nl(settings, Seq::empty(), Seq::empty());
    provider_laws::lemma_has_providers_nl(settings);
    let e = provider::without_provider(settings);
    if !provider_laws::has_providers(settings) {
        assert(blocks::blocks_of(e)[i].0 == cs[i].0);
    } else {
        let ms = blocks::mapped(bs, provider::removing());
        let f = |k: Seq<char>, t: Seq<char>| t;
        lemma_removing_blocks(s);
        lemma_drop_empty(ms, f);
        assert(ms[i] == bs[i]);
        let m = lemma_drop_empty_keeps(ms, i);
        let ns = drop_empty(ms);
        let x = blocks::render(ms);
        blocks::lemma_blocks_of_render(ns);
        let u = text::trimmed_end(x);
        let w = text::lemma_trimmed_rest(x);
        blocks::lemma_blocks_white(u, w);
        blocks::lemma_blocks_white(u, nl);
        assert(e == u + nl);
        let us = blocks::blocks_of(u);
        let es = blocks::blocks_of(e);
        if m == ns.len() - 1 {
            text::lemma_trimmed_white(us.last().1, w);
            text::lemma_trimmed_white(us.last().1, nl);
            assert(ns[m] == (us.last().0, us.last().1 + w));
            assert(es[m] == (us.last().0, us.last().1 + nl));
        } else {
            assert(es[m] == us[m]);
            assert(ns[m] == us[m]);
        }
        assert(es[m].0 == cs[i].0);
    }
}

/// Two lists of blocks have the same block of `key`, up to white space at its end.
spec fn alike(
    bs: Seq<(Seq<char>, Seq<char>)>,
    us: Seq<(Seq<char>, Seq<char>)>,
    key: Seq<char>,
) -> bool {
    &&& bs.len() <= us.len()
    &&& forall|i: int| 0 <= i < bs.len() ==> (#[trigger] us[i]).0 == bs[i].0
    &&& forall|i: int|
        0 <= i < bs.len() && (#[trigger] us[i]).0 == key ==> text::trimmed_end(us[i].1)
            == text::trimmed_end(bs[i].1)
    &&& forall|i: int| bs.len() <= i < us.len() ==> (#[trigger] us[i]).0 != key
}

proof fn lemma_alike(a: Seq<char>, b: Seq<char>)
    requires
        alike(blocks::blocks_of(a), blocks::blocks_of(b), default_model::DEFAULT_BLOCK@),
    ensures
        text::trimmed_end(default_model::saved_default(b)) == text::trimmed_end(
            default_model::saved_default(a),
        ),
{
    let key = default_model::DEFAULT_BLOCK@;
    let bs = blocks::blocks_of(a);
    let us = blocks::blocks_of(b);
    default_model::lemma_block_at(bs, key);
    default_model::lemma_block_at(us, key);
    let n = default_model::block_at(bs, key);
    let m = default_model::block_at(us, key);
    if n < bs.len() {
        assert(us[n].0 == bs[n].0);
        assert(m <= n);
        assert(us[m].0 == bs[m].0);
        assert(m == n);
    } else if m < us.len() {
        assert(us[m].0 == key);
        assert(m < bs.len());
        assert(bs[m].0 == key);
    }
}

proof fn lemma_alike_replaced(
    settings: Seq<char>,
    proxy: Seq<char>,
    models: Seq<(Seq<char>, Seq<char>)>,
)
    requires
        provider_laws::no_nl(proxy),
        provider_laws::plain_models(models),
        provider_laws::has_providers(settings),
    ensures
        alike(
            blocks::blocks_of(settings),
            blocks::blocks_of(provider::with_provider(settings, proxy, models)),
            default_model::DEFAULT_BLOCK@,
        ),
{
    let key = default_model::DEFAULT_BLOCK@;
    let bs = blocks::blocks_of(settings);
    let us = blocks::blocks_of(provider::with_provider(settings, proxy, models));
    let f = provider::upserting(proxy, models);
    let nl = seq!['\n'];
    default_laws::lemma_keys();
    let cs = if provider_laws::hanging(settings) {
        provider_laws::lemma_remove_hanging(settings, proxy, models);
        bs
    } else {
        provider_laws::law_write_keeps_blocks(settings, proxy, models);
        blocks::blocks_of(lines::with_nl(settings))
    };
    assert(us == blocks::mapped(cs, f));
    assert(text::blank(nl));
    if cs != bs {
        assert(settings.push('\n') == settings + nl);
        blocks::lemma_blocks_white(settings, nl);
    }
    assert(cs.len() == bs.len());
    assert forall|i: int| 0 <= i < bs.len() implies (#[trigger] us[i]).0 == bs[i].0 by {
        assert(cs[i].0 == bs[i].0);
    }
    assert forall|i: int| 0 <= i < bs.len() && (#[trigger] us[i]).0 == key implies text::trimmed_end(
        us[i].1,
    ) == text::trimmed_end(bs[i].1) by {
        assert(us[i] == (cs[i].0, f(cs[i].0, cs[i].1)));
        assert(us[i].1 == lines::with_nl(cs[i].1));
        lemma_trimmed_tidied(cs[i].1);
        text::lemma_trimmed_white(bs[i].1, nl);
        assert(cs[i].1 == bs[i].1 || cs[i].1 == bs[i].1 + nl);
    }
}

proof fn lemma_alike_added(
    settings: Seq<char>,
    proxy: Seq<char>,
    models: Seq<(Seq<char>, Seq<char>)>,
)
    requires
        provider_laws::no_nl(proxy),
        provider_laws::plain_models(models),
        !provider_laws::has_providers(settings),
    ensures
        alike(
            blocks::blocks_of(settings),
            blocks::blocks_of(provider::with_provider(settings, proxy, models)),
            default_model::DEFAULT_BLOCK@,
        ),
{
    let bs = blocks::blocks_of(settings);
    let us = blocks::blocks_of(provider::with_provider(settings, proxy, models));
    default_laws::lemma_keys();
    provider_laws::lemma_section_text(proxy, models);
    let other = provider::PROVIDERS_BLOCK@;
    let section = provider::section_text(proxy, models);
    blocks::lemma_appended(settings, other, section);
    let body = text::trimmed_end(settings);
    let w = text::lemma_trimmed_rest(settings);
    blocks::lemma_blocks_white(body, w);
    let bb = blocks::blocks_of(body);
    let nn = seq!['\n', '\n'];
    assert(text::blank(nn));
    if body.len() > 0 {
        blocks::lemma_blocks_white(body, nn);
    }
    let ts = blocks::blocks_of(blocks::body_of(settings));
    assert(us == ts.push((other, blocks::tidied(section))));
    assert(ts.len() == bs.len());
    assert forall|i: int| 0 <= i < bs.len() implies (#[trigger] us[i]).0 == bs[i].0
        && text::trimmed_end(us[i].1) == text::trimmed_end(bs[i].1) by {
        assert(us[i] == ts[i]);
        if i == bs.len() - 1 {
            text::lemma_trimmed_white(bb[i].1, w);
            text::lemma_trimmed_white(bb[i].1, nn);
        }
    }
}

/// A write leaves the default model as it is, up to white space at the end.
pub proof fn law_write_keeps_default(
    settings: Seq<char>,
    proxy: Seq<char>,
    models: Seq<(Seq<char>, Seq<char>)>,
)
    requires
        provider_laws::no_nl(proxy),
        provider_laws::plain_models(models),
    ensures
        text::trimmed_end(
            default_model::saved_default(provider::with_provider(settings, proxy, models)),
        ) == text::trimmed_end(default_model::saved_default(settings)),
{
    if provider_laws::has_providers(settings) {
        lemma_alike_replaced(settings, proxy, models);
    } else {
        lemma_alike_added(settings, proxy, models);
    }
    lemma_alike(settings, provider::with_provider(settings, proxy, models));
}

} // verus!
