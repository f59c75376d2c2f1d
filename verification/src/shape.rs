//! Shapes of a settings file, told by its chars, and the lines and blocks that they have.

use vstd::prelude::*;

use crate::blocks;
use crate::give_back;
use crate::held;
use crate::lines;
use crate::provider;
use crate::provider_laws;
use crate::setup_laws;
use crate::text;
use crate::text_laws;

verus! {

/// A line of `t` starts at `i`.
pub open spec fn line_start(t: Seq<char>, i: int) -> bool {
    0 <= i < t.len() && (i == 0 || t[i - 1] == '\n')
}

/// Whole lines, each empty or indented.
pub open spec fn spaced(t: Seq<char>) -> bool {
    &&& t.len() == 0 || t.last() == '\n'
    &&& forall|i: int| #[trigger] line_start(t, i) ==> t[i] == ' ' || t[i] == '\n'
}

/// Whole lines, each empty or indented, and none by four spaces alone.
pub open spec fn deeper(t: Seq<char>) -> bool {
    &&& t.len() == 0 || t.last() == '\n'
    &&& forall|i: int|
        #[trigger] line_start(t, i) ==> t[i] == '\n' || (t[i] == ' ' && !(i + 4 < t.len() && t[i
            + 1] == ' ' && t[i + 2] == ' ' && t[i + 3] == ' ' && t[i + 4] != ' '))
}

/// A line of four spaces, a word, `:` and anything, and the lines that belong to it.
pub open spec fn entry(w: Seq<char>, v: Seq<char>, d: Seq<char>) -> Seq<char> {
    "    "@ + w + ":"@ + v + "\n"@ + d
}

pub open spec fn good_entry(w: Seq<char>, v: Seq<char>, d: Seq<char>) -> bool {
    text_laws::word(w) && text_laws::unbroken(v) && deeper(d)
}

/// The lines that open the providers: `llm-pi-ai:`, what stands under it, `  providers:`.
pub open spec fn opening(u: Seq<char>, m: Seq<char>, sp: Seq<char>) -> Seq<char> {
    "llm-pi-ai:"@ + u + "\n"@ + m + ("  providers:"@ + sp + "\n"@)
}

pub open spec fn good_opening(u: Seq<char>, m: Seq<char>, sp: Seq<char>) -> bool {
    &&& text_laws::unbroken(u)
    &&& spaced(m)
    &&& !text_laws::inside(m, "  providers:"@)
    &&& text::blank(sp)
    &&& text_laws::unbroken(sp)
}

/// Nothing, or text that starts with a key at the line's start.
pub open spec fn opens(post: Seq<char>) -> bool {
    post.len() == 0 || exists|k: Seq<char>, r: Seq<char>|
        text_laws::word(k) && post == #[trigger] (k + ":"@ + r)
}

/// Nothing, or whole lines.
pub open spec fn whole(pre: Seq<char>) -> bool {
    pre.len() == 0 || pre.last() == '\n'
}

/// Where a line stands.
pub proof fn lemma_line_at(t: Seq<char>, n: int) -> (i: int)
    requires
        0 <= n < lines::lines_of(t).len(),
    ensures
        line_start(t, i),
        i + lines::lines_of(t)[n].len() <= t.len(),
        lines::lines_of(t)[n] == t.subrange(i, i + lines::lines_of(t)[n].len()),
        lines::lines_of(t)[n].len() > 0,
{
    let ls = lines::lines_of(t);
    lines::lemma_lines_of(t);
    lines::lemma_joined_split(ls, n);
    let a = ls.take(n);
    let b = ls.skip(n);
    let i = lines::joined(a).len() as int;
    assert(lines::ended_lines(a)) by {
        assert forall|j: int| 0 <= j < a.len() implies lines::one_line(#[trigger] a[j])
            && lines::ended(a[j]) by {
            assert(a[j] == ls[j]);
        }
    }
    lines::lemma_joined_ended(a);
    assert(lines::one_line(ls[n]));
    assert(lines::joined(b) == b[0] + lines::joined(b.skip(1)));
    assert(b[0] == ls[n]);
    assert(t.subrange(i, i + ls[n].len()) == ls[n]);
    if i > 0 {
        assert(t[i - 1] == lines::joined(a).last());
    }
    i
}

pub open spec fn plain_line(l: Seq<char>) -> bool {
    l.len() > 0 && (l[0] == ' ' || l == seq!['\n'])
}

pub proof fn lemma_plain_line(l: Seq<char>)
    requires
        plain_line(l),
    ensures
        blocks::key_of(l) is None,
        !provider::stops(l),
{
    if l[0] == ' ' {
        provider_laws::lemma_space_line(l);
    } else {
        setup_laws::lemma_white_line('\n');
        text::lemma_cut_unique(l, ':', 1);
    }
}

pub proof fn lemma_spaced(t: Seq<char>)
    requires
        spaced(t),
    ensures
        lines::ended_lines(lines::lines_of(t)),
        forall|n: int|
            0 <= n < lines::lines_of(t).len() ==> plain_line(#[trigger] lines::lines_of(t)[n]),
{
    let ls = lines::lines_of(t);
    lines::lemma_lines_of(t);
    assert forall|n: int| 0 <= n < ls.len() implies plain_line(#[trigger] ls[n]) by {
        let i = lemma_line_at(t, n);
        assert(ls[n][0] == t[i]);
        assert(lines::one_line(ls[n]));
        if t[i] == '\n' {
            assert(ls[n].len() == 1);
            assert(ls[n] == seq!['\n']);
        }
    }
}

pub proof fn lemma_deeper(t: Seq<char>)
    requires
        deeper(t),
    ensures
        spaced(t),
        forall|n: int|
            0 <= n < lines::lines_of(t).len() ==> blocks::child_key(
                #[trigger] lines::lines_of(t)[n],
            ) is None,
{
    let ls = lines::lines_of(t);
    lines::lemma_lines_of(t);
    lemma_spaced(t);
    assert forall|n: int| 0 <= n < ls.len() implies blocks::child_key(#[trigger] ls[n]) is None by {
        let i = lemma_line_at(t, n);
        assert(ls[n][0] == t[i]);
        assert(plain_line(ls[n]));
        if t[i] != '\n' && blocks::indented(ls[n]) {
            let l = ls[n];
            assert(lines::one_line(l) && lines::ended(l));
            assert(l.last() == '\n');
            assert(l.len() > 4);
            assert(l[1] == t[i + 1] && l[2] == t[i + 2] && l[3] == t[i + 3] && l[4] == t[i + 4]);
            let r = l.skip(4);
            assert(r[0] == t[i + 4]);
            provider_laws::lemma_space_line(r);
        }
    }
}

/// Whole lines behind one another.
pub proof fn lemma_spaced_add(a: Seq<char>, b: Seq<char>)
    requires
        spaced(a),
        spaced(b),
    ensures
        spaced(a + b),
{
    let t = a + b;
    assert forall|i: int| #[trigger] line_start(t, i) implies t[i] == ' ' || t[i] == '\n' by {
        if i < a.len() {
            assert(line_start(a, i));
        } else {
            assert(line_start(b, i - a.len()));
        }
    }
}

pub proof fn lemma_entry(w: Seq<char>, v: Seq<char>, d: Seq<char>)
    requires
        good_entry(w, v, d),
    ensures
        spaced(entry(w, v, d)),
        lines::lines_of(entry(w, v, d)).len() > 0,
        blocks::child_key(lines::lines_of(entry(w, v, d))[0]) == Some(w),
        forall|n: int|
            1 <= n < lines::lines_of(entry(w, v, d)).len() ==> blocks::child_key(
                #[trigger] lines::lines_of(entry(w, v, d))[n],
            ) is None,
{
    reveal_strlit("    ");
    reveal_strlit(":");
    reveal_strlit("\n");
    let l = "    "@ + w + ":"@ + v;
    let line = l.push('\n');
    let t = entry(w, v, d);
    assert(text_laws::unbroken(l)) by {
        assert forall|i: int| 0 <= i < l.len() implies #[trigger] l[i] != '\n' by {
            if 4 <= i < 4 + w.len() {
                assert(l[i] == w[i - 4]);
            } else if i > 4 + w.len() {
                assert(l[i] == v[i - 5 - w.len()]);
            }
        }
    }
    assert(t == line + d);
    text_laws::law_lines(l, d);
    lemma_deeper(d);
    let r = line.skip(4);
    assert(r.take(w.len() as int) == w);
    assert forall|i: int| 0 <= i < w.len() implies r[i] != ':' by {
        assert(r[i] == w[i]);
    }
    assert(r[w.len() as int] == ':');
    text::lemma_cut_unique(r, ':', w.len() as int);
    assert(blocks::key_text(w)) by {
        assert forall|i: int| 0 <= i < w.len() implies blocks::key_char(#[trigger] w[i]) by {}
    }
    assert(blocks::key_of(r) == Some(w));
    assert(blocks::indented(line));
    let ls = lines::lines_of(t);
    assert(ls[0] == line);
    assert forall|n: int| 1 <= n < ls.len() implies blocks::child_key(#[trigger] ls[n]) is None by {
        assert(ls[n] == lines::lines_of(d)[n - 1]);
    }
    assert(spaced(line)) by {
        assert forall|i: int| #[trigger] line_start(line, i) implies line[i] == ' ' || line[i]
            == '\n' by {
            if i > 0 {
                assert(l[i - 1] != '\n');
            }
        }
    }
    lemma_spaced_add(line, d);
}

pub proof fn lemma_kept_add(a: Seq<Seq<char>>, b: Seq<Seq<char>>, o: Option<Seq<char>>)
    ensures
        provider::kept(a + b, o) == provider::kept(a, o) + provider::kept(
            b,
            provider_laws::last_owner(a, o),
        ),
    decreases a.len(),
{
    if a.len() == 0 {
        assert(a + b == b);
    } else {
        let x = provider::owner_of(a[0], o);
        lemma_kept_add(a.skip(1), b, x);
        assert((a + b).skip(1) == a.skip(1) + b);
    }
}

/// The lines of an entry with another key than the gateway's are all kept.
pub proof fn lemma_kept_entry(w: Seq<char>, v: Seq<char>, d: Seq<char>, o: Option<Seq<char>>)
    requires
        good_entry(w, v, d),
        w != "ais-codex"@,
    ensures
        provider::kept(lines::lines_of(entry(w, v, d)), o) == lines::lines_of(entry(w, v, d)),
{
    lemma_entry(w, v, d);
    let ls = lines::lines_of(entry(w, v, d));
    let rest = ls.skip(1);
    assert forall|n: int| 0 <= n < rest.len() implies blocks::child_key(#[trigger] rest[n]) != Some(
        provider::PROVIDER_ID@,
    ) by {
        assert(rest[n] == ls[n + 1]);
    }
    give_back::lemma_all_kept(rest, Some(w));
    assert(seq![ls[0]] + rest == ls);
}

/// The lines of the gateway's entry are all dropped.
pub proof fn lemma_dropped_entry(v: Seq<char>, d: Seq<char>, o: Option<Seq<char>>)
    requires
        good_entry("ais-codex"@, v, d),
    ensures
        provider::kept(lines::lines_of(entry("ais-codex"@, v, d)), o).len() == 0,
{
    lemma_entry("ais-codex"@, v, d);
    let ls = lines::lines_of(entry("ais-codex"@, v, d));
    let rest = ls.skip(1);
    assert forall|n: int| 0 <= n < rest.len() implies blocks::child_key(#[trigger] rest[n]) is None
        by {
        assert(rest[n] == ls[n + 1]);
    }
    provider_laws::lemma_kept_plain(rest, Seq::empty(), Some("ais-codex"@));
    assert(rest + Seq::<Seq<char>>::empty() == rest);
}

/// Whole lines, each of which is a comment from its start on.
pub open spec fn commented(z: Seq<char>) -> bool {
    &&& z.len() == 0 || z.last() == '\n'
    &&& forall|i: int| #[trigger] line_start(z, i) ==> z[i] == '#'
}

proof fn lemma_commented(z: Seq<char>)
    requires
        commented(z),
    ensures
        lines::ended_lines(lines::lines_of(z)),
        forall|n: int|
            0 <= n < lines::lines_of(z).len() ==> blocks::key_of(
                #[trigger] lines::lines_of(z)[n],
            ) is None && provider::stops(lines::lines_of(z)[n]),
{
    let ls = lines::lines_of(z);
    lines::lemma_lines_of(z);
    assert forall|n: int| 0 <= n < ls.len() implies blocks::key_of(#[trigger] ls[n]) is None
        && provider::stops(ls[n]) by {
        let l = ls[n];
        let i = lemma_line_at(z, n);
        assert(l[0] == z[i]);
        text::lemma_cut(l, ':');
        let c = text::cut(l, ':');
        if c < l.len() {
            assert(c > 0);
            assert(l.take(c)[0] == '#');
            assert(!blocks::key_char(l.take(c)[0]));
        }
        assert(!text::white(l[0]));
    }
}

/// The block of the providers, with what stands in it and the comments behind that.
pub proof fn lemma_opening(
    u: Seq<char>,
    m: Seq<char>,
    sp: Seq<char>,
    body: Seq<char>,
    z: Seq<char>,
)
    requires
        good_opening(u, m, sp),
        spaced(body),
        commented(z),
    ensures
        ({
            let t = opening(u, m, sp) + (body + z);
            let ls = lines::lines_of(t);
            &&& provider_laws::providers_block(t)
            &&& provider::providers_at(ls) < ls.len()
            &&& lines::joined(provider::before_entries(ls)) == opening(u, m, sp)
            &&& provider::other_entries(ls) == provider::kept(lines::lines_of(body), None)
            &&& lines::joined(provider::after_entries(ls)) == z
        }),
{
    reveal_strlit("llm-pi-ai:");
    reveal_strlit("  providers:");
    reveal_strlit("\n");
    let key = provider::PROVIDERS_BLOCK@;
    reveal_strlit("llm-pi-ai");
    let l0 = ("llm-pi-ai:"@ + u).push('\n');
    let pl = "  providers:"@ + sp;
    let lp = pl.push('\n');
    assert(lp == "  providers:"@ + sp + "\n"@);
    assert(text_laws::unbroken(pl)) by {
        assert forall|i: int| 0 <= i < pl.len() implies #[trigger] pl[i] != '\n' by {
            if i >= 12 {
                assert(pl[i] == sp[i - 12]);
            }
        }
    }
    let h = opening(u, m, sp);
    let t = h + (body + z);
    assert(text_laws::unbroken("llm-pi-ai:"@ + u)) by {
        let l = "llm-pi-ai:"@ + u;
        assert forall|i: int| 0 <= i < l.len() implies #[trigger] l[i] != '\n' by {
            if i >= 10 {
                assert(l[i] == u[i - 10]);
            }
        }
    }
    assert(h == l0 + m + lp);
    assert(t == l0 + (m + (lp + (body + z))));
    text_laws::law_lines("llm-pi-ai:"@ + u, m + (lp + (body + z)));
    lines::lemma_lines_add(m, lp + (body + z));
    text_laws::law_lines(pl, body + z);
    lines::lemma_lines_add(body, z);
    let lm = lines::lines_of(m);
    let lb = lines::lines_of(body);
    let lz = lines::lines_of(z);
    let ls = lines::lines_of(t);
    assert(ls == seq![l0] + (lm + (seq![lp] + (lb + lz))));
    lemma_spaced(m);
    lemma_spaced(body);
    lemma_commented(z);
    let n = 1 + lm.len() as int;
    assert(ls[n] == lp);
    // The key line.
    assert(l0.take(9) == key);
    text::lemma_cut_unique(l0, ':', 9);
    assert(blocks::key_text(key));
    assert(blocks::key_of(l0) == Some(key));
    provider_laws::lemma_space_line(lp);
    assert forall|i: int| 1 <= i < ls.len() implies blocks::key_of(#[trigger] ls[i]) is None by {
        if i < n {
            assert(ls[i] == lm[i - 1]);
            lemma_plain_line(ls[i]);
        } else if i > n {
            let k = i - n - 1;
            if k < lb.len() {
                assert(ls[i] == lb[k]);
                lemma_plain_line(ls[i]);
            } else {
                assert(ls[i] == lz[k - lb.len()]);
            }
        }
    }
    assert(ls[0] == l0);
    assert(lines::ended(t)) by {
        if z.len() > 0 {
            assert(t.last() == z.last());
        } else if body.len() > 0 {
            assert(t.last() == body.last());
        } else {
            assert(t.last() == lp.last());
        }
    }
    // The providers line.
    assert forall|i: int| 12 <= i < lp.len() implies text::white(#[trigger] lp[i]) by {
        if i < pl.len() {
            assert(lp[i] == sp[i - 12]);
        }
    }
    text::lemma_trimmed_end_unique(lp, 12);
    assert(lp.take(12) == "  providers:"@);
    assert(provider::is_providers_line(lp));
    assert forall|i: int| 0 <= i < n implies !provider::is_providers_line(#[trigger] ls[i]) by {
        text::lemma_trimmed_end(ls[i]);
        if provider::is_providers_line(ls[i]) {
            assert(ls[i].take(12) == "  providers:"@);
            assert(ls[i][0] == "  providers:"@[0]);
            if i > 0 {
                assert(ls[i] == lm[i - 1]);
                let j = lemma_line_at(m, i - 1);
                assert(m == m.take(j) + "  providers:"@ + m.skip(j + 12)) by {
                    assert(m.subrange(j, j + 12) == ls[i].take(12));
                }
                text_laws::lemma_inside(m.take(j), "  providers:"@, m.skip(j + 12));
            }
        }
    }
    provider::lemma_providers_at_unique(ls, n);
    let before = ls.take(n + 1);
    assert(before == seq![l0] + lm + seq![lp]);
    lines::lemma_joined_add(seq![l0] + lm, seq![lp]);
    lines::lemma_joined_add(seq![l0], lm);
    lines::lemma_joined_one(l0);
    lines::lemma_joined_one(lp);
    lines::lemma_lines_of(m);
    let rest = ls.skip(n + 1);
    assert(rest == lb + lz);
    let k = lb.len() as int;
    assert forall|i: int| 0 <= i < k implies !provider::stops(#[trigger] rest[i]) by {
        assert(rest[i] == lb[i]);
        lemma_plain_line(rest[i]);
    }
    if k < rest.len() {
        assert(rest[k] == lz[0]);
    }
    provider::lemma_run_len_unique(rest, k);
    assert(rest.take(k) == lb);
    assert(rest.skip(k) == lz);
    lines::lemma_lines_of(z);
}

/// Blocks behind whole lines are added to theirs.
pub proof fn lemma_blocks_behind(a: Seq<char>, bs: Seq<(Seq<char>, Seq<char>)>)
    requires
        lines::ended(a),
        blocks::all_keyed(bs),
    ensures
        blocks::blocks_of(a + blocks::render(bs)) == blocks::blocks_of(a) + bs,
    decreases bs.len(),
{
    if bs.len() == 0 {
        assert(a + blocks::render(bs) == a);
        assert(blocks::blocks_of(a) + bs == blocks::blocks_of(a));
    } else {
        let init = bs.drop_last();
        let x = bs.last();
        assert(bs == init + seq![x]);
        assert forall|i: int| 0 <= i < init.len() implies blocks::keyed(
            (#[trigger] init[i]).0,
            init[i].1,
        ) && lines::ended(init[i].1) by {
            assert(init[i] == bs[i]);
        }
        lemma_blocks_behind(a, init);
        blocks::lemma_render_add(init, seq![x]);
        blocks::lemma_render_one(x);
        blocks::lemma_render_ended(init);
        let s = a + blocks::render(init);
        assert(lines::ended(s)) by {
            if blocks::render(init).len() == 0 {
                assert(s == a);
            } else {
                assert(s.last() == blocks::render(init).last());
            }
        }
        blocks::lemma_blocks_add(s, x.0, x.1);
        assert(a + blocks::render(bs) == s + x.1);
        assert((blocks::blocks_of(a) + init).push(x) == blocks::blocks_of(a) + bs);
    }
}

/// Text that opens with a key is all blocks.
pub proof fn lemma_opens(post: Seq<char>)
    requires
        opens(post),
    ensures
        blocks::all_keyed(blocks::blocks_of(post)),
        blocks::render(blocks::blocks_of(post)) == post,
        post.len() > 0 ==> blocks::blocks_of(post).len() > 0,
{
    lines::lemma_lines_of(post);
    let ls = lines::lines_of(post);
    if post.len() > 0 {
        let (k, r) = choose|k: Seq<char>, r: Seq<char>|
            text_laws::word(k) && post == #[trigger] (k + ":"@ + r);
        reveal_strlit(":");
        let l = ls[0];
        assert(lines::joined(ls) == l + lines::joined(ls.skip(1)));
        assert(lines::one_line(l));
        assert forall|i: int| 0 <= i < k.len() implies k[i] != ':' && k[i] != '\n' by {}
        let n = k.len() as int;
        assert forall|i: int| 0 <= i < l.len() implies l[i] == post[i] by {}
        assert(l.len() > n) by {
            if l.len() <= n {
                if lines::joined(ls.skip(1)).len() == 0 {
                    assert(post.len() == l.len());
                } else {
                    assert(ls.len() > 1) by {
                        if ls.len() <= 1 {
                            assert(ls.skip(1).len() == 0);
                        }
                    }
                    assert(lines::ended(ls[0]));
                    assert(l.last() == k[l.len() - 1]);
                }
            }
        }
        assert forall|i: int| 0 <= i < n implies l[i] != ':' by {
            assert(l[i] == k[i]);
        }
        assert(l[n] == ':');
        text::lemma_cut_unique(l, ':', n);
        assert(l.take(n) == k);
        assert forall|i: int| 0 <= i < k.len() implies blocks::key_char(#[trigger] k[i]) by {}
        assert(blocks::key_of(l) == Some(k));
    }
    assert(blocks::plain_len(ls) == 0);
    assert(ls.skip(0) == ls);
    assert(ls.take(0).len() == 0);
    assert(blocks::head_of(post).len() == 0);
    blocks::lemma_key_blocks(ls);
}

/// Text with a block of a key holds the key and `:`.
pub proof fn lemma_key_inside(s: Seq<char>, key: Seq<char>)
    requires
        key.len() > 0,
        blocks::has_block(blocks::blocks_of(s), key),
    ensures
        text_laws::inside(s, key + ":"@),
{
    let bs = blocks::blocks_of(s);
    let i = choose|i: int| 0 <= i < bs.len() && (#[trigger] bs[i]).0 == key;
    let t = bs[i].1;
    blocks::lemma_blocks_of(s);
    assert(blocks::keyed(key, t));
    lines::lemma_lines_of(t);
    let l = lines::lines_of(t)[0];
    text::lemma_cut(l, ':');
    reveal_strlit(":");
    let n = text::cut(l, ':');
    assert(l == Seq::<char>::empty() + (key + ":"@) + l.skip(n + 1));
    text_laws::lemma_inside(Seq::empty(), key + ":"@, l.skip(n + 1));
    let more = lines::joined(lines::lines_of(t).skip(1));
    assert(t == l + more);
    text_laws::lemma_inside_more(Seq::empty(), l, more, key + ":"@);
    assert(held::held(s, key, key + ":"@));
    held::lemma_held_inside(s, key, key + ":"@);
}

/// The blocks of a text that is put together from whole lines, a block and text that opens
/// with a key.
pub proof fn lemma_blocks_around(
    pre: Seq<char>,
    key: Seq<char>,
    t: Seq<char>,
    post: Seq<char>,
) -> (n: int)
    requires
        whole(pre),
        blocks::keyed(key, t),
        lines::ended(t),
        opens(post),
    ensures
        n == blocks::blocks_of(pre).len(),
        blocks::blocks_of(pre + t + post) == blocks::blocks_of(pre) + seq![(key, t)]
            + blocks::blocks_of(post),
        n < blocks::blocks_of(pre + t + post).len() - 1 || lines::ended(pre + t + post),
{
    blocks::lemma_blocks_add(pre, key, t);
    lemma_opens(post);
    let a = pre + t;
    lines::lemma_lines_of(t);
    assert(t.len() > 0);
    assert(a.last() == t.last());
    lemma_blocks_behind(a, blocks::blocks_of(post));
    let bs = blocks::blocks_of(pre);
    assert(bs.push((key, t)) == bs + seq![(key, t)]);
    if post.len() == 0 {
        assert(pre + t + post == a);
    }
    bs.len() as int
}

/// The text does not start with white space.
pub open spec fn flush(pre: Seq<char>) -> bool {
    pre.len() == 0 || !text::white(pre[0])
}

proof fn lemma_flush(pre: Seq<char>)
    requires
        flush(pre),
    ensures
        blocks::render(blocks::blocks_of(pre)) == pre,
{
    blocks::lemma_blocks_of(pre);
    blocks::lemma_head(pre);
    let h = blocks::head_of(pre);
    if text::blank(h) {
        if h.len() > 0 {
            assert(h[0] == pre[0]);
        }
        assert(pre.skip(0) == pre);
    }
}

proof fn lemma_ended_last(bs: Seq<(Seq<char>, Seq<char>)>)
    requires
        blocks::all_keyed(bs),
    ensures
        bs.len() > 0 ==> lines::with_nl(blocks::render(bs)) == blocks::render(bs.drop_last())
            + lines::with_nl(bs.last().1),
{
    if bs.len() > 0 {
        let x = bs.last();
        assert(bs == bs.drop_last() + seq![x]);
        blocks::lemma_render_add(bs.drop_last(), seq![x]);
        blocks::lemma_render_one(x);
        lines::lemma_lines_of(x.1);
        assert(x.1.len() > 0);
        let r = blocks::render(bs.drop_last());
        assert((r + x.1).last() == x.1.last());
        assert((r + x.1).push('\n') == r + x.1.push('\n'));
    }
}

/// A change to one block leaves the text around it.
pub proof fn lemma_mapped_around(
    pre: Seq<char>,
    key: Seq<char>,
    t: Seq<char>,
    post: Seq<char>,
    f: spec_fn(Seq<char>, Seq<char>) -> Seq<char>,
)
    requires
        whole(pre),
        flush(pre),
        blocks::keyed(key, t),
        lines::ended(t),
        opens(post),
        key.len() > 0,
        !text_laws::inside(pre, key + ":"@),
        !text_laws::inside(post, key + ":"@),
        forall|k: Seq<char>, x: Seq<char>| k != key ==> #[trigger] f(k, x) == lines::with_nl(x),
    ensures
        blocks::render(blocks::mapped(blocks::blocks_of(pre + t + post), f)) == pre + f(key, t)
            + lines::with_nl(post),
        blocks::has_block(blocks::blocks_of(pre + t + post), key),
        blocks::blocks_of(pre + t + post) == blocks::blocks_of(pre) + seq![(key, t)]
            + blocks::blocks_of(post),
        forall|i: int|
            0 <= i < blocks::blocks_of(pre).len() ==> (#[trigger] blocks::blocks_of(pre)[i]).0
                != key,
        forall|i: int|
            0 <= i < blocks::blocks_of(post).len() ==> (#[trigger] blocks::blocks_of(post)[i]).0
                != key,
{
    let a = blocks::blocks_of(pre);
    let b = blocks::blocks_of(post);
    let n = lemma_blocks_around(pre, key, t, post);
    let bs = blocks::blocks_of(pre + t + post);
    assert(bs[n] == (key, t));
    if blocks::has_block(a, key) {
        lemma_key_inside(pre, key);
    }
    if blocks::has_block(b, key) {
        lemma_key_inside(post, key);
    }
    lemma_flush(pre);
    lemma_opens(post);
    blocks::lemma_blocks_of(pre);
    let ma = blocks::mapped(a, f);
    assert forall|i: int| 0 <= i < a.len() implies #[trigger] ma[i] == a[i] by {
        assert(a[i].0 != key);
    }
    assert(ma == a);
    let mb = blocks::mapped(b, f);
    if b.len() > 0 {
        lemma_ended_last(b);
        let mi = mb.drop_last();
        assert(b.last().0 != key);
        assert forall|i: int| 0 <= i < mi.len() implies #[trigger] mi[i] == b.drop_last()[i] by {
            assert(b[i].0 != key);
        }
        assert(mi == b.drop_last());
        assert(mb == mi + seq![mb.last()]);
        blocks::lemma_render_add(mi, seq![mb.last()]);
        blocks::lemma_render_one(mb.last());
    } else {
        assert(mb == b);
    }
    let ms = blocks::mapped(bs, f);
    assert(ms == ma + seq![(key, f(key, t))] + mb);
    blocks::lemma_render_add(ma + seq![(key, f(key, t))], mb);
    blocks::lemma_render_add(ma, seq![(key, f(key, t))]);
    blocks::lemma_render_one((key, f(key, t)));
}

} // verus!
