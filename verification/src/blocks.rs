//! Top-level blocks of a settings text: a line with a key at its start opens a
//! block, which runs up to the next such line.

use vstd::prelude::*;

use crate::lines;
use crate::text;

verus! {

/// The chars that a key is made of.
pub open spec fn key_char(c: char) -> bool {
    ||| 'a' <= c <= 'z'
    ||| 'A' <= c <= 'Z'
    ||| '0' <= c <= '9'
    ||| c == '_'
    ||| c == '-'
}

pub open spec fn key_text(s: Seq<char>) -> bool {
    forall|i: int| 0 <= i < s.len() ==> key_char(#[trigger] s[i])
}

/// The key at the start of `line`: what stands before its first colon, where it has
/// one and only key chars stand before it.
pub open spec fn key_of(line: Seq<char>) -> Option<Seq<char>> {
    let n = text::cut(line, ':');
    if n < line.len() && key_text(line.take(n)) {
        Some(line.take(n))
    } else {
        None
    }
}

/// `line` starts with four spaces.
pub open spec fn indented(line: Seq<char>) -> bool {
    line.len() >= 4 && line[0] == ' ' && line[1] == ' ' && line[2] == ' ' && line[3] == ' '
}

/// The key of a line that is indented by exactly four spaces.
pub open spec fn child_key(line: Seq<char>) -> Option<Seq<char>> {
    if indented(line) {
        key_of(line.skip(4))
    } else {
        None
    }
}

/// The number of lines before the first one with a key.
pub open spec fn plain_len(ls: Seq<Seq<char>>) -> int
    decreases ls.len(),
{
    if ls.len() == 0 || key_of(ls[0]) is Some {
        0
    } else {
        1 + plain_len(ls.skip(1))
    }
}

pub proof fn lemma_plain_len(ls: Seq<Seq<char>>)
    ensures
        0 <= plain_len(ls) <= ls.len(),
        forall|i: int| 0 <= i < plain_len(ls) ==> key_of(#[trigger] ls[i]) is None,
        plain_len(ls) < ls.len() ==> key_of(ls[plain_len(ls)]) is Some,
    decreases ls.len(),
{
    if ls.len() > 0 && key_of(ls[0]) is None {
        let rest = ls.skip(1);
        lemma_plain_len(rest);
        assert forall|i: int| 0 <= i < plain_len(ls) implies key_of(#[trigger] ls[i]) is None by {
            if i > 0 {
                assert(ls[i] == rest[i - 1]);
            }
        }
    }
}

pub proof fn lemma_plain_len_unique(ls: Seq<Seq<char>>, n: int)
    requires
        0 <= n <= ls.len(),
        forall|i: int| 0 <= i < n ==> key_of(#[trigger] ls[i]) is None,
        n < ls.len() ==> key_of(ls[n]) is Some,
    ensures
        plain_len(ls) == n,
{
    lemma_plain_len(ls);
    let m = plain_len(ls);
    if m < n {
        assert(key_of(ls[m]) is None);
    } else if n < m {
        assert(key_of(ls[n]) is None);
    }
}

/// The blocks that `ls` holds, where its first line has a key: the key and the text
/// of each.
pub open spec fn key_blocks(ls: Seq<Seq<char>>) -> Seq<(Seq<char>, Seq<char>)>
    decreases ls.len(),
{
    if ls.len() == 0 {
        Seq::empty()
    } else {
        proof {
            lemma_plain_len(ls.skip(1));
        }
        let n = 1 + plain_len(ls.skip(1));
        seq![(key_of(ls[0])->0, lines::joined(ls.take(n)))] + key_blocks(ls.skip(n))
    }
}

/// What stands before the first line with a key.
pub open spec fn head_of(s: Seq<char>) -> Seq<char> {
    let ls = lines::lines_of(s);
    lines::joined(ls.take(plain_len(ls)))
}

/// The top-level blocks of a text. What stands before the first line with a key is a
/// block with the empty key, unless it is blank: then it is dropped.
pub open spec fn blocks_of(s: Seq<char>) -> Seq<(Seq<char>, Seq<char>)> {
    let ls = lines::lines_of(s);
    let rest = key_blocks(ls.skip(plain_len(ls)));
    if text::blank(head_of(s)) {
        rest
    } else {
        seq![(Seq::empty(), head_of(s))] + rest
    }
}

/// Some block has the key `key`.
pub open spec fn has_block(blocks: Seq<(Seq<char>, Seq<char>)>, key: Seq<char>) -> bool {
    exists|i: int| 0 <= i < blocks.len() && (#[trigger] blocks[i]).0 == key
}

/// The concatenation of the blocks' texts.
pub open spec fn render(blocks: Seq<(Seq<char>, Seq<char>)>) -> Seq<char> {
    lines::joined(blocks.map_values(|b: (Seq<char>, Seq<char>)| b.1))
}

/// The blocks with `f(key, text)` as their texts.
pub open spec fn mapped(
    blocks: Seq<(Seq<char>, Seq<char>)>,
    f: spec_fn(Seq<char>, Seq<char>) -> Seq<char>,
) -> Seq<(Seq<char>, Seq<char>)> {
    blocks.map_values(|b: (Seq<char>, Seq<char>)| (b.0, f(b.0, b.1)))
}

/// `text` opens with a line with the key `key` and has no other line with a key.
pub open spec fn keyed(key: Seq<char>, text: Seq<char>) -> bool {
    let ls = lines::lines_of(text);
    &&& ls.len() > 0
    &&& key_of(ls[0]) == Some(key)
    &&& forall|i: int| 1 <= i < ls.len() ==> key_of(#[trigger] ls[i]) is None
}

/// `text` is not blank and has no line with a key.
pub open spec fn headed(key: Seq<char>, text: Seq<char>) -> bool {
    let ls = lines::lines_of(text);
    &&& key == Seq::<char>::empty()
    &&& !text::blank(text)
    &&& forall|i: int| 0 <= i < ls.len() ==> key_of(#[trigger] ls[i]) is None
}

/// `blocks` are the blocks of some text.
pub open spec fn good_blocks(blocks: Seq<(Seq<char>, Seq<char>)>) -> bool {
    &&& forall|i: int|
        0 <= i < blocks.len() ==> keyed((#[trigger] blocks[i]).0, blocks[i].1) || (i == 0 && headed(
            blocks[i].0,
            blocks[i].1,
        ))
    &&& forall|i: int| 0 <= i < blocks.len() - 1 ==> lines::ended((#[trigger] blocks[i]).1)
}

pub open spec fn all_keyed(blocks: Seq<(Seq<char>, Seq<char>)>) -> bool {
    &&& forall|i: int| 0 <= i < blocks.len() ==> keyed((#[trigger] blocks[i]).0, blocks[i].1)
    &&& forall|i: int| 0 <= i < blocks.len() - 1 ==> lines::ended((#[trigger] blocks[i]).1)
}

/// A text without what stands before its first line with a key, where that is blank.
pub open spec fn without_blank_head(s: Seq<char>) -> Seq<char> {
    if text::blank(head_of(s)) {
        s.skip(head_of(s).len() as int)
    } else {
        s
    }
}

pub proof fn lemma_render_add(
    a: Seq<(Seq<char>, Seq<char>)>,
    b: Seq<(Seq<char>, Seq<char>)>,
)
    ensures
        render(a + b) == render(a) + render(b),
{
    let f = |b: (Seq<char>, Seq<char>)| b.1;
    assert((a + b).map_values(f) == a.map_values(f) + b.map_values(f));
    lines::lemma_joined_add(a.map_values(f), b.map_values(f));
}

pub proof fn lemma_render_one(b: (Seq<char>, Seq<char>))
    ensures
        render(seq![b]) == b.1,
{
    let f = |b: (Seq<char>, Seq<char>)| b.1;
    assert(seq![b].map_values(f) == seq![b.1]);
    lines::lemma_joined_one(b.1);
}

pub proof fn lemma_render_cons(b: (Seq<char>, Seq<char>), rest: Seq<(Seq<char>, Seq<char>)>)
    ensures
        render(seq![b] + rest) == b.1 + render(rest),
{
    lemma_render_add(seq![b], rest);
    lemma_render_one(b);
}

/// A part of well-formed lines is well formed.
proof fn lemma_good_part(ls: Seq<Seq<char>>, a: int, b: int)
    requires
        lines::good_lines(ls),
        0 <= a <= b <= ls.len(),
    ensures
        lines::good_lines(ls.subrange(a, b)),
        lines::lines_of(lines::joined(ls.subrange(a, b))) == ls.subrange(a, b),
        b < ls.len() ==> lines::ended(lines::joined(ls.subrange(a, b))),
{
    let part = ls.subrange(a, b);
    assert forall|i: int| 0 <= i < part.len() implies lines::one_line(#[trigger] part[i]) by {
        assert(part[i] == ls[a + i]);
    }
    assert forall|i: int| 0 <= i < part.len() - 1 implies lines::ended(#[trigger] part[i]) by {
        assert(part[i] == ls[a + i]);
    }
    lines::lemma_lines_of_joined(part);
    if b < ls.len() {
        assert forall|i: int| 0 <= i < part.len() implies lines::one_line(#[trigger] part[i])
            && lines::ended(part[i]) by {
            assert(part[i] == ls[a + i]);
        }
        lines::lemma_joined_ended(part);
    }
}

pub proof fn lemma_key_blocks(ls: Seq<Seq<char>>)
    requires
        lines::good_lines(ls),
        ls.len() > 0 ==> key_of(ls[0]) is Some,
    ensures
        all_keyed(key_blocks(ls)),
        render(key_blocks(ls)) == lines::joined(ls),
        lines::ended(lines::joined(ls)) ==> forall|i: int|
            0 <= i < key_blocks(ls).len() ==> lines::ended((#[trigger] key_blocks(ls)[i]).1),
    decreases ls.len(),
{
    if ls.len() > 0 {
        lemma_plain_len(ls.skip(1));
        let n = 1 + plain_len(ls.skip(1));
        let part = ls.take(n);
        let rest = ls.skip(n);
        assert(part == ls.subrange(0, n));
        assert(rest == ls.subrange(n, ls.len() as int));
        lemma_good_part(ls, 0, n);
        lemma_good_part(ls, n, ls.len() as int);
        if rest.len() > 0 {
            assert(rest[0] == ls.skip(1)[n - 1]);
        }
        lemma_key_blocks(rest);
        let first = (key_of(ls[0])->0, lines::joined(part));
        assert(keyed(first.0, first.1)) by {
            assert forall|i: int| 1 <= i < part.len() implies key_of(#[trigger] part[i]) is None by {
                assert(part[i] == ls.skip(1)[i - 1]);
            }
        }
        let all = key_blocks(ls);
        assert(all == seq![first] + key_blocks(rest));
        assert forall|i: int| 0 <= i < all.len() implies keyed(
            (#[trigger] all[i]).0,
            all[i].1,
        ) by {
            if i > 0 {
                assert(all[i] == key_blocks(rest)[i - 1]);
            }
        }
        lemma_render_cons(first, key_blocks(rest));
        lines::lemma_joined_split(ls, n);
        if rest.len() == 0 {
            assert(key_blocks(rest).len() == 0);
            assert(lines::joined(rest).len() == 0);
            assert(lines::joined(ls) == first.1);
        } else {
            assert(lines::ended(first.1));
            lines::lemma_lines_of(lines::joined(rest));
            assert(lines::joined(rest).len() > 0);
            assert(lines::joined(ls).last() == lines::joined(rest).last());
        }
        assert forall|i: int| 0 <= i < all.len() - 1 implies lines::ended((#[trigger] all[i]).1) by {
            if i > 0 {
                assert(all[i] == key_blocks(rest)[i - 1]);
            }
        }
        if lines::ended(lines::joined(ls)) {
            assert forall|i: int| 0 <= i < all.len() implies lines::ended((#[trigger] all[i]).1) by {
                if i > 0 {
                    assert(all[i] == key_blocks(rest)[i - 1]);
                }
            }
        }
    }
}

/// The blocks of a text are well formed. Their concatenation is the text, without a
/// blank head.
pub proof fn lemma_blocks_of(s: Seq<char>)
    ensures
        good_blocks(blocks_of(s)),
        render(blocks_of(s)) == without_blank_head(s),
        lines::ended(s) ==> forall|i: int|
            0 <= i < blocks_of(s).len() ==> lines::ended((#[trigger] blocks_of(s)[i]).1),
{
    let ls = lines::lines_of(s);
    let h = plain_len(ls);
    lines::lemma_lines_of(s);
    lemma_plain_len(ls);
    let head = ls.take(h);
    let rest = ls.skip(h);
    assert(head == ls.subrange(0, h));
    assert(rest == ls.subrange(h, ls.len() as int));
    lemma_good_part(ls, 0, h);
    lemma_good_part(ls, h, ls.len() as int);
    lemma_key_blocks(rest);
    lines::lemma_joined_split(ls, h);
    assert(s == head_of(s) + lines::joined(rest));
    assert(s.skip(head_of(s).len() as int) == lines::joined(rest));
    if lines::ended(s) {
        if lines::joined(rest).len() > 0 {
            assert(s.last() == lines::joined(rest).last());
        }
        assert(lines::ended(lines::joined(rest)));
    }
    if !text::blank(head_of(s)) {
        let first = (Seq::<char>::empty(), head_of(s));
        lemma_render_cons(first, key_blocks(rest));
        let all = blocks_of(s);
        assert(all == seq![first] + key_blocks(rest));
        assert(headed(first.0, first.1)) by {
            assert forall|i: int| 0 <= i < head.len() implies key_of(#[trigger] head[i]) is None by {
                assert(head[i] == ls[i]);
            }
        }
        assert forall|i: int| 0 <= i < all.len() implies keyed((#[trigger] all[i]).0, all[i].1) || (
        i == 0 && headed(all[i].0, all[i].1)) by {
            if i > 0 {
                assert(all[i] == key_blocks(rest)[i - 1]);
            }
        }
        if rest.len() == 0 {
            assert(key_blocks(rest).len() == 0);
            assert(lines::joined(rest).len() == 0);
            assert(s == head_of(s));
        }
        assert forall|i: int| 0 <= i < all.len() - 1 implies lines::ended((#[trigger] all[i]).1) by {
            if i > 0 {
                assert(all[i] == key_blocks(rest)[i - 1]);
            } else {
                assert(rest.len() > 0);
            }
        }
        if lines::ended(s) {
            assert forall|i: int| 0 <= i < all.len() implies lines::ended((#[trigger] all[i]).1) by {
                if i > 0 {
                    assert(all[i] == key_blocks(rest)[i - 1]);
                } else if rest.len() == 0 {
                    assert(lines::ended(head_of(s)));
                }
            }
        }
    }
}

/// The head of a text is its beginning, and ends in a newline where something follows.
pub proof fn lemma_head(s: Seq<char>)
    ensures
        head_of(s).len() <= s.len(),
        head_of(s) == s.take(head_of(s).len() as int),
        head_of(s).len() < s.len() ==> lines::ended(head_of(s)),
{
    let ls = lines::lines_of(s);
    let h = plain_len(ls);
    lines::lemma_lines_of(s);
    lemma_plain_len(ls);
    lines::lemma_joined_split(ls, h);
    assert(ls.take(h) == ls.subrange(0, h));
    lemma_good_part(ls, 0, h);
    let rest = lines::joined(ls.skip(h));
    assert(s == head_of(s) + rest);
    assert(s.take(head_of(s).len() as int) == head_of(s));
    if h == ls.len() {
        assert(ls.skip(h).len() == 0);
        assert(rest.len() == 0);
    }
}

proof fn lemma_key_blocks_render(blocks: Seq<(Seq<char>, Seq<char>)>)
    requires
        all_keyed(blocks),
    ensures
        key_blocks(lines::lines_of(render(blocks))) == blocks,
        blocks.len() > 0 ==> lines::lines_of(render(blocks)).len() > 0 && key_of(
            lines::lines_of(render(blocks))[0],
        ) is Some,
        blocks.len() == 0 ==> render(blocks).len() == 0,
    decreases blocks.len(),
{
    if blocks.len() == 0 {
        assert(blocks.map_values(|b: (Seq<char>, Seq<char>)| b.1).len() == 0);
        assert(key_blocks(lines::lines_of(render(blocks))) == blocks);
    } else {
        let first = blocks[0];
        let rest = blocks.skip(1);
        assert(seq![first] + rest == blocks);
        assert forall|i: int| 0 <= i < rest.len() implies keyed(
            (#[trigger] rest[i]).0,
            rest[i].1,
        ) by {
            assert(rest[i] == blocks[i + 1]);
        }
        assert forall|i: int| 0 <= i < rest.len() - 1 implies lines::ended((#[trigger] rest[i]).1) by {
            assert(rest[i] == blocks[i + 1]);
        }
        lemma_key_blocks_render(rest);
        lemma_render_cons(first, rest);
        let mine = lines::lines_of(first.1);
        let others = lines::lines_of(render(rest));
        if rest.len() == 0 {
            assert(first.1 + render(rest) == first.1);
            assert(mine + others == mine);
        } else {
            assert(lines::ended(blocks[0].1));
            lines::lemma_lines_add(first.1, render(rest));
        }
        let all = mine + others;
        assert(lines::lines_of(render(blocks)) == all);
        assert(keyed(first.0, first.1));
        assert(all[0] == mine[0]);
        let tail = all.skip(1);
        assert forall|i: int| 0 <= i < mine.len() - 1 implies key_of(#[trigger] tail[i]) is None by {
            assert(tail[i] == mine[i + 1]);
        }
        if mine.len() - 1 < tail.len() {
            assert(tail[mine.len() - 1] == others[0]);
        }
        lemma_plain_len_unique(tail, mine.len() - 1);
        assert(all.take(mine.len() as int) == mine);
        assert(all.skip(mine.len() as int) == others);
        lines::lemma_lines_of(first.1);
    }
}

/// Well-formed blocks are the blocks of their concatenation.
pub proof fn lemma_blocks_of_render(blocks: Seq<(Seq<char>, Seq<char>)>)
    requires
        good_blocks(blocks),
    ensures
        blocks_of(render(blocks)) == blocks,
{
    if blocks.len() > 0 && !keyed(blocks[0].0, blocks[0].1) {
        let first = blocks[0];
        let rest = blocks.skip(1);
        assert(seq![first] + rest == blocks);
        assert forall|i: int| 0 <= i < rest.len() implies keyed(
            (#[trigger] rest[i]).0,
            rest[i].1,
        ) by {
            assert(rest[i] == blocks[i + 1]);
        }
        assert forall|i: int| 0 <= i < rest.len() - 1 implies lines::ended((#[trigger] rest[i]).1) by {
            assert(rest[i] == blocks[i + 1]);
        }
        lemma_key_blocks_render(rest);
        lemma_render_cons(first, rest);
        let mine = lines::lines_of(first.1);
        let others = lines::lines_of(render(rest));
        if rest.len() == 0 {
            assert(first.1 + render(rest) == first.1);
            assert(mine + others == mine);
        } else {
            assert(lines::ended(blocks[0].1));
            lines::lemma_lines_add(first.1, render(rest));
        }
        let all = mine + others;
        assert(headed(first.0, first.1));
        assert forall|i: int| 0 <= i < mine.len() implies key_of(#[trigger] all[i]) is None by {
            assert(all[i] == mine[i]);
        }
        if mine.len() < all.len() {
            assert(all[mine.len() as int] == others[0]);
        }
        lemma_plain_len_unique(all, mine.len() as int);
        assert(all.take(mine.len() as int) == mine);
        assert(all.skip(mine.len() as int) == others);
        lines::lemma_lines_of(first.1);
    } else {
        assert forall|i: int| 0 <= i < blocks.len() implies keyed(
            (#[trigger] blocks[i]).0,
            blocks[i].1,
        ) by {
            if i == 0 {
                assert(keyed(blocks[0].0, blocks[0].1));
            }
        }
        lemma_key_blocks_render(blocks);
        let all = lines::lines_of(render(blocks));
        lemma_plain_len_unique(all, 0);
        assert(all.take(0).len() == 0);
        assert(lines::joined(all.take(0)).len() == 0);
        assert(text::blank(head_of(render(blocks))));
        assert(all.skip(0) == all);
    }
}

/// A white char at the end of a line changes nothing about its key.
pub proof fn lemma_key_push(l: Seq<char>, c: char)
    requires
        text::white(c),
    ensures
        key_of(l.push(c)) == key_of(l),
        child_key(l.push(c)) == child_key(l) || l.len() < 4,
{
    text::lemma_cut(l, ':');
    let n = text::cut(l, ':');
    if n < l.len() {
        text::lemma_cut_unique(l.push(c), ':', n);
        assert(l.push(c).take(n) == l.take(n));
    } else {
        text::lemma_cut_unique(l.push(c), ':', n + 1);
    }
    if l.len() >= 4 {
        let m = l.skip(4);
        assert(l.push(c).skip(4) == m.push(c));
        text::lemma_cut(m, ':');
        let k = text::cut(m, ':');
        if k < m.len() {
            text::lemma_cut_unique(m.push(c), ':', k);
            assert(m.push(c).take(k) == m.take(k));
        } else {
            text::lemma_cut_unique(m.push(c), ':', k + 1);
        }
    }
}

/// The blocks with `w` at the end of the last one.
pub open spec fn grown(
    blocks: Seq<(Seq<char>, Seq<char>)>,
    w: Seq<char>,
) -> Seq<(Seq<char>, Seq<char>)> {
    if blocks.len() == 0 {
        blocks
    } else {
        blocks.drop_last().push((blocks.last().0, blocks.last().1 + w))
    }
}

pub proof fn lemma_plain_push(t: Seq<char>, c: char)
    requires
        text::white(c),
    ensures
        plain_len(lines::lines_of(t)) < lines::lines_of(t).len() ==> plain_len(
            lines::lines_of(t.push(c)),
        ) == plain_len(lines::lines_of(t)) && head_of(t.push(c)) == head_of(t),
        plain_len(lines::lines_of(t)) == lines::lines_of(t).len() ==> plain_len(
            lines::lines_of(t.push(c)),
        ) == lines::lines_of(t.push(c)).len() && head_of(t.push(c)) == t.push(c),
        forall|k: Seq<char>| keyed(k, t) ==> keyed(k, t.push(c)),
        forall|k: Seq<char>| headed(k, t) ==> headed(k, t.push(c)),
{
    let ls = lines::lines_of(t);
    let ms = lines::lines_of(t.push(c));
    lines::lemma_lines_of(t);
    lines::lemma_lines_of(t.push(c));
    lines::lemma_lines_push(t, c);
    let one = seq![c];
    text::lemma_cut_unique(one, ':', 1);
    assert(key_of(one) is None);
    assert forall|i: int| 0 <= i < ls.len() implies key_of(#[trigger] ms[i]) == key_of(ls[i]) by {
        if !lines::ended(t) && i == ls.len() - 1 {
            lemma_key_push(ls[i], c);
        }
    }
    if lines::ended(t) {
        assert(ms[ls.len() as int] == one);
    }
    lemma_plain_len(ls);
    let n = plain_len(ls);
    assert forall|i: int| 0 <= i < n implies key_of(#[trigger] ms[i]) is None by {
        assert(key_of(ls[i]) is None);
    }
    if n < ls.len() {
        assert(key_of(ms[n]) == key_of(ls[n]));
        lemma_plain_len_unique(ms, n);
        assert(ms.take(n) == ls.take(n));
    } else {
        lemma_plain_len_unique(ms, ms.len() as int);
        assert(ms.take(ms.len() as int) == ms);
    }
    assert forall|k: Seq<char>| keyed(k, t) implies keyed(k, t.push(c)) by {
        assert(key_of(ms[0]) == key_of(ls[0]));
        assert forall|i: int| 1 <= i < ms.len() implies key_of(#[trigger] ms[i]) is None by {
            if i < ls.len() {
                assert(key_of(ls[i]) is None);
            }
        }
    }
    assert forall|k: Seq<char>| headed(k, t) implies headed(k, t.push(c)) by {
        assert forall|i: int| 0 <= i < ms.len() implies key_of(#[trigger] ms[i]) is None by {
            if i < ls.len() {
                assert(key_of(ls[i]) is None);
            }
        }
        let j = choose|j: int| 0 <= j < t.len() && !text::white(#[trigger] t[j]);
        assert(!text::white(t.push(c)[j]));
    }
}

proof fn lemma_blocks_push(s: Seq<char>, c: char)
    requires
        text::white(c),
    ensures
        blocks_of(s.push(c)) == grown(blocks_of(s), seq![c]),
{
    let bs = blocks_of(s);
    let ls = lines::lines_of(s);
    lemma_blocks_of(s);
    lemma_blocks_of(s.push(c));
    lemma_plain_push(s, c);
    lemma_plain_len(ls);
    lines::lemma_lines_of(s);
    lines::lemma_lines_of(s.push(c));
    lines::lemma_joined_split(ls, plain_len(ls));
    assert(head_of(s).len() <= s.len());
    if bs.len() == 0 {
        assert(key_blocks(ls.skip(plain_len(ls))).len() == 0);
        assert(plain_len(ls) == ls.len());
        assert(ls.take(ls.len() as int) == ls);
        assert(head_of(s) == s);
        assert(text::blank(s));
        assert(text::blank(s.push(c)));
        let ms = lines::lines_of(s.push(c));
        assert(ms.skip(ms.len() as int).len() == 0);
        assert(blocks_of(s.push(c)) == bs);
    } else {
        let last = bs[bs.len() - 1];
        let now = grown(bs, seq![c]);
        assert(last.1 + seq![c] == last.1.push(c));
        lemma_plain_push(last.1, c);
        assert forall|i: int| 0 <= i < now.len() implies keyed((#[trigger] now[i]).0, now[i].1) || (
        i == 0 && headed(now[i].0, now[i].1)) by {
            if i < now.len() - 1 {
                assert(now[i] == bs[i]);
            } else {
                assert(keyed(bs[i].0, bs[i].1) || (i == 0 && headed(bs[i].0, bs[i].1)));
            }
        }
        assert forall|i: int| 0 <= i < now.len() - 1 implies lines::ended((#[trigger] now[i]).1) by {
            assert(now[i] == bs[i]);
        }
        lemma_blocks_of_render(now);
        let init = bs.drop_last();
        assert(bs == init + seq![last]);
        assert(now == init + seq![(last.0, last.1.push(c))]);
        lemma_render_add(init, seq![last]);
        lemma_render_add(init, seq![(last.0, last.1.push(c))]);
        lemma_render_one(last);
        lemma_render_one((last.0, last.1.push(c)));
        assert(render(now) == render(bs).push(c));
        if text::blank(head_of(s)) {
            assert(plain_len(ls) < ls.len()) by {
                if plain_len(ls) == ls.len() {
                    assert(ls.skip(ls.len() as int).len() == 0);
                }
            }
            assert(s.push(c).skip(head_of(s).len() as int) == s.skip(
                head_of(s).len() as int,
            ).push(c));
        } else if plain_len(ls) == ls.len() {
            assert(ls.take(ls.len() as int) == ls);
            assert(head_of(s) == s);
            let j = choose|j: int| 0 <= j < s.len() && !text::white(#[trigger] s[j]);
            assert(!text::white(s.push(c)[j]));
        }
        assert(without_blank_head(s.push(c)) == without_blank_head(s).push(c));
        lemma_blocks_of_render(blocks_of(s.push(c)));
    }
}

/// White chars at the end of a text belong to its last block.
pub proof fn lemma_blocks_white(s: Seq<char>, w: Seq<char>)
    requires
        text::blank(w),
    ensures
        blocks_of(s + w) == grown(blocks_of(s), w),
    decreases w.len(),
{
    if w.len() == 0 {
        assert(s + w == s);
        if blocks_of(s).len() > 0 {
            let last = blocks_of(s).last();
            assert(last.1 + w == last.1);
            assert(grown(blocks_of(s), w) == blocks_of(s));
        }
    } else {
        let v = w.drop_last();
        let c = w.last();
        assert forall|i: int| 0 <= i < v.len() implies text::white(#[trigger] v[i]) by {
            assert(v[i] == w[i]);
        }
        assert(text::white(w[w.len() - 1]));
        lemma_blocks_white(s, v);
        assert((s + v).push(c) == s + w);
        lemma_blocks_push(s + v, c);
        if blocks_of(s).len() > 0 {
            let last = blocks_of(s).last();
            assert(last.1 + v + seq![c] == last.1 + w);
            assert(grown(grown(blocks_of(s), v), seq![c]) == grown(blocks_of(s), w));
        }
    }
}

pub proof fn lemma_mapped_step(
    blocks: Seq<(Seq<char>, Seq<char>)>,
    f: spec_fn(Seq<char>, Seq<char>) -> Seq<char>,
    i: int,
)
    requires
        0 <= i < blocks.len(),
    ensures
        render(mapped(blocks.take(i + 1), f)) == render(mapped(blocks.take(i), f)) + f(
            blocks[i].0,
            blocks[i].1,
        ),
{
    let a = mapped(blocks.take(i), f);
    let b = (blocks[i].0, f(blocks[i].0, blocks[i].1));
    assert(mapped(blocks.take(i + 1), f) == a + seq![b]);
    lemma_render_add(a, seq![b]);
    lemma_render_one(b);
}

/// `s` without white chars at its end, then a blank line, then `block`; without white
/// chars at its end but one newline.
pub open spec fn appended(s: Seq<char>, block: Seq<char>) -> Seq<char> {
    let body = text::trimmed_end(s);
    let all = if body.len() == 0 {
        block
    } else {
        body + seq!['\n', '\n'] + block
    };
    text::trimmed_end(all).push('\n')
}

/// White chars at the end of a text leave its head alone, where a block follows it.
pub proof fn lemma_head_white(s: Seq<char>, w: Seq<char>)
    requires
        text::blank(w),
    ensures
        text::blank(head_of(s)) && !text::blank(s) ==> head_of(s + w) == head_of(s)
            && without_blank_head(s + w) == without_blank_head(s) + w,
        !text::blank(head_of(s)) ==> !text::blank(head_of(s + w)),
    decreases w.len(),
{
    let ls = lines::lines_of(s);
    lines::lemma_lines_of(s);
    lemma_plain_len(ls);
    lemma_head(s);
    if w.len() == 0 {
        assert(s + w == s);
        assert(without_blank_head(s) + w == without_blank_head(s));
    } else {
        let v = w.drop_last();
        let c = w.last();
        assert forall|i: int| 0 <= i < v.len() implies text::white(#[trigger] v[i]) by {
            assert(v[i] == w[i]);
        }
        assert(text::white(w[w.len() - 1]));
        lemma_head_white(s, v);
        let t = s + v;
        assert(t.push(c) == s + w);
        lemma_plain_push(t, c);
        let ms = lines::lines_of(t);
        lines::lemma_lines_of(t);
        lemma_plain_len(ms);
        assert(plain_len(ms) == ms.len() ==> head_of(t) == t) by {
            if plain_len(ms) == ms.len() {
                assert(ms.take(ms.len() as int) == ms);
            }
        }
        if text::blank(head_of(s)) && !text::blank(s) {
            assert(head_of(t) != t) by {
                let j = choose|j: int| 0 <= j < s.len() && !text::white(#[trigger] s[j]);
                assert(!text::white(t[j]));
            }
            assert(head_of(s + w) == head_of(s));
            let h = head_of(s).len() as int;
            assert((s + w).skip(h) == s.skip(h) + w);
        }
        if !text::blank(head_of(s)) {
            if plain_len(ms) == ms.len() {
                let j = choose|j: int| 0 <= j < t.len() && !text::white(#[trigger] t[j]);
                assert(!text::white(t.push(c)[j]));
            }
        }
    }
}

/// A block behind a text that ends in a newline is one more block.
pub proof fn lemma_blocks_add(s: Seq<char>, key: Seq<char>, block: Seq<char>)
    requires
        lines::ended(s),
        keyed(key, block),
    ensures
        blocks_of(s + block) == blocks_of(s).push((key, block)),
{
    let bs = blocks_of(s);
    lemma_blocks_of(s);
    let cs = bs.push((key, block));
    assert forall|i: int| 0 <= i < cs.len() implies keyed((#[trigger] cs[i]).0, cs[i].1) || (i == 0
        && headed(cs[i].0, cs[i].1)) by {
        if i < bs.len() {
            assert(cs[i] == bs[i]);
        }
    }
    assert forall|i: int| 0 <= i < cs.len() - 1 implies lines::ended((#[trigger] cs[i]).1) by {
        assert(cs[i] == bs[i]);
    }
    lemma_blocks_of_render(cs);
    assert(cs == bs + seq![(key, block)]);
    lemma_render_add(bs, seq![(key, block)]);
    lemma_render_one((key, block));
    let ls = lines::lines_of(s);
    let ms = lines::lines_of(block);
    lines::lemma_lines_add(s, block);
    lemma_plain_len(ls);
    let n = plain_len(ls);
    let all = ls + ms;
    assert forall|i: int| 0 <= i < n implies key_of(#[trigger] all[i]) is None by {
        assert(all[i] == ls[i]);
    }
    if n < ls.len() {
        assert(all[n] == ls[n]);
    } else {
        assert(all[n] == ms[0]);
    }
    lemma_plain_len_unique(all, n);
    assert(all.take(n) == ls.take(n));
    assert(head_of(s + block) == head_of(s));
    lemma_head(s);
    let h = head_of(s).len() as int;
    assert((s + block).skip(h) == s.skip(h) + block);
    assert(without_blank_head(s + block) == render(cs));
    lemma_blocks_of(s + block);
    lemma_blocks_of_render(blocks_of(s + block));
}

/// The text that a block is appended to: `s` without white chars at its end, then a
/// blank line.
pub open spec fn body_of(s: Seq<char>) -> Seq<char> {
    let body = text::trimmed_end(s);
    if body.len() == 0 {
        body
    } else {
        body + seq!['\n', '\n']
    }
}

/// A block without white chars at its end but one newline.
pub open spec fn tidied(block: Seq<char>) -> Seq<char> {
    text::trimmed_end(block).push('\n')
}

/// A keyed block stays one when its end is tidied.
pub proof fn lemma_tidied(key: Seq<char>, block: Seq<char>)
    requires
        keyed(key, block),
        key.len() > 0,
    ensures
        keyed(key, tidied(block)),
        lines::ended(tidied(block)),
        !text::blank(block),
        text::trimmed_end(block).len() > 0,
{
    let one = seq![(key, block)];
    assert(good_blocks(one));
    lemma_blocks_of_render(one);
    lemma_render_one((key, block));
    assert(blocks_of(block) == one);
    let w = text::lemma_trimmed_rest(block);
    let u = text::trimmed_end(block);
    lemma_blocks_white(u, w);
    assert(blocks_of(u).len() == 1);
    assert(grown(blocks_of(u), w).last() == (key, block));
    assert(blocks_of(u)[0].0 == key);
    let nl = seq!['\n'];
    lemma_blocks_white(u, nl);
    assert(u + nl == tidied(block));
    let cs = blocks_of(tidied(block));
    lemma_blocks_of(u);
    lemma_blocks_of(tidied(block));
    assert(cs.len() == 1);
    assert(cs[0].0 == key);
    assert(keyed(cs[0].0, cs[0].1));
    assert(blocks_of(u)[0].0 == key);
    assert(keyed(blocks_of(u)[0].0, blocks_of(u)[0].1));
    assert(blocks_of(u) == seq![blocks_of(u)[0]]);
    lemma_render_one(blocks_of(u)[0]);
    assert(render(blocks_of(u)) == blocks_of(u)[0].1);
    lemma_head(u);
    if u.len() == 0 {
        lines::lemma_lines_of(u);
        assert(blocks_of(u)[0].1.len() == 0);
        lines::lemma_lines_of(blocks_of(u)[0].1);
    }
    assert(without_blank_head(u) + w == block) by {
        assert(blocks_of(u)[0].1 + w == block);
    }
    assert(without_blank_head(u).len() == u.len());
    assert(without_blank_head(u) == u) by {
        if text::blank(head_of(u)) {
            assert(head_of(u).len() == 0);
            assert(u.skip(0) == u);
        }
    }
    assert(cs[0].1 == u + nl);
    text::lemma_blank_trimmed(block);
}

/// What is appended to a text is one more block of it.
pub proof fn lemma_appended(s: Seq<char>, key: Seq<char>, block: Seq<char>)
    requires
        keyed(key, block),
        key.len() > 0,
    ensures
        appended(s, block) == body_of(s) + tidied(block),
        lines::ended(body_of(s)),
        blocks_of(appended(s, block)) == blocks_of(body_of(s)).push((key, tidied(block))),
        lines::ended(appended(s, block)),
        forall|k: Seq<char>|
            has_block(blocks_of(body_of(s)), k) == #[trigger] has_block(blocks_of(s), k),
        render(blocks_of(body_of(s))) == without_blank_head(body_of(s)),
        text::trimmed_end(without_blank_head(body_of(s))) == text::trimmed_end(
            without_blank_head(s),
        ),
        head_of(s).len() == 0 || !text::blank(head_of(s)) || text::blank(s) ==> without_blank_head(
            body_of(s),
        ) == body_of(s),
{
    lemma_tidied(key, block);
    let body = text::trimmed_end(s);
    let b = body_of(s);
    let u = text::trimmed_end(block);
    let n = b.len() as int;
    text::lemma_trimmed_end(block);
    let all = b + block;
    assert forall|i: int| n + u.len() <= i < all.len() implies text::white(#[trigger] all[i]) by {
        assert(all[i] == block[i - n]);
    }
    assert(all[n + u.len() - 1] == u.last());
    text::lemma_trimmed_end_unique(all, n + u.len());
    assert(all.take(n + u.len()) == b + u);
    assert((b + u).push('\n') == b + tidied(block));
    if body.len() == 0 {
        assert(b + block == block);
    }
    lemma_blocks_add(b, key, tidied(block));
    lemma_blocks_of(b);
    assert((b + tidied(block)).last() == '\n');
    let w = text::lemma_trimmed_rest(s);
    lemma_blocks_white(body, w);
    let nn = seq!['\n', '\n'];
    let none = Seq::<char>::empty();
    let v = if body.len() == 0 {
        none
    } else {
        nn
    };
    assert(b == body + v);
    lemma_blocks_white(body, v);
    assert forall|k: Seq<char>|
        has_block(blocks_of(b), k) == #[trigger] has_block(blocks_of(s), k) by {
        lemma_grown_keys(blocks_of(body), v, k);
        lemma_grown_keys(blocks_of(body), w, k);
    }
    text::lemma_blank_trimmed(s);
    if body.len() == 0 {
        lemma_head(s);
        assert(text::blank(s));
        lemma_blocks_of(s);
        assert(blocks_of(s) == grown(blocks_of(body), w));
        assert(lines::lines_of(body).len() == 0);
        assert(b.len() == 0);
        lemma_head(b);
        assert(head_of(b).len() == 0);
        assert(without_blank_head(b) == b);
        assert(text::blank(head_of(s))) by {
            assert forall|i: int| 0 <= i < head_of(s).len() implies text::white(
                #[trigger] head_of(s)[i],
            ) by {
                assert(head_of(s)[i] == s[i]);
            }
        }
        let left = without_blank_head(s);
        assert(text::blank(left)) by {
            assert forall|i: int| 0 <= i < left.len() implies text::white(#[trigger] left[i]) by {
                assert(left[i] == s[i + head_of(s).len()]);
            }
        }
        text::lemma_blank_trimmed(left);
        text::lemma_blank_trimmed(b);
    } else {
        assert(!text::blank(body)) by {
            text::lemma_trimmed_end(s);
            assert(!text::white(body[body.len() - 1]));
        }
        lemma_head_white(body, w);
        lemma_head_white(body, v);
        lemma_head(s);
        lemma_head(b);
        if text::blank(head_of(body)) {
            text::lemma_trimmed_white(without_blank_head(body), w);
            text::lemma_trimmed_white(without_blank_head(body), v);
            if head_of(s).len() == 0 {
                assert(b.skip(0) == b);
            }
        } else {
            text::lemma_trimmed_white(body, w);
            text::lemma_trimmed_white(body, v);
        }
    }
}

pub proof fn lemma_grown_keys(bs: Seq<(Seq<char>, Seq<char>)>, w: Seq<char>, k: Seq<char>)
    ensures
        has_block(grown(bs, w), k) == has_block(bs, k),
{
    let cs = grown(bs, w);
    assert forall|i: int| 0 <= i < bs.len() implies (#[trigger] bs[i]).0 == cs[i].0 by {
    }
    if has_block(bs, k) {
        let i = choose|i: int| 0 <= i < bs.len() && (#[trigger] bs[i]).0 == k;
        assert(cs[i].0 == k);
    }
    if has_block(cs, k) {
        let i = choose|i: int| 0 <= i < cs.len() && (#[trigger] cs[i]).0 == k;
        assert(bs[i].0 == k);
    }
}

/// Blocks that end in newlines and are rewritten one by one stay the blocks of the text.
pub proof fn lemma_mapped_blocks(
    bs: Seq<(Seq<char>, Seq<char>)>,
    f: spec_fn(Seq<char>, Seq<char>) -> Seq<char>,
)
    requires
        good_blocks(bs),
        forall|i: int|
            0 <= i < bs.len() ==> lines::ended(f((#[trigger] bs[i]).0, bs[i].1)) && (keyed(
                bs[i].0,
                bs[i].1,
            ) ==> keyed(bs[i].0, f(bs[i].0, bs[i].1))) && (headed(bs[i].0, bs[i].1) ==> headed(
                bs[i].0,
                f(bs[i].0, bs[i].1),
            )),
    ensures
        good_blocks(mapped(bs, f)),
        blocks_of(render(mapped(bs, f))) == mapped(bs, f),
        lines::ended(render(mapped(bs, f))),
{
    let cs = mapped(bs, f);
    assert forall|i: int| 0 <= i < cs.len() implies (keyed((#[trigger] cs[i]).0, cs[i].1) || (i == 0
        && headed(cs[i].0, cs[i].1))) && lines::ended(cs[i].1) by {
        assert(cs[i] == (bs[i].0, f(bs[i].0, bs[i].1)));
    }
    lemma_blocks_of_render(cs);
    lemma_render_ended(cs);
}

pub proof fn lemma_render_ended(bs: Seq<(Seq<char>, Seq<char>)>)
    requires
        forall|i: int| 0 <= i < bs.len() ==> lines::ended((#[trigger] bs[i]).1),
    ensures
        lines::ended(render(bs)),
    decreases bs.len(),
{
    if bs.len() == 0 {
        assert(bs.map_values(|b: (Seq<char>, Seq<char>)| b.1).len() == 0);
    } else {
        let init = bs.drop_last();
        let last = bs[bs.len() - 1];
        assert(bs == init + seq![last]);
        assert forall|i: int| 0 <= i < init.len() implies lines::ended((#[trigger] init[i]).1) by {
            assert(init[i] == bs[i]);
        }
        lemma_render_ended(init);
        lemma_render_add(init, seq![last]);
        lemma_render_one(last);
        if last.1.len() > 0 {
            assert(render(bs).last() == last.1.last());
        } else {
            assert(render(bs) == render(init));
        }
    }
}

/// The text of a block with another one in place of those with the key `key`.
pub open spec fn replacing(key: Seq<char>, new_block: Seq<char>) -> spec_fn(
    Seq<char>,
    Seq<char>,
) -> Seq<char> {
    |k: Seq<char>, t: Seq<char>|
        if k == key {
            new_block
        } else {
            lines::with_nl(t)
        }
}

/// `settings` with `new_block` in place of each block with the key `key`; with
/// `new_block` at its end where it has none.
pub open spec fn with_block(
    settings: Seq<char>,
    key: Seq<char>,
    new_block: Seq<char>,
) -> Seq<char> {
    let blocks = blocks_of(settings);
    if has_block(blocks, key) {
        lines::with_nl(render(mapped(blocks, replacing(key, new_block))))
    } else {
        appended(settings, new_block)
    }
}

/// `settings` without the blocks with the key `key`, without white chars at its end but
/// one newline. A blank text becomes the empty one.
pub open spec fn without_block(settings: Seq<char>, key: Seq<char>) -> Seq<char> {
    if text::blank(settings) {
        Seq::empty()
    } else {
        text::trimmed_end(
            render(mapped(blocks_of(settings), replacing(key, Seq::empty()))),
        ).push('\n')
    }
}

/// The keys and texts of a sequence of blocks.
pub open spec fn pairs(v: Seq<(String, String)>) -> Seq<(Seq<char>, Seq<char>)> {
    v.map_values(|b: (String, String)| (b.0@, b.1@))
}

/// The key at the start of `line`.
pub fn top_level_key(line: &str) -> (r: Option<String>)
    ensures
        match r {
            Some(k) => key_of(line@) == Some(k@),
            None => key_of(line@) is None,
        },
{
    let v = text::chars_of(line);
    let n = text::cut_at(line, ':');
    proof {
        text::lemma_cut(line@, ':');
    }
    if n == v.len() {
        return None;
    }
    let mut i: usize = 0;
    while i < n
        invariant
            i <= n < v.len(),
            n == text::cut(line@, ':'),
            v@ == line@,
            forall|j: int| 0 <= j < i ==> key_char(#[trigger] line@.take(n as int)[j]),
        decreases n - i,
    {
        let c = v[i];
        assert(line@.take(n as int)[i as int] == c);
        if !(('a' <= c && c <= 'z') || ('A' <= c && c <= 'Z') || ('0' <= c && c <= '9') || c == '_'
            || c == '-') {
            return None;
        }
        i += 1;
    }
    assert(v@.subrange(0, n as int) == line@.take(n as int));
    Some(text::text_of(&v, 0, n))
}

/// The key of a line that is indented by exactly four spaces.
pub fn child_provider_key(line: &str) -> (r: Option<String>)
    ensures
        match r {
            Some(k) => child_key(line@) == Some(k@),
            None => child_key(line@) is None,
        },
{
    let v = text::chars_of(line);
    if v.len() >= 4 && v[0] == ' ' && v[1] == ' ' && v[2] == ' ' && v[3] == ' ' {
        let rest = text::text_of(&v, 4, v.len());
        assert(rest@ == line@.skip(4));
        top_level_key(rest.as_str())
    } else {
        None
    }
}

/// The number of lines from `from` on that stand before the next one with a key.
fn next_key(ls: &Vec<String>, from: usize) -> (r: usize)
    requires
        from <= ls.len(),
    ensures
        from <= r <= ls.len(),
        r - from == plain_len(lines::texts(ls@).skip(from as int)),
{
    let ghost all = lines::texts(ls@);
    let mut n: usize = from;
    while n < ls.len()
        invariant
            from <= n <= ls.len(),
            all == lines::texts(ls@),
            forall|j: int|
                0 <= j < n - from ==> key_of(#[trigger] all.skip(from as int)[j]) is None,
        decreases ls.len() - n,
    {
        assert(all.skip(from as int)[n - from] == ls@[n as int]@);
        if top_level_key(ls[n].as_str()).is_some() {
            proof {
                lemma_plain_len_unique(all.skip(from as int), n - from);
            }
            return n;
        }
        n += 1;
    }
    proof {
        lemma_plain_len_unique(all.skip(from as int), n - from);
    }
    n
}

/// The top-level blocks of a text: the key and the text of each, in order.
pub fn split_top_level(text: &str) -> (r: Vec<(String, String)>)
    ensures
        pairs(r@) == blocks_of(text@),
{
    let ls = lines::split_lines(text);
    let ghost all = lines::texts(ls@);
    assert(all.skip(0) == all);
    let h = next_key(&ls, 0);
    let head = lines::join(&ls, 0, h);
    assert(all.subrange(0, h as int) == all.take(h as int));
    let mut out: Vec<(String, String)> = Vec::new();
    if !text::is_blank(head.as_str()) {
        out.push((String::new(), head));
    }
    let ghost before = pairs(out@);
    proof {
        lemma_plain_len(all);
        if text::blank(head_of(text@)) {
            assert(before == Seq::<(Seq<char>, Seq<char>)>::empty());
        } else {
            assert(before == seq![(Seq::<char>::empty(), head_of(text@))]);
        }
        assert(pairs(out@) + key_blocks(all.skip(h as int)) == before + key_blocks(
            all.skip(h as int),
        ));
    }
    let mut at: usize = h;
    while at < ls.len()
        invariant
            h <= at <= ls.len(),
            all == lines::texts(ls@),
            at < ls.len() ==> key_of(all[at as int]) is Some,
            pairs(out@) + key_blocks(all.skip(at as int)) == before + key_blocks(
                all.skip(h as int),
            ),
        decreases ls.len() - at,
    {
        let ghost rest = all.skip(at as int);
        let ghost was = pairs(out@);
        let n = next_key(&ls, at + 1);
        proof {
            assert(rest[0] == all[at as int]);
            assert(rest.skip(1) == all.skip(at + 1));
            lemma_plain_len(rest.skip(1));
            assert(rest.take(n - at) == all.subrange(at as int, n as int));
            assert(rest.skip(n - at) == all.skip(n as int));
            if n < ls.len() {
                assert(all.skip(at + 1)[n - at - 1] == all[n as int]);
            }
        }
        match top_level_key(ls[at].as_str()) {
            Some(key) => {
                let block = lines::join(&ls, at, n);
                let ghost one = (key@, block@);
                out.push((key, block));
                proof {
                    assert(pairs(out@) == was.push(one));
                    assert(was.push(one) + key_blocks(all.skip(n as int)) == was + (seq![one]
                        + key_blocks(all.skip(n as int))));
                }
            },
            None => {},
        }
        at = n;
    }
    proof {
        assert(all.skip(at as int).len() == 0);
        assert(key_blocks(all.skip(at as int)).len() == 0);
        assert(pairs(out@) + key_blocks(all.skip(at as int)) == pairs(out@));
        assert(before + key_blocks(all.skip(h as int)) == blocks_of(text@)) by {
            if text::blank(head_of(text@)) {
                assert(before + key_blocks(all.skip(h as int)) == key_blocks(all.skip(h as int)));
            }
        }
    }
    out
}

/// The position of the first block with the key `key`.
pub fn find_block(blocks: &Vec<(String, String)>, key: &str) -> (r: Option<usize>)
    ensures
        r is Some <==> has_block(pairs(blocks@), key@),
        r matches Some(i) ==> i < blocks.len() && pairs(blocks@)[i as int].0 == key@ && forall|
            j: int,
        |
            0 <= j < i ==> (#[trigger] pairs(blocks@)[j]).0 != key@,
{
    let mut i: usize = 0;
    while i < blocks.len()
        invariant
            i <= blocks.len(),
            forall|j: int| 0 <= j < i ==> (#[trigger] pairs(blocks@)[j]).0 != key@,
        decreases blocks.len() - i,
    {
        assert(pairs(blocks@)[i as int].0 == blocks@[i as int].0@);
        if text::same_text(blocks[i].0.as_str(), key) {
            return Some(i);
        }
        i += 1;
    }
    None
}

/// `body`, a blank line and `block`, as `appended` says.
pub fn append_block(settings: &str, block: &str) -> (r: String)
    ensures
        r@ == appended(settings@, block@),
{
    let mut all = text::trim_end(settings);
    if text::char_count(all.as_str()) > 0 {
        all.push('\n');
        all.push('\n');
    }
    all.append(block);
    proof {
        let body = text::trimmed_end(settings@);
        if body.len() == 0 {
            assert(all@ == block@);
        } else {
            assert(all@ == body + seq!['\n', '\n'] + block@);
        }
    }
    let mut out = text::trim_end(all.as_str());
    out.push('\n');
    out
}

/// The blocks with `new_block` in place of each one with the key `key`, concatenated.
fn replace_each(blocks: &Vec<(String, String)>, key: &str, new_block: &str) -> (r: String)
    ensures
        r@ == render(mapped(pairs(blocks@), replacing(key@, new_block@))),
{
    let ghost all = pairs(blocks@);
    let ghost f = replacing(key@, new_block@);
    let mut out = String::new();
    let mut i: usize = 0;
    assert(mapped(all.take(0), f).map_values(|b: (Seq<char>, Seq<char>)| b.1).len() == 0);
    while i < blocks.len()
        invariant
            i <= blocks.len(),
            all == pairs(blocks@),
            f == replacing(key@, new_block@),
            out@ == render(mapped(all.take(i as int), f)),
        decreases blocks.len() - i,
    {
        proof {
            lemma_mapped_step(all, f, i as int);
        }
        if text::same_text(blocks[i].0.as_str(), key) {
            out.append(new_block);
        } else {
            out.append(lines::ensure_nl(blocks[i].1.clone()).as_str());
        }
        i += 1;
    }
    assert(all.take(all.len() as int) == all);
    out
}

/// `settings` without the blocks with the key `key`.
pub fn remove_top_level_block(settings: &str, key: &str) -> (r: String)
    ensures
        r@ == without_block(settings@, key@),
{
    if text::is_blank(settings) {
        return String::new();
    }
    let blocks = split_top_level(settings);
    let none = String::new();
    let mut out = text::trim_end(replace_each(&blocks, key, none.as_str()).as_str());
    out.push('\n');
    out
}

/// `settings` with `new_block` in place of each block with the key `key`, or at its end
/// where there is none.
pub fn replace_top_level_block(settings: &str, key: &str, new_block: &str) -> (r: String)
    ensures
        r@ == with_block(settings@, key@, new_block@),
{
    let blocks = split_top_level(settings);
    if find_block(&blocks, key).is_none() {
        return append_block(settings, new_block);
    }
    lines::ensure_nl(replace_each(&blocks, key, new_block))
}

} // verus!
