//! What writing and removing the gateway's key promise together.

use vstd::prelude::*;

use crate::credentials;
use crate::lines;
use crate::text;

verus! {

/// The first line under which keys stand is the last line and is not ended: the key
/// would be written onto that line.
pub open spec fn hanging(cred: Seq<char>) -> bool {
    let ls = lines::lines_of(cred);
    !lines::ended(cred) && credentials::refs_at(ls) == ls.len() - 1
}

proof fn lemma_key_lines()
    ensures
        credentials::is_key_line(credentials::key_line()),
        credentials::is_key_line(credentials::last_key_line()),
        lines::one_line(credentials::key_line()),
        lines::one_line(credentials::last_key_line()),
        lines::ended(credentials::key_line()),
        lines::ended(credentials::last_key_line()),
{
    reveal_strlit("  AIS_CODEX_API_KEY: local\n");
    reveal_strlit("AIS_CODEX_API_KEY: local\n");
    reveal_strlit("AIS_CODEX_API_KEY:");
    let a = credentials::key_line();
    let b = credentials::last_key_line();
    let k = "AIS_CODEX_API_KEY:"@;
    assert(a.len() == 27);
    assert(b.len() == 25);
    reveal_with_fuel(text::trimmed_start, 3);
    assert(text::trimmed_start(a) == a.skip(1).skip(1));
    assert(text::trimmed_start(b) == b);
    assert(k == b.take(18));
    assert(a.skip(1).skip(1) == b);
}

/// A newline at the end of a line does not matter to whether it gives the key.
proof fn lemma_key_nl(l: Seq<char>)
    ensures
        credentials::is_key_line(l.push('\n')) == credentials::is_key_line(l),
{
    let m = l.push('\n');
    let k = "AIS_CODEX_API_KEY:"@;
    reveal_strlit("AIS_CODEX_API_KEY:");
    assert(k.len() == 18);
    assert(k[17] == ':');
    lemma_start_push(l, '\n');
    let a = text::trimmed_start(l);
    let b = text::trimmed_start(m);
    if k.is_prefix_of(b) && a.len() > 0 {
        assert(b == a.push('\n'));
        if k.len() == b.len() {
            assert(b[17] == '\n');
            assert(k[17] == b[17]);
        }
        assert(k == a.take(18));
    }
    if k.is_prefix_of(a) {
        assert(a.push('\n').take(18) == a.take(18));
    }
    if k.is_prefix_of(b) && a.len() == 0 {
        assert(b.len() <= 1);
    }
}

pub proof fn lemma_start_push(l: Seq<char>, c: char)
    ensures
        text::trimmed_start(l).len() > 0 ==> text::trimmed_start(l.push(c))
            == text::trimmed_start(l).push(c),
        text::trimmed_start(l).len() == 0 ==> text::trimmed_start(l.push(c)).len() <= 1,
    decreases l.len(),
{
    let m = l.push(c);
    if l.len() == 0 {
        text::lemma_trimmed_start(m);
    } else if text::white(l[0]) {
        assert(m.skip(1) == l.skip(1).push(c));
        lemma_start_push(l.skip(1), c);
    }
}

/// The lines that do not give the key, of two parts.
pub proof fn lemma_others_add(a: Seq<Seq<char>>, b: Seq<Seq<char>>)
    ensures
        credentials::other_lines(a + b) == credentials::other_lines(a) + credentials::other_lines(
            b,
        ),
    decreases b.len(),
{
    let other = |l: Seq<char>| !credentials::is_key_line(l);
    if b.len() == 0 {
        assert(a + b == a);
        reveal(Seq::filter);
    } else {
        let c = b.drop_last();
        assert((a + b).drop_last() == a + c);
        lemma_others_add(a, c);
        reveal(Seq::filter);
        assert((a + b).last() == b.last());
        assert(a.filter(other) + c.filter(other).push(b.last()) == (a.filter(other) + c.filter(
            other,
        )).push(b.last()));
    }
}

/// Lines that do not give the key stay as they are.
pub proof fn lemma_others_all(ls: Seq<Seq<char>>)
    requires
        forall|i: int| 0 <= i < ls.len() ==> !credentials::is_key_line(#[trigger] ls[i]),
    ensures
        credentials::other_lines(ls) == ls,
    decreases ls.len(),
{
    reveal(Seq::filter);
    if ls.len() > 0 {
        let init = ls.drop_last();
        assert forall|i: int| 0 <= i < init.len() implies !credentials::is_key_line(
            #[trigger] init[i],
        ) by {
            assert(init[i] == ls[i]);
        }
        lemma_others_all(init);
        assert(!credentials::is_key_line(ls[ls.len() - 1]));
        assert(ls == init.push(ls.last()));
    }
}

pub proof fn lemma_others_key(l: Seq<char>)
    requires
        credentials::is_key_line(l),
    ensures
        credentials::other_lines(seq![l]).len() == 0,
{
    reveal(Seq::filter);
    assert(seq![l].drop_last().len() == 0);
    assert(credentials::other_lines(seq![l].drop_last()).len() == 0);
}

/// The lines that do not give the key are lines of the text, in their order.
pub proof fn lemma_others_good(ls: Seq<Seq<char>>)
    requires
        lines::good_lines(ls),
    ensures
        lines::good_lines(credentials::other_lines(ls)),
        forall|i: int|
            0 <= i < credentials::other_lines(ls).len() ==> !credentials::is_key_line(
                #[trigger] credentials::other_lines(ls)[i],
            ),
        lines::ended_lines(ls) ==> lines::ended_lines(credentials::other_lines(ls)),
    decreases ls.len(),
{
    reveal(Seq::filter);
    if ls.len() > 0 {
        let init = ls.drop_last();
        let last = ls[ls.len() - 1];
        assert forall|i: int| 0 <= i < init.len() implies lines::one_line(#[trigger] init[i])
            && lines::ended(init[i]) by {
            assert(init[i] == ls[i]);
        }
        lemma_others_good(init);
        let d = credentials::other_lines(init);
        assert(lines::ended_lines(d));
        assert(lines::one_line(last));
        if !credentials::is_key_line(last) {
            let e = d.push(last);
            assert(credentials::other_lines(ls) == e);
            assert forall|i: int| 0 <= i < e.len() implies lines::one_line(#[trigger] e[i]) && (i
                < e.len() - 1 ==> lines::ended(e[i])) && !credentials::is_key_line(e[i]) by {
                if i < d.len() {
                    assert(e[i] == d[i]);
                }
            }
        }
    }
}

/// Ending the last line does not matter to whether the key is given.
proof fn lemma_key_in_nl(t: Seq<char>)
    ensures
        credentials::key_in(lines::with_nl(t)) == credentials::key_in(t),
{
    if !lines::ended(t) {
        let ls = lines::lines_of(t);
        let ms = lines::lines_of(t.push('\n'));
        lines::lemma_lines_push(t, '\n');
        let z = ls.len() - 1;
        lemma_key_nl(ls[z]);
        assert(ms[z] == ls[z].push('\n'));
        if credentials::key_in(t) {
            let i = choose|i: int| 0 <= i < ls.len() && credentials::is_key_line(#[trigger] ls[i]);
            assert(credentials::is_key_line(ms[i]));
        }
        if credentials::key_in(t.push('\n')) {
            let i = choose|i: int| 0 <= i < ms.len() && credentials::is_key_line(#[trigger] ms[i]);
            assert(credentials::is_key_line(ls[i]));
        }
    }
}

/// After a removal no line gives the key.
pub proof fn law_key_removed(cred: Seq<char>)
    ensures
        !credentials::key_in(credentials::without_key(cred)),
        lines::ended(credentials::without_key(cred)),
{
    let ls = lines::lines_of(cred);
    lines::lemma_lines_of(cred);
    lemma_others_good(ls);
    let d = credentials::other_lines(ls);
    lines::lemma_lines_of_joined(d);
    lemma_key_in_nl(lines::joined(d));
}

/// Text without the key is changed by a removal only in that its last line is ended.
pub proof fn law_nothing_to_remove(cred: Seq<char>)
    requires
        !credentials::key_in(cred),
    ensures
        credentials::without_key(cred) == lines::with_nl(cred),
{
    lines::lemma_lines_of(cred);
    lemma_others_all(lines::lines_of(cred));
}

/// An empty file of keys has two lines, of which none gives the key.
pub proof fn lemma_empty_keys() -> (ls: Seq<Seq<char>>)
    ensures
        lines::ended_lines(ls),
        lines::joined(ls) == "version: 1\nrefs:\n"@,
        !credentials::key_in("version: 1\nrefs:\n"@),
{
    let v = "version: 1\n"@;
    let r = "refs:\n"@;
    reveal_strlit("version: 1\n");
    reveal_strlit("refs:\n");
    reveal_strlit("version: 1\nrefs:\n");
    reveal_strlit("AIS_CODEX_API_KEY:");
    let ls = seq![v, r];
    reveal_with_fuel(lines::joined, 3);
    assert(ls.skip(1) == seq![r]);
    assert(seq![r].skip(1).len() == 0);
    assert(lines::joined(ls) == "version: 1\nrefs:\n"@);
    assert(lines::ended_lines(ls));
    lines::lemma_lines_of_joined(ls);
    let key = "AIS_CODEX_API_KEY:"@;
    assert(key[0] == 'A');
    assert(text::trimmed_start(v) == v);
    assert(text::trimmed_start(r) == r);
    assert(v[0] == 'v' && r[0] == 'r');
    ls
}

/// The lines of text into which the key was written: those of the text, and the key.
proof fn lemma_written(cred: Seq<char>) -> (parts: (Seq<Seq<char>>, Seq<char>, Seq<Seq<char>>))
    requires
        !credentials::key_in(cred),
        !hanging(cred),
    ensures
        lines::ended_lines(parts.0),
        lines::ended_lines(parts.2),
        credentials::is_key_line(parts.1),
        lines::one_line(parts.1),
        lines::ended(parts.1),
        credentials::with_key(cred) == lines::joined(parts.0) + parts.1 + lines::joined(parts.2),
        lines::joined(parts.0) + lines::joined(parts.2) == (if credentials::refs_at(
            lines::lines_of(cred),
        ) < lines::lines_of(cred).len() {
            lines::with_nl(cred)
        } else if text::blank(cred) {
            "version: 1\nrefs:\n"@
        } else {
            text::trimmed_end(cred).push('\n')
        }),
        !credentials::key_in(lines::joined(parts.0) + lines::joined(parts.2)),
{
    let ls = lines::lines_of(cred);
    let n = credentials::refs_at(ls);
    lines::lemma_lines_of(cred);
    credentials::lemma_refs_at(ls);
    lemma_key_lines();
    let none = Seq::<Seq<char>>::empty();
    if n < ls.len() {
        let all = lines::with_nl(cred);
        let ms = lines::lines_of(all);
        lines::lemma_lines_of(all);
        lemma_key_in_nl(cred);
        if !lines::ended(cred) {
            lines::lemma_lines_push(cred, '\n');
        }
        let a = ms.take(n + 1);
        let b = ms.skip(n + 1);
        assert(n + 1 < ls.len() || lines::ended(cred));
        assert(a == ls.take(n + 1));
        lines::lemma_joined_split(ms, n + 1);
        lines::lemma_joined_split(ls, n + 1);
        let x = lines::joined(a);
        let y = lines::joined(ls.skip(n + 1));
        let z = lines::joined(b);
        let k = credentials::key_line();
        assert(cred == x + y);
        assert(all == x + z);
        assert(lines::with_nl(x + k + y) == x + k + z) by {
            if lines::ended(cred) {
                assert(y == z);
                if y.len() > 0 {
                    assert((x + k + y).last() == cred.last());
                } else {
                    assert((x + k + y).last() == k.last());
                }
            } else {
                let c = ls.skip(n + 1);
                let d = c.drop_last();
                let l = ls.last();
                assert(c == d.push(l));
                assert(b == d.push(l.push('\n')));
                lines::lemma_joined_push(d, l);
                lines::lemma_joined_push(d, l.push('\n'));
                assert(z == y.push('\n'));
                assert(lines::one_line(ls[ls.len() - 1]));
                assert((x + k + y).last() == l.last());
                assert(x + k + z == (x + k + y).push('\n'));
            }
        }
        assert forall|i: int| 0 <= i < a.len() implies lines::one_line(#[trigger] a[i])
            && lines::ended(a[i]) by {
            assert(a[i] == ms[i]);
        }
        assert forall|i: int| 0 <= i < b.len() implies lines::one_line(#[trigger] b[i])
            && lines::ended(b[i]) by {
            assert(b[i] == ms[n + 1 + i]);
        }
        (a, k, b)
    } else if text::blank(cred) {
        let a = lemma_empty_keys();
        assert(lines::joined(none).len() == 0);
        let k = credentials::key_line();
        assert(lines::joined(a) + k + lines::joined(none) == lines::joined(a) + k);
        assert(lines::joined(a) + lines::joined(none) == lines::joined(a));
        (a, k, none)
    } else {
        let body = text::trimmed_end(cred);
        let all = body.push('\n');
        let a = lines::lines_of(all);
        lines::lemma_lines_of(all);
        let k = credentials::last_key_line();
        assert(lines::joined(none).len() == 0);
        assert(all + k + lines::joined(none) == all + k);
        assert(all + lines::joined(none) == all);
        lemma_key_in_body(cred);
        (a, k, none)
    }
}

/// Text without the key does not give it once white space at the end is dropped.
proof fn lemma_key_in_body(cred: Seq<char>)
    requires
        !credentials::key_in(cred),
        !text::blank(cred),
    ensures
        !credentials::key_in(text::trimmed_end(cred).push('\n')),
{
    let body = text::trimmed_end(cred);
    text::lemma_trimmed_end(cred);
    text::lemma_blank_trimmed(cred);
    assert(!lines::ended(body));
    lemma_key_in_nl(body);
    let w = text::lemma_trimmed_rest(cred);
    if credentials::key_in(body) {
        lemma_key_in_more(body, w);
    }
}

/// Text that gives the key still gives it with more text at the end.
proof fn lemma_key_in_more(t: Seq<char>, w: Seq<char>)
    requires
        credentials::key_in(t),
    ensures
        credentials::key_in(t + w),
    decreases w.len(),
{
    if w.len() == 0 {
        assert(t + w == t);
    } else {
        let u = t + w.drop_last();
        let c = w.last();
        lemma_key_in_more(t, w.drop_last());
        assert(t + w == u.push(c));
        let ls = lines::lines_of(u);
        let ms = lines::lines_of(u.push(c));
        lines::lemma_lines_push(u, c);
        let i = choose|i: int| 0 <= i < ls.len() && credentials::is_key_line(#[trigger] ls[i]);
        if lines::ended(u) || i < ls.len() - 1 {
            assert(ms[i] == ls[i]);
        } else {
            assert(ms[i] == ls[i].push(c));
            lemma_start_push(ls[i], c);
            reveal_strlit("AIS_CODEX_API_KEY:");
            assert("AIS_CODEX_API_KEY:"@.len() == 18);
            let a = text::trimmed_start(ls[i]);
            assert(a.push(c).take(18) == a.take(18));
        }
        assert(credentials::is_key_line(ms[i]));
    }
}

/// After a write some line gives the key, and a second write changes nothing. This leaves
/// out text whose first line of keys is the last one and is not ended.
pub proof fn law_key_written(cred: Seq<char>)
    requires
        !hanging(cred) || credentials::key_in(cred),
    ensures
        credentials::key_in(credentials::with_key(cred)),
        credentials::with_key(credentials::with_key(cred)) == credentials::with_key(cred),
{
    let out = credentials::with_key(cred);
    if credentials::key_in(cred) {
        lemma_key_in_nl(cred);
    } else {
        let parts = lemma_written(cred);
        let all = parts.0.push(parts.1) + parts.2;
        assert forall|i: int| 0 <= i < all.len() implies lines::one_line(#[trigger] all[i])
            && lines::ended(all[i]) by {
            if i > parts.0.len() {
                assert(all[i] == parts.2[i - parts.0.len() - 1]);
            } else if i < parts.0.len() {
                assert(all[i] == parts.0[i]);
            }
        }
        lines::lemma_joined_push(parts.0, parts.1);
        lines::lemma_joined_add(parts.0.push(parts.1), parts.2);
        lines::lemma_lines_of_joined(all);
        lines::lemma_joined_ended(all);
        assert(credentials::is_key_line(all[parts.0.len() as int]));
        assert(lines::lines_of(out) == all);
    }
}

/// A removal undoes a write: text in which the key found its line comes back with its
/// last line ended, other text comes back without white space at the end, and blank text
/// comes back as an empty file of keys. This leaves out text whose first line of keys is
/// the last one and is not ended.
pub proof fn law_remove_undoes_key(cred: Seq<char>)
    requires
        !credentials::key_in(cred),
        !hanging(cred),
    ensures
        credentials::without_key(credentials::with_key(cred)) == (if credentials::refs_at(
            lines::lines_of(cred),
        ) < lines::lines_of(cred).len() {
            lines::with_nl(cred)
        } else if text::blank(cred) {
            "version: 1\nrefs:\n"@
        } else {
            text::trimmed_end(cred).push('\n')
        }),
{
    let parts = lemma_written(cred);
    let a = parts.0;
    let k = parts.1;
    let b = parts.2;
    let all = a.push(k) + b;
    assert forall|i: int| 0 <= i < all.len() implies lines::one_line(#[trigger] all[i])
        && lines::ended(all[i]) by {
        if i > a.len() {
            assert(all[i] == b[i - a.len() - 1]);
        } else if i < a.len() {
            assert(all[i] == a[i]);
        }
    }
    lines::lemma_joined_push(a, k);
    lines::lemma_joined_add(a.push(k), b);
    lines::lemma_lines_of_joined(all);
    let rest = a + b;
    assert forall|i: int| 0 <= i < rest.len() implies lines::one_line(#[trigger] rest[i])
        && lines::ended(rest[i]) by {
        if i < a.len() {
            assert(rest[i] == a[i]);
        } else {
            assert(rest[i] == b[i - a.len()]);
        }
    }
    lines::lemma_joined_add(a, b);
    lines::lemma_lines_of_joined(rest);
    lines::lemma_joined_ended(rest);
    assert forall|i: int| 0 <= i < rest.len() implies !credentials::is_key_line(
        #[trigger] rest[i],
    ) by {
        assert(rest[i] == lines::lines_of(lines::joined(rest))[i]);
    }
    assert(all == a + (seq![k] + b));
    lemma_others_add(a, seq![k] + b);
    lemma_others_add(seq![k], b);
    lemma_others_key(k);
    lemma_others_add(a, b);
    lemma_others_all(rest);
    let none = credentials::other_lines(seq![k]);
    assert(none + credentials::other_lines(b) == credentials::other_lines(b));
}

} // verus!
