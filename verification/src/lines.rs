//! Lines of a text. A line keeps the newline that ends it, so that a text is the
//! concatenation of its lines.

use vstd::prelude::*;

use crate::text;

verus! {

/// The length of the first line of `s`, its newline counted.
pub open spec fn line_len(s: Seq<char>) -> int {
    if text::cut(s, '\n') < s.len() {
        text::cut(s, '\n') + 1
    } else {
        s.len() as int
    }
}

/// The lines of `s`, each with the newline that ends it.
pub open spec fn lines_of(s: Seq<char>) -> Seq<Seq<char>>
    decreases s.len(),
{
    if s.len() == 0 {
        Seq::empty()
    } else {
        proof {
            text::lemma_cut(s, '\n');
        }
        seq![s.take(line_len(s))] + lines_of(s.skip(line_len(s)))
    }
}

/// The concatenation of `parts`.
pub open spec fn joined(parts: Seq<Seq<char>>) -> Seq<char>
    decreases parts.len(),
{
    if parts.len() == 0 {
        Seq::empty()
    } else {
        parts[0] + joined(parts.skip(1))
    }
}

/// `s` is empty or ends in a newline.
pub open spec fn ended(s: Seq<char>) -> bool {
    s.len() == 0 || s.last() == '\n'
}

/// `s` with a newline at its end, where it is not empty and lacks one.
pub open spec fn with_nl(s: Seq<char>) -> Seq<char> {
    if ended(s) {
        s
    } else {
        s.push('\n')
    }
}

/// `s` has a newline at its end at most.
pub open spec fn one_line(s: Seq<char>) -> bool {
    &&& s.len() > 0
    &&& forall|i: int| 0 <= i < s.len() - 1 ==> s[i] != '\n'
}

/// `lines` are the lines of some text.
pub open spec fn good_lines(lines: Seq<Seq<char>>) -> bool {
    &&& forall|i: int| 0 <= i < lines.len() ==> one_line(#[trigger] lines[i])
    &&& forall|i: int| 0 <= i < lines.len() - 1 ==> ended(#[trigger] lines[i])
}

/// `lines` are the lines of some text that is empty or ends in a newline.
pub open spec fn ended_lines(lines: Seq<Seq<char>>) -> bool {
    forall|i: int|
        0 <= i < lines.len() ==> one_line(#[trigger] lines[i]) && ended(lines[i])
}

pub proof fn lemma_joined_add(a: Seq<Seq<char>>, b: Seq<Seq<char>>)
    ensures
        joined(a + b) == joined(a) + joined(b),
    decreases a.len(),
{
    if a.len() == 0 {
        assert(a + b == b);
        assert(joined(a) + joined(b) == joined(b));
    } else {
        assert((a + b).skip(1) == a.skip(1) + b);
        lemma_joined_add(a.skip(1), b);
        assert((a + b)[0] == a[0]);
        assert(joined(a + b) == a[0] + (joined(a.skip(1)) + joined(b)));
        assert(joined(a) + joined(b) == a[0] + joined(a.skip(1)) + joined(b));
    }
}

pub proof fn lemma_joined_one(a: Seq<char>)
    ensures
        joined(seq![a]) == a,
{
    assert(seq![a].skip(1) == Seq::<Seq<char>>::empty());
    assert(joined(Seq::<Seq<char>>::empty()) == Seq::<char>::empty());
    assert(a + Seq::<char>::empty() == a);
}

pub proof fn lemma_joined_push(a: Seq<Seq<char>>, x: Seq<char>)
    ensures
        joined(a.push(x)) == joined(a) + x,
{
    assert(a.push(x) == a + seq![x]);
    lemma_joined_add(a, seq![x]);
    lemma_joined_one(x);
}

pub proof fn lemma_joined_split(a: Seq<Seq<char>>, n: int)
    requires
        0 <= n <= a.len(),
    ensures
        joined(a) == joined(a.take(n)) + joined(a.skip(n)),
{
    assert(a == a.take(n) + a.skip(n));
    lemma_joined_add(a.take(n), a.skip(n));
}

/// The lines of a text are well formed, and their concatenation is the text.
pub proof fn lemma_lines_of(s: Seq<char>)
    ensures
        good_lines(lines_of(s)),
        joined(lines_of(s)) == s,
        lines_of(s).len() == 0 <==> s.len() == 0,
        ended(s) ==> ended_lines(lines_of(s)),
    decreases s.len(),
{
    if s.len() > 0 {
        text::lemma_cut(s, '\n');
        let n = line_len(s);
        let first = s.take(n);
        let rest = s.skip(n);
        lemma_lines_of(rest);
        let all = lines_of(s);
        assert(all.skip(1) == lines_of(rest));
        assert(first + rest == s);
        assert(one_line(first));
        assert forall|i: int| 0 <= i < all.len() implies one_line(#[trigger] all[i]) by {
            if i > 0 {
                assert(all[i] == lines_of(rest)[i - 1]);
            }
        }
        assert forall|i: int| 0 <= i < all.len() - 1 implies ended(#[trigger] all[i]) by {
            if i > 0 {
                assert(all[i] == lines_of(rest)[i - 1]);
            } else {
                assert(rest.len() > 0);
                assert(first.last() == '\n');
            }
        }
        if ended(s) {
            if rest.len() > 0 {
                assert(rest.last() == s.last());
                assert(first.last() == '\n');
            } else {
                assert(first.last() == s.last());
            }
            assert forall|i: int| 0 <= i < all.len() implies one_line(#[trigger] all[i]) && ended(
                all[i],
            ) by {
                if i > 0 {
                    assert(all[i] == lines_of(rest)[i - 1]);
                }
            }
        }
    }
}

/// Well-formed lines are the lines of their concatenation.
pub proof fn lemma_lines_of_joined(lines: Seq<Seq<char>>)
    requires
        good_lines(lines),
    ensures
        lines_of(joined(lines)) == lines,
    decreases lines.len(),
{
    if lines.len() == 0 {
        assert(lines_of(joined(lines)) == lines);
    } else {
        let first = lines[0];
        let rest = lines.skip(1);
        assert forall|i: int| 0 <= i < rest.len() implies one_line(#[trigger] rest[i]) by {
            assert(rest[i] == lines[i + 1]);
        }
        assert forall|i: int| 0 <= i < rest.len() - 1 implies ended(#[trigger] rest[i]) by {
            assert(rest[i] == lines[i + 1]);
        }
        lemma_lines_of_joined(rest);
        let s = joined(lines);
        assert(s == first + joined(rest));
        assert(one_line(first));
        if rest.len() == 0 {
            assert(joined(rest).len() == 0);
            assert(s == first);
        } else {
            assert(ended(first));
        }
        if first.last() == '\n' {
            text::lemma_cut_unique(s, '\n', first.len() - 1);
        } else {
            text::lemma_cut_unique(s, '\n', first.len() as int);
        }
        assert(line_len(s) == first.len());
        assert(s.take(first.len() as int) == first);
        assert(s.skip(first.len() as int) == joined(rest));
        assert(seq![first] + rest == lines);
    }
}

/// Where a text ends in a newline, what follows it starts a new line.
pub proof fn lemma_lines_add(a: Seq<char>, b: Seq<char>)
    requires
        ended(a),
    ensures
        lines_of(a + b) == lines_of(a) + lines_of(b),
{
    lemma_lines_of(a);
    lemma_lines_of(b);
    let all = lines_of(a) + lines_of(b);
    assert forall|i: int| 0 <= i < all.len() implies one_line(#[trigger] all[i]) by {
        if i < lines_of(a).len() {
            assert(all[i] == lines_of(a)[i]);
        } else {
            assert(all[i] == lines_of(b)[i - lines_of(a).len()]);
        }
    }
    assert forall|i: int| 0 <= i < all.len() - 1 implies ended(#[trigger] all[i]) by {
        if i < lines_of(a).len() {
            assert(all[i] == lines_of(a)[i]);
        } else {
            assert(all[i] == lines_of(b)[i - lines_of(a).len()]);
        }
    }
    lemma_joined_add(lines_of(a), lines_of(b));
    lemma_lines_of_joined(all);
}

/// The concatenation of ended lines ends in a newline.
pub proof fn lemma_joined_ended(lines: Seq<Seq<char>>)
    requires
        ended_lines(lines),
    ensures
        ended(joined(lines)),
    decreases lines.len(),
{
    if lines.len() > 0 {
        let rest = lines.skip(1);
        assert forall|i: int| 0 <= i < rest.len() implies one_line(#[trigger] rest[i]) && ended(
            rest[i],
        ) by {
            assert(rest[i] == lines[i + 1]);
        }
        lemma_joined_ended(rest);
        assert(ended(lines[0]));
        if joined(rest).len() > 0 {
            assert(joined(lines).last() == joined(rest).last());
        } else {
            assert(joined(lines) == lines[0]);
        }
    }
}

/// One more char goes on a line of its own where the text ends in a newline, else on the
/// last line.
pub proof fn lemma_lines_push(s: Seq<char>, c: char)
    ensures
        ended(s) ==> lines_of(s.push(c)) == lines_of(s).push(seq![c]),
        !ended(s) ==> lines_of(s).len() > 0 && !ended(lines_of(s).last()) && lines_of(s.push(c))
            == lines_of(s).drop_last().push(lines_of(s).last().push(c)),
{
    lemma_lines_of(s);
    let ls = lines_of(s);
    if ended(s) {
        assert(s.push(c) == s + seq![c]);
        lemma_lines_add(s, seq![c]);
        let one = seq![c];
        assert(good_lines(seq![one]));
        lemma_joined_one(one);
        lemma_lines_of_joined(seq![one]);
        assert(ls + seq![one] == ls.push(one));
    } else {
        let init = ls.drop_last();
        let last = ls.last();
        assert(ls == init.push(last));
        lemma_joined_push(init, last);
        assert(last.len() > 0);
        assert(s.last() == last.last());
        let all = init.push(last.push(c));
        lemma_joined_push(init, last.push(c));
        assert(joined(init) + last.push(c) == s.push(c));
        assert forall|i: int| 0 <= i < all.len() implies one_line(#[trigger] all[i]) by {
            if i < init.len() {
                assert(all[i] == ls[i]);
            } else {
                assert(one_line(ls[ls.len() - 1]));
            }
        }
        assert forall|i: int| 0 <= i < all.len() - 1 implies ended(#[trigger] all[i]) by {
            assert(all[i] == ls[i]);
        }
        lemma_lines_of_joined(all);
    }
}

/// The texts of a sequence of strings.
pub open spec fn texts(v: Seq<String>) -> Seq<Seq<char>> {
    v.map_values(|s: String| s@)
}

/// The lines of `s`.
pub fn split_lines(s: &str) -> (r: Vec<String>)
    ensures
        texts(r@) == lines_of(s@),
{
    let v = text::chars_of(s);
    let mut out: Vec<String> = Vec::new();
    let mut at: usize = 0;
    assert(v@.skip(0) == v@);
    assert(texts(out@) + lines_of(v@) == lines_of(v@));
    while at < v.len()
        invariant
            at <= v.len(),
            v@ == s@,
            lines_of(s@) == texts(out@) + lines_of(v@.skip(at as int)),
        decreases v.len() - at,
    {
        let ghost rest = v@.skip(at as int);
        let mut n: usize = at;
        while n < v.len() && v[n] != '\n'
            invariant
                at <= n <= v.len(),
                forall|i: int| at <= i < n ==> v@[i] != '\n',
            decreases v.len() - n,
        {
            n += 1;
        }
        proof {
            assert forall|i: int| 0 <= i < n - at implies rest[i] != '\n' by {
                assert(rest[i] == v@[at + i]);
            }
            text::lemma_cut_unique(rest, '\n', n - at);
        }
        if n < v.len() {
            n += 1;
        }
        let line = text::text_of(&v, at, n);
        let ghost before = texts(out@);
        out.push(line);
        proof {
            assert(line_len(rest) == n - at);
            assert(rest.take(n - at) == line@);
            assert(rest.skip(n - at) == v@.skip(n as int));
            assert(texts(out@) == before.push(line@));
            assert(before + (seq![line@] + lines_of(v@.skip(n as int))) == before.push(line@)
                + lines_of(v@.skip(n as int)));
        }
        at = n;
    }
    proof {
        assert(v@.skip(at as int).len() == 0);
        assert(texts(out@) + Seq::<Seq<char>>::empty() == texts(out@));
    }
    out
}

/// The concatenation of `parts[from..to]`.
pub fn join(parts: &Vec<String>, from: usize, to: usize) -> (r: String)
    requires
        from <= to <= parts.len(),
    ensures
        r@ == joined(texts(parts@).subrange(from as int, to as int)),
{
    let mut out = String::new();
    let mut i: usize = from;
    let ghost all = texts(parts@);
    while i < to
        invariant
            from <= i <= to <= parts.len(),
            all == texts(parts@),
            out@ == joined(all.subrange(from as int, i as int)),
        decreases to - i,
    {
        out.append(parts[i].as_str());
        proof {
            lemma_joined_push(all.subrange(from as int, i as int), all[i as int]);
            assert(all.subrange(from as int, i as int).push(all[i as int]) == all.subrange(
                from as int,
                i + 1,
            ));
        }
        i += 1;
    }
    out
}

/// `s` with a newline at its end, where it is not empty and lacks one.
pub fn ensure_nl(s: String) -> (r: String)
    ensures
        r@ == with_nl(s@),
{
    let v = text::chars_of(s.as_str());
    let mut s = s;
    if v.len() > 0 && v[v.len() - 1] != '\n' {
        s.push('\n');
    }
    s
}

} // verus!
