//! Reading a value from a credentials file, and how it stays through writes of the gateway's
//! key.

use vstd::prelude::*;

use crate::actions;
use crate::credential_laws;
use crate::credentials;
use crate::key_laws;
use crate::lines;
use crate::shape;
use crate::text;
use crate::text_laws;

verus! {

/// A key that a line can give: not empty, without `:`, line breaks and white space in front.
pub open spec fn good_key(key: Seq<char>) -> bool {
    &&& key.len() > 0
    &&& !text::white(key[0])
    &&& forall|i: int| 0 <= i < key.len() ==> #[trigger] key[i] != ':' && key[i] != '\n'
}

/// No quotation mark.
pub open spec fn unquoted_char(c: char) -> bool {
    c != '"' && c != '\''
}

/// A value: without line breaks, and neither white space nor a quotation mark at its ends.
pub open spec fn good_value(v: Seq<char>) -> bool {
    &&& v.len() > 0
    &&& text_laws::unbroken(v)
    &&& !text::white(v[0]) && !text::white(v.last())
    &&& unquoted_char(v[0]) && unquoted_char(v.last())
}

proof fn lemma_label_at(ls: Seq<Seq<char>>, label: Seq<char>)
    ensures
        0 <= credentials::label_at(ls, label) <= ls.len(),
        forall|i: int|
            0 <= i < credentials::label_at(ls, label) ==> !key_laws::labelled(
                #[trigger] ls[i],
                label,
            ),
        credentials::label_at(ls, label) < ls.len() ==> key_laws::labelled(
            ls[credentials::label_at(ls, label)],
            label,
        ),
    decreases ls.len(),
{
    if ls.len() > 0 && !label.is_prefix_of(text::trimmed_start(ls[0])) {
        let rest = ls.skip(1);
        lemma_label_at(rest, label);
        assert forall|i: int| 0 <= i < credentials::label_at(ls, label) implies !key_laws::labelled(
            #[trigger] ls[i],
            label,
        ) by {
            if i > 0 {
                assert(ls[i] == rest[i - 1]);
            }
        }
        let n = credentials::label_at(rest, label);
        if n < rest.len() {
            assert(rest[n] == ls[n + 1]);
        }
    }
}

proof fn lemma_label_at_unique(ls: Seq<Seq<char>>, label: Seq<char>, n: int)
    requires
        0 <= n <= ls.len(),
        forall|i: int| 0 <= i < n ==> !key_laws::labelled(#[trigger] ls[i], label),
        n < ls.len() ==> key_laws::labelled(ls[n], label),
    ensures
        credentials::label_at(ls, label) == n,
{
    lemma_label_at(ls, label);
    let k = credentials::label_at(ls, label);
    if k < n {
        assert(key_laws::labelled(ls[k], label));
    } else if n < k {
        assert(!key_laws::labelled(ls[n], label));
    }
}

proof fn lemma_bare(v: Seq<char>)
    requires
        good_value(v),
    ensures
        credentials::unquoted(v) == v,
        credentials::unquoted(seq!['"'] + v + seq!['"']) == v,
        credentials::unquoted(seq!['\''] + v + seq!['\'']) == v,
{
    let d = seq!['"'] + v + seq!['"'];
    let r = v + seq!['"'];
    assert(d.skip(1) == r);
    assert(text::stripped_start(r, '"') == r);
    assert(text::stripped_start(d, '"') == r);
    assert(r.drop_last() == v);
    assert(text::stripped_end(v, '"') == v);
    assert(text::stripped_end(r, '"') == v);
    assert(text::stripped_start(v, '\'') == v);
    assert(text::stripped_end(v, '\'') == v);
    let e = seq!['\''] + v + seq!['\''];
    let q = v + seq!['\''];
    assert(text::stripped_start(e, '"') == e);
    assert(text::stripped_end(e, '"') == e);
    assert(e.skip(1) == q);
    assert(text::stripped_start(q, '\'') == q);
    assert(text::stripped_start(e, '\'') == q);
    assert(q.drop_last() == v);
    assert(text::stripped_end(q, '\'') == v);
}

/// So many quotation marks.
pub open spec fn marks(c: char, n: nat) -> Seq<char> {
    Seq::new(n, |i: int| c)
}

proof fn lemma_marks_start(c: char, n: nat, v: Seq<char>)
    requires
        v.len() > 0,
        v[0] != c,
    ensures
        text::stripped_start(marks(c, n) + v, c) == v,
    decreases n,
{
    let s = marks(c, n) + v;
    if n == 0 {
        assert(s == v);
    } else {
        lemma_marks_start(c, (n - 1) as nat, v);
        assert(s.skip(1) == marks(c, (n - 1) as nat) + v);
    }
}

proof fn lemma_marks_end(c: char, n: nat, v: Seq<char>)
    requires
        v.len() > 0,
        v.last() != c,
    ensures
        text::stripped_end(v + marks(c, n), c) == v,
    decreases n,
{
    let s = v + marks(c, n);
    if n == 0 {
        assert(s == v);
    } else {
        lemma_marks_end(c, (n - 1) as nat, v);
        assert(s.drop_last() == v + marks(c, (n - 1) as nat));
    }
}

/// All quotation marks around a value go, double ones first.
pub proof fn law_unquoted(v: Seq<char>, a: nat, b: nat, c: nat, d: nat)
    requires
        good_value(v),
    ensures
        credentials::unquoted(
            marks('"', a) + (marks('\'', b) + v + marks('\'', c)) + marks('"', d),
        ) == v,
{
    let mid = marks('\'', b) + v + marks('\'', c);
    assert(mid.len() > 0);
    assert(mid[0] != '"') by {
        if b > 0 {
            assert(mid[0] == '\'');
        } else {
            assert(mid[0] == v[0]);
        }
    }
    assert(mid.last() != '"') by {
        if c > 0 {
            assert(mid.last() == '\'');
        } else {
            assert(mid.last() == v.last());
        }
    }
    let s = marks('"', a) + mid + marks('"', d);
    let t = mid + marks('"', d);
    assert(s == marks('"', a) + t);
    assert(t[0] == mid[0]);
    lemma_marks_start('"', a, t);
    lemma_marks_end('"', d, mid);
    let w = v + marks('\'', c);
    assert(mid == marks('\'', b) + w);
    assert(w[0] == v[0]);
    lemma_marks_start('\'', b, w);
    lemma_marks_end('\'', c, v);
}

/// What the line with the label gives.
proof fn lemma_line_value(
    pre: Seq<char>,
    a: Seq<char>,
    key: Seq<char>,
    s: Seq<char>,
    mid: Seq<char>,
    t: Seq<char>,
    post: Seq<char>,
)
    requires
        shape::whole(pre),
        good_key(key),
        !text_laws::inside(pre, key + ":"@),
        text::blank(a) && text_laws::unbroken(a),
        text::blank(s) && text_laws::unbroken(s),
        text::blank(t) && text_laws::unbroken(t),
        text_laws::unbroken(mid),
        mid.len() > 0 ==> !text::white(mid[0]) && !text::white(mid.last()),
    ensures
        credentials::yaml_value(pre + (a + key + ":"@ + s + mid + t + "\n"@) + post, key) == ({
            let v = credentials::unquoted(mid);
            if v.len() == 0 {
                None
            } else {
                Some(v)
            }
        }),
{
    reveal_strlit(":");
    reveal_strlit("\n");
    let label = key.push(':');
    assert(label == key + ":"@);
    let l = a + key + ":"@ + s + mid + t;
    let line = l + "\n"@;
    let content = pre + line + post;
    assert forall|i: int| 0 <= i < l.len() implies #[trigger] l[i] != '\n' by {
        let n1 = a.len();
        let n2 = n1 + key.len();
        let n3 = n2 + 1;
        let n4 = n3 + s.len();
        let n5 = n4 + mid.len();
        if i < n1 {
            assert(l[i] == a[i]);
        } else if i < n2 {
            assert(l[i] == key[i - n1]);
        } else if i < n3 {
        } else if i < n4 {
            assert(l[i] == s[i - n3]);
        } else if i < n5 {
            assert(l[i] == mid[i - n4]);
        } else {
            assert(l[i] == t[i - n5]);
        }
    }
    assert(line == l.push('\n'));
    assert(content == pre + (line + post));
    lines::lemma_lines_add(pre, line + post);
    text_laws::law_lines(l, post);
    let lp = lines::lines_of(pre);
    let ls = lines::lines_of(content);
    let n = lp.len() as int;
    assert(ls[n] == line);
    key_laws::lemma_unlabelled(pre, label);
    let behind = s + mid + (t + "\n"@);
    assert(line == a + label + behind);
    key_laws::lemma_label(a, label, behind);
    assert forall|i: int| 0 <= i < n implies !key_laws::labelled(#[trigger] ls[i], label) by {
        assert(ls[i] == lp[i]);
    }
    lemma_label_at_unique(ls, label, n);
    let c = a.len() as int + key.len();
    assert forall|i: int| 0 <= i < c implies line[i] != ':' by {
        if i < a.len() {
            assert(line[i] == a[i]);
            assert(text::white(a[i]));
        } else {
            assert(line[i] == key[i - a.len()]);
        }
    }
    assert(line[c as int] == ':');
    text::lemma_cut_unique(line, ':', c as int);
    assert(line.skip(c + 1) == behind);
    let w = t + "\n"@;
    assert(text::blank(w)) by {
        assert forall|i: int| 0 <= i < w.len() implies text::white(#[trigger] w[i]) by {
            if i < t.len() {
                assert(w[i] == t[i]);
            }
        }
    }
    if mid.len() > 0 {
        text_laws::law_trimmed(s, mid, w);
    } else {
        assert(behind == s + w);
        assert(text::blank(behind)) by {
            assert forall|i: int| 0 <= i < behind.len() implies text::white(#[trigger] behind[i]) by {
                if i < s.len() {
                    assert(behind[i] == s[i]);
                } else {
                    assert(behind[i] == w[i - s.len()]);
                }
            }
        }
        text::lemma_blank_trimmed(behind);
        assert(text::trimmed(behind) == mid);
    }
}

/// The value of a key is what stands behind its first `key:`, without white space and
/// quotation marks around it.
pub proof fn law_value(
    pre: Seq<char>,
    a: Seq<char>,
    key: Seq<char>,
    s: Seq<char>,
    v: Seq<char>,
    t: Seq<char>,
    post: Seq<char>,
)
    requires
        shape::whole(pre),
        good_key(key),
        !text_laws::inside(pre, key + ":"@),
        text::blank(a) && text_laws::unbroken(a),
        text::blank(s) && text_laws::unbroken(s),
        text::blank(t) && text_laws::unbroken(t),
        good_value(v),
    ensures
        credentials::yaml_value(pre + (a + key + ":"@ + s + v + t + "\n"@) + post, key) == Some(v),
        credentials::yaml_value(
            pre + (a + key + ":"@ + s + (seq!['"'] + v + seq!['"']) + t + "\n"@) + post,
            key,
        ) == Some(v),
        credentials::yaml_value(
            pre + (a + key + ":"@ + s + (seq!['\''] + v + seq!['\'']) + t + "\n"@) + post,
            key,
        ) == Some(v),
        credentials::yaml_value(
            pre + (a + key + ":"@ + s + Seq::<char>::empty() + t + "\n"@) + post,
            key,
        ) is None,
{
    lemma_bare(v);
    lemma_line_value(pre, a, key, s, v, t, post);
    let d = seq!['"'] + v + seq!['"'];
    let e = seq!['\''] + v + seq!['\''];
    assert(text_laws::unbroken(d)) by {
        assert forall|i: int| 0 <= i < d.len() implies #[trigger] d[i] != '\n' by {
            if 0 < i < d.len() - 1 {
                assert(d[i] == v[i - 1]);
            }
        }
    }
    assert(text_laws::unbroken(e)) by {
        assert forall|i: int| 0 <= i < e.len() implies #[trigger] e[i] != '\n' by {
            if 0 < i < e.len() - 1 {
                assert(e[i] == v[i - 1]);
            }
        }
    }
    lemma_line_value(pre, a, key, s, d, t, post);
    lemma_line_value(pre, a, key, s, e, t, post);
    let none = Seq::<char>::empty();
    lemma_line_value(pre, a, key, s, none, t, post);
    assert(credentials::unquoted(none) == none);
}

/// The value that is read, and whether the key is there, are those of the text.
pub proof fn law_read(content: &str, key: &str, v: Option<String>, has: bool)
    requires
        call_ensures(credentials::extract_yaml_value, (content, key), v),
        call_ensures(credentials::has_key, (content,), has),
    ensures
        v is Some <==> credentials::yaml_value(content@, key@) is Some,
        v is Some ==> v->0@ == credentials::yaml_value(content@, key@)->0,
        has ==> text_laws::inside(content@, "AIS_CODEX_API_KEY:"@),
{
    if !text_laws::inside(content@, "AIS_CODEX_API_KEY:"@) {
        key_laws::lemma_no_key(content@);
    }
}

/// A key that stands nowhere has no value.
pub proof fn law_no_value(content: Seq<char>, key: Seq<char>)
    requires
        !text_laws::inside(content, key + ":"@),
    ensures
        credentials::yaml_value(content, key) is None,
{
    reveal_strlit(":");
    let ls = lines::lines_of(content);
    assert(key.push(':') == key + ":"@);
    key_laws::lemma_unlabelled(content, key.push(':'));
    lemma_label_at_unique(ls, key.push(':'), ls.len() as int);
}

/// The value that lines give.
pub open spec fn value_in(ls: Seq<Seq<char>>, key: Seq<char>) -> Option<Seq<char>> {
    let n = credentials::label_at(ls, key.push(':'));
    if n >= ls.len() {
        None
    } else {
        let v = credentials::unquoted(text::trimmed(ls[n].skip(text::cut(ls[n], ':') + 1)));
        if v.len() == 0 {
            None
        } else {
            Some(v)
        }
    }
}

/// A line without the label does not matter.
proof fn lemma_value_around(a: Seq<Seq<char>>, l: Seq<char>, b: Seq<Seq<char>>, key: Seq<char>)
    requires
        !key_laws::labelled(l, key.push(':')),
    ensures
        value_in(a + seq![l] + b, key) == value_in(a + b, key),
{
    let label = key.push(':');
    let x = a + seq![l] + b;
    let y = a + b;
    lemma_label_at(y, label);
    let n = credentials::label_at(y, label);
    let m = if n < a.len() {
        n
    } else {
        n + 1
    };
    assert forall|i: int| 0 <= i < m implies !key_laws::labelled(#[trigger] x[i], label) by {
        if i < a.len() {
            assert(x[i] == y[i]);
        } else if i > a.len() {
            assert(x[i] == y[i - 1]);
        }
    }
    if n < y.len() {
        assert(x[m] == y[n]);
    }
    lemma_label_at_unique(x, label, m);
}

/// White space at the end of a text does not matter.
proof fn lemma_value_push(s: Seq<char>, c: char, key: Seq<char>)
    requires
        good_key(key),
        text::white(c),
    ensures
        credentials::yaml_value(s.push(c), key) == credentials::yaml_value(s, key),
{
    let label = key.push(':');
    let ls = lines::lines_of(s);
    let none = Seq::<Seq<char>>::empty();
    lines::lemma_lines_push(s, c);
    if lines::ended(s) {
        let l = seq![c];
        assert(text::blank(l));
        text::lemma_trimmed_start(l);
        assert(!key_laws::labelled(l, label)) by {
            if key_laws::labelled(l, label) {
                assert(text::trimmed_start(l)[0] == label[0]);
            }
        }
        lemma_value_around(ls, l, none, key);
        assert(ls.push(l) == ls + seq![l] + none);
        assert(ls + none == ls);
    } else {
        let l = ls.last();
        let m = l.push(c);
        let init = ls.drop_last();
        let ms = init.push(m);
        credential_laws::lemma_start_push(l, c);
        text::lemma_trimmed_start(l);
        let tl = text::trimmed_start(l);
        let tm = text::trimmed_start(m);
        assert(key_laws::labelled(m, label) == key_laws::labelled(l, label)) by {
            if tl.len() > 0 {
                if key_laws::labelled(m, label) {
                    if tl.len() < label.len() {
                        assert(tm[label.len() - 1] == label[label.len() - 1]);
                        assert(tm[label.len() - 1] == c);
                    }
                    assert(tl.take(label.len() as int) == tm.take(label.len() as int));
                }
                if key_laws::labelled(l, label) {
                    assert(tl.take(label.len() as int) == tm.take(label.len() as int));
                }
            } else {
                assert(label.len() >= 2);
            }
        }
        lemma_label_at(ls, label);
        let n = credentials::label_at(ls, label);
        assert forall|i: int| 0 <= i < n implies !key_laws::labelled(#[trigger] ms[i], label) by {
            if i < init.len() {
                assert(ms[i] == ls[i]);
            }
        }
        if n < ls.len() {
            if n < init.len() {
                assert(ms[n] == ls[n]);
            }
        }
        lemma_label_at_unique(ms, label, n);
        if n == init.len() {
            // The value stands on the last line.
            text::lemma_cut(l, ':');
            let k = text::cut(l, ':');
            assert(k < l.len()) by {
                let j = l.len() - tl.len() + key.len();
                assert(tl.take(label.len() as int)[key.len() as int] == ':');
                assert(l[j] == ':');
            }
            text::lemma_cut_unique(m, ':', k);
            let r = l.skip(k + 1);
            assert(m.skip(k + 1) == r.push(c));
            lemma_trimmed_push(r, c);
        }
    }
}

proof fn lemma_trimmed_push(r: Seq<char>, c: char)
    requires
        text::white(c),
    ensures
        text::trimmed(r.push(c)) == text::trimmed(r),
{
    credential_laws::lemma_start_push(r, c);
    text::lemma_trimmed_start(r);
    text::lemma_trimmed_start(r.push(c));
    let t = text::trimmed_start(r);
    if t.len() > 0 {
        assert(t.push(c).drop_last() == t);
    } else {
        text::lemma_blank_trimmed(r);
        assert(text::blank(r)) by {
            assert forall|i: int| 0 <= i < r.len() implies text::white(#[trigger] r[i]) by {}
        }
        let rc = r.push(c);
        assert(text::blank(rc)) by {
            assert forall|i: int| 0 <= i < rc.len() implies text::white(#[trigger] rc[i]) by {
                if i < r.len() {
                    assert(rc[i] == r[i]);
                }
            }
        }
        text::lemma_blank_trimmed(rc);
        assert(text::trimmed(rc) == text::trimmed(r));
    }
}

proof fn lemma_value_white(s: Seq<char>, w: Seq<char>, key: Seq<char>)
    requires
        good_key(key),
        text::blank(w),
    ensures
        credentials::yaml_value(s + w, key) == credentials::yaml_value(s, key),
    decreases w.len(),
{
    if w.len() == 0 {
        assert(s + w == s);
    } else {
        let init = w.drop_last();
        assert forall|i: int| 0 <= i < init.len() implies text::white(#[trigger] init[i]) by {
            assert(init[i] == w[i]);
        }
        lemma_value_white(s, init, key);
        lemma_value_push(s + init, w.last(), key);
        assert(s + w == (s + init).push(w.last()));
    }
}

proof fn lemma_value_nl(s: Seq<char>, key: Seq<char>)
    requires
        good_key(key),
    ensures
        credentials::yaml_value(lines::with_nl(s), key) == credentials::yaml_value(s, key),
{
    if !lines::ended(s) {
        lemma_value_push(s, '\n', key);
    }
}

/// A line with the gateway's key does not have the label of another key.
proof fn lemma_other_label(l: Seq<char>, key: Seq<char>)
    requires
        good_key(key),
        key != "AIS_CODEX_API_KEY"@,
        credentials::is_key_line(l),
    ensures
        !key_laws::labelled(l, key.push(':')),
{
    let label = key.push(':');
    let own = "AIS_CODEX_API_KEY:"@;
    reveal_strlit("AIS_CODEX_API_KEY:");
    reveal_strlit("AIS_CODEX_API_KEY");
    let t = text::trimmed_start(l);
    if key_laws::labelled(l, label) {
        let n = label.len() as int;
        assert(t.take(n) == label);
        assert(t.take(18) == own);
        assert forall|i: int| 0 <= i < 17 implies #[trigger] t[i] != ':' by {
            assert(t.take(18)[i] == own[i]);
        }
        assert(t.take(n)[n - 1] == ':');
        assert(t.take(18)[17] == ':');
        if n < 18 {
            assert(t[n - 1] == ':');
        } else if n > 18 {
            assert(t[17] == label[17]);
            assert(label[17] == key[17]);
        } else {
            assert(key =~= "AIS_CODEX_API_KEY"@) by {
                assert forall|i: int| 0 <= i < 17 implies key[i] == "AIS_CODEX_API_KEY"@[i] by {
                    assert(t.take(n)[i] == label[i]);
                    assert(t.take(18)[i] == own[i]);
                }
            }
        }
    }
}

proof fn lemma_value_others(ls: Seq<Seq<char>>, key: Seq<char>)
    requires
        good_key(key),
        key != "AIS_CODEX_API_KEY"@,
    ensures
        value_in(credentials::other_lines(ls), key) == value_in(ls, key),
    decreases ls.len(),
{
    if ls.len() > 0 {
        lemma_value_front(ls, Seq::empty(), key);
        assert(Seq::<Seq<char>>::empty() + credentials::other_lines(ls)
            == credentials::other_lines(ls));
        assert(Seq::<Seq<char>>::empty() + ls == ls);
    } else {
        credential_laws::lemma_others_all(ls);
    }
}

/// As above, with lines in front.
proof fn lemma_value_front(ls: Seq<Seq<char>>, front: Seq<Seq<char>>, key: Seq<char>)
    requires
        good_key(key),
        key != "AIS_CODEX_API_KEY"@,
    ensures
        value_in(front + credentials::other_lines(ls), key) == value_in(front + ls, key),
    decreases ls.len(),
{
    if ls.len() > 0 {
        let l = ls[0];
        let rest = ls.skip(1);
        assert(ls == seq![l] + rest);
        credential_laws::lemma_others_add(seq![l], rest);
        if credentials::is_key_line(l) {
            credential_laws::lemma_others_key(l);
            lemma_other_label(l, key);
            lemma_value_front(rest, front, key);
            lemma_value_around(front, l, rest, key);
            assert(credentials::other_lines(seq![l]) == Seq::<Seq<char>>::empty());
            assert(credentials::other_lines(ls) == credentials::other_lines(rest));
            assert(front + ls == front + seq![l] + rest);
        } else {
            credential_laws::lemma_others_all(seq![l]);
            lemma_value_front(rest, front.push(l), key);
            assert(front + credentials::other_lines(ls) == front.push(l)
                + credentials::other_lines(rest));
            assert(front + ls == front.push(l) + rest);
        }
    } else {
        credential_laws::lemma_others_all(ls);
    }
}

proof fn lemma_value_blank(s: Seq<char>, key: Seq<char>)
    requires
        good_key(key),
        text::blank(s),
    ensures
        credentials::yaml_value(s, key) is None,
{
    let none = Seq::<char>::empty();
    lemma_value_white(none, s, key);
    assert(none + s == s);
    lines::lemma_lines_of(none);
}

/// Setting the gateway up and removing it leave the value of every other key of the
/// credentials, the official one among them.
pub proof fn law_other_keys_stay(cred: Seq<char>, key: Seq<char>)
    requires
        good_key(key),
        key != "AIS_CODEX_API_KEY"@,
        !credential_laws::hanging(cred),
        key != "version"@,
        key != "refs"@,
    ensures
        credentials::yaml_value(actions::setup_cred(cred, true), key) == credentials::yaml_value(
            cred,
            key,
        ),
        credentials::yaml_value(actions::removed_cred(cred), key) == credentials::yaml_value(
            cred,
            key,
        ),
{
    let ls = lines::lines_of(cred);
    let n = credentials::refs_at(ls);
    let kl = credentials::key_line();
    let ll = credentials::last_key_line();
    key_laws::lemma_key_label();
    reveal_strlit("  ");
    reveal_strlit(" local\n");
    let own = "AIS_CODEX_API_KEY:"@;
    assert(text::blank("  "@));
    key_laws::lemma_label("  "@, own, " local\n"@);
    key_laws::lemma_label(Seq::empty(), own, " local\n"@);
    assert(Seq::<char>::empty() + own + " local\n"@ == ll);
    lemma_other_label(kl, key);
    lemma_other_label(ll, key);
    credentials::lemma_refs_at(ls);
    lines::lemma_lines_of(cred);
    // Writing.
    if credentials::key_in(cred) {
        lemma_value_nl(cred, key);
    } else if n < ls.len() {
        let a = ls.take(n + 1);
        let b = ls.skip(n + 1);
        lemma_value_around(a, kl, b, key);
        assert(a + b == ls);
        let x = lines::joined(a) + kl + lines::joined(b);
        let all = a + seq![kl] + b;
        assert(lines::good_lines(all)) by {
            lemma_kl();
            assert forall|i: int| 0 <= i < all.len() implies lines::one_line(#[trigger] all[i]) by {
                if i < a.len() {
                    assert(all[i] == ls[i]);
                } else if i > a.len() {
                    assert(all[i] == ls[i - 1]);
                }
            }
            assert forall|i: int| 0 <= i < all.len() - 1 implies lines::ended(
                #[trigger] all[i],
            ) by {
                if i < a.len() {
                    assert(all[i] == ls[i]);
                    if i == ls.len() - 1 {
                        // The last line is `refs:`, and it is ended.
                        lemma_last_ended(cred);
                    }
                } else if i > a.len() {
                    assert(all[i] == ls[i - 1]);
                }
            }
        }
        lines::lemma_joined_add(a + seq![kl], b);
        lines::lemma_joined_add(a, seq![kl]);
        lines::lemma_joined_one(kl);
        lines::lemma_lines_of_joined(all);
        assert(x == lines::joined(all));
        lemma_value_nl(x, key);
    } else if text::blank(cred) {
        lemma_value_blank(cred, key);
        lemma_empty_form(key);
    } else {
        let body = text::trimmed_end(cred);
        let w = text::lemma_trimmed_rest(cred);
        lemma_value_white(body, w, key);
        let x = body.push('\n');
        lemma_value_push(body, '\n', key);
        lines::lemma_lines_add(x, ll);
        lemma_kl();
        let lx = lines::lines_of(x);
        assert(lines::lines_of(ll) == seq![ll]) by {
            lines::lemma_joined_one(ll);
            lines::lemma_lines_of_joined(seq![ll]);
        }
        let none = Seq::<Seq<char>>::empty();
        lemma_value_around(lx, ll, none, key);
        assert(lx + seq![ll] + none == lx + seq![ll]);
        assert(lx + none == lx);
    }
    // Taking it out.
    let c = credentials::without_key(cred);
    let ks = credentials::other_lines(ls);
    lemma_value_others(ls, key);
    credential_laws::lemma_others_good(ls);
    lines::lemma_lines_of_joined(ks);
    lemma_value_nl(lines::joined(ks), key);
    assert(credentials::yaml_value(c, key) == credentials::yaml_value(cred, key));
    if text::blank(c) {
        lemma_value_blank(c, key);
        lemma_empty_form(key);
    }
}

proof fn lemma_last_ended(cred: Seq<char>)
    requires
        !credential_laws::hanging(cred),
        credentials::refs_at(lines::lines_of(cred)) == lines::lines_of(cred).len() - 1,
    ensures
        lines::ended(lines::lines_of(cred).last()),
{
    lines::lemma_lines_of(cred);
}

proof fn lemma_kl()
    ensures
        lines::one_line(credentials::key_line()),
        lines::ended(credentials::key_line()),
        lines::one_line(credentials::last_key_line()),
        lines::ended(credentials::last_key_line()),
{
    reveal_strlit("  AIS_CODEX_API_KEY: local\n");
    reveal_strlit("AIS_CODEX_API_KEY: local\n");
}

/// The empty form of the credentials, and that with the gateway's key, give no other value.
proof fn lemma_empty_form(key: Seq<char>)
    requires
        good_key(key),
        key != "AIS_CODEX_API_KEY"@,
        key != "version"@,
        key != "refs"@,
    ensures
        credentials::yaml_value("version: 1\nrefs:\n"@, key) is None,
        credentials::yaml_value("version: 1\nrefs:\n"@ + credentials::key_line(), key) is None,
{
    let label = key.push(':');
    let e = "version: 1\nrefs:\n"@;
    let kl = credentials::key_line();
    reveal_strlit("version: 1\nrefs:\n");
    reveal_strlit("version");
    reveal_strlit("refs");
    let v = seq!['v', 'e', 'r', 's', 'i', 'o', 'n', ':', ' ', '1'];
    let r = seq!['r', 'e', 'f', 's', ':'];
    assert(e =~= v.push('\n') + r.push('\n'));
    text_laws::law_lines(v, r.push('\n'));
    text_laws::law_lines(r, Seq::empty());
    assert(r.push('\n') + Seq::<char>::empty() == r.push('\n'));
    let ls = lines::lines_of(e);
    assert(ls == seq![v.push('\n'), r.push('\n')]);
    lemma_not_labelled(v.push('\n'), 7, key, "version"@);
    lemma_not_labelled(r.push('\n'), 4, key, "refs"@);
    lemma_label_at_unique(ls, label, 2);
    key_laws::lemma_key_label();
    reveal_strlit("  ");
    assert(text::blank("  "@));
    key_laws::lemma_label("  "@, "AIS_CODEX_API_KEY:"@, " local\n"@);
    lemma_other_label(kl, key);
    lemma_kl();
    lines::lemma_lines_add(e, kl);
    lines::lemma_joined_one(kl);
    lines::lemma_lines_of_joined(seq![kl]);
    let none = Seq::<Seq<char>>::empty();
    lemma_value_around(ls, kl, none, key);
    assert(ls + seq![kl] + none == ls + seq![kl]);
    assert(ls + none == ls);
}

proof fn lemma_not_labelled(l: Seq<char>, n: int, key: Seq<char>, own: Seq<char>)
    requires
        good_key(key),
        0 < n < l.len(),
        l[n] == ':',
        !text::white(l[0]),
        forall|i: int| 0 <= i < n ==> l[i] != ':',
        l.take(n) =~= own,
        key != own,
    ensures
        !key_laws::labelled(l, key.push(':')),
{
    let label = key.push(':');
    let m = key.len() as int;
    if key_laws::labelled(l, label) {
        assert(text::trimmed_start(l) == l);
        assert(l.take(label.len() as int) == label);
        assert(l[m] == label[m]);
        if m > n {
            assert(l[n] == label[n]);
            assert(label[n] == key[n]);
        }
        assert(m == n);
        assert(key =~= own) by {
            assert forall|i: int| 0 <= i < m implies key[i] == own[i] by {
                assert(l.take(label.len() as int)[i] == label[i]);
                assert(l.take(n)[i] == own[i]);
            }
        }
    }
}

} // verus!
