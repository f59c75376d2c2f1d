//! What writing a key, taking it out and reading a value do to a credentials file, told by the
//! text of the file.

use vstd::prelude::*;

use crate::actions;
use crate::credential_laws;
use crate::credentials;
use crate::edit_laws;
use crate::lines;
use crate::shape;
use crate::text;
use crate::text_laws;

verus! {

/// The line has the label behind the white space at its start.
pub open spec fn labelled(l: Seq<char>, label: Seq<char>) -> bool {
    label.is_prefix_of(text::trimmed_start(l))
}

proof fn lemma_labelled_inside(l: Seq<char>, label: Seq<char>)
    requires
        labelled(l, label),
    ensures
        text_laws::inside(l, label),
{
    text::lemma_trimmed_start(l);
    let t = text::trimmed_start(l);
    let k = l.len() - t.len();
    let n = label.len() as int;
    assert(l == l.take(k) + label + l.skip(k + n)) by {
        assert forall|i: int| k <= i < k + n implies l[i] == label[i - k] by {
            assert(l[i] == t[i - k]);
        }
    }
    text_laws::lemma_inside(l.take(k), label, l.skip(k + n));
}

pub proof fn lemma_unlabelled(t: Seq<char>, label: Seq<char>)
    requires
        !text_laws::inside(t, label),
    ensures
        forall|n: int|
            0 <= n < lines::lines_of(t).len() ==> !labelled(
                #[trigger] lines::lines_of(t)[n],
                label,
            ),
{
    let ls = lines::lines_of(t);
    assert forall|n: int| 0 <= n < ls.len() implies !labelled(#[trigger] ls[n], label) by {
        let i = shape::lemma_line_at(t, n);
        if labelled(ls[n], label) {
            lemma_labelled_inside(ls[n], label);
            let e = i + ls[n].len();
            assert(t == t.take(i) + ls[n] + t.skip(e));
            text_laws::lemma_inside_more(t.take(i), ls[n], t.skip(e), label);
        }
    }
}

pub proof fn lemma_label(a: Seq<char>, label: Seq<char>, r: Seq<char>)
    requires
        text::blank(a),
        label.len() > 0,
        !text::white(label[0]),
    ensures
        labelled(a + label + r, label),
{
    let t = label + r;
    assert(a + label + r == a + t);
    text_laws::lemma_start(a, t);
    assert(t.take(label.len() as int) == label);
}

/// The first line of a text starts as the text does, up to the first line break.
proof fn lemma_first_line(h: Seq<char>, r: Seq<char>) -> (more: Seq<char>)
    requires
        text_laws::unbroken(h),
        h.len() > 0,
    ensures
        lines::lines_of(h + r).len() > 0,
        lines::lines_of(h + r)[0] == h + more,
{
    let x = h + r;
    text::lemma_cut(x, '\n');
    let n = lines::line_len(x);
    assert(n >= h.len()) by {
        if text::cut(x, '\n') < h.len() {
            assert(x[text::cut(x, '\n')] == h[text::cut(x, '\n')]);
        }
    }
    let more = x.subrange(h.len() as int, n);
    assert(x.take(n) == h + more);
    more
}

pub proof fn lemma_key_label()
    ensures
        "AIS_CODEX_API_KEY:"@.len() == 18,
        "AIS_CODEX_API_KEY:"@[0] == 'A',
        text_laws::unbroken("AIS_CODEX_API_KEY:"@),
        credentials::key_line() == "  "@ + "AIS_CODEX_API_KEY:"@ + " local\n"@,
        credentials::last_key_line() == "AIS_CODEX_API_KEY:"@ + " local\n"@,
{
    reveal_strlit("AIS_CODEX_API_KEY:");
    reveal_strlit("  ");
    reveal_strlit(" local\n");
    reveal_strlit("  AIS_CODEX_API_KEY: local\n");
    reveal_strlit("AIS_CODEX_API_KEY: local\n");
    assert(credentials::key_line() =~= "  "@ + "AIS_CODEX_API_KEY:"@ + " local\n"@);
    assert(credentials::last_key_line() =~= "AIS_CODEX_API_KEY:"@ + " local\n"@);
}

/// Credentials that give the gateway's key, at the start of a line or behind white space, have
/// it, and a setup leaves them as they are.
pub proof fn law_key_stays(pre: Seq<char>, a: Seq<char>, r: Seq<char>)
    requires
        shape::whole(pre),
        text::blank(a),
        text_laws::unbroken(a),
    ensures
        credentials::key_in(pre + (a + "AIS_CODEX_API_KEY:"@ + r)),
        credentials::with_key(pre + (a + "AIS_CODEX_API_KEY:"@ + r)) == edit_laws::closed_off(
            pre + (a + "AIS_CODEX_API_KEY:"@ + r),
        ),
{
    let label = "AIS_CODEX_API_KEY:"@;
    let x = a + label + r;
    let s = pre + x;
    lemma_key_label();
    let h = a + label;
    assert forall|i: int| 0 <= i < h.len() implies #[trigger] h[i] != '\n' by {
        if i < a.len() {
            assert(h[i] == a[i]);
        } else {
            assert(h[i] == label[i - a.len()]);
        }
    }
    let more = lemma_first_line(h, r);
    lines::lemma_lines_add(pre, x);
    let ls = lines::lines_of(s);
    let n = lines::lines_of(pre).len() as int;
    assert(ls[n] == lines::lines_of(x)[0]);
    assert(ls[n] == a + label + more);
    lemma_label(a, label, more);
    assert(credentials::is_key_line(ls[n]));
    edit_laws::lemma_closed_off(s);
}

pub proof fn lemma_no_key(cred: Seq<char>)
    requires
        !text_laws::inside(cred, "AIS_CODEX_API_KEY:"@),
    ensures
        !credentials::key_in(cred),
        forall|n: int|
            0 <= n < lines::lines_of(cred).len() ==> !credentials::is_key_line(
                #[trigger] lines::lines_of(cred)[n],
            ),
{
    let ls = lines::lines_of(cred);
    lemma_unlabelled(cred, "AIS_CODEX_API_KEY:"@);
    assert forall|n: int| 0 <= n < ls.len() implies !credentials::is_key_line(#[trigger] ls[n]) by {
        assert(!labelled(ls[n], "AIS_CODEX_API_KEY:"@));
    }
}

proof fn lemma_no_refs(t: Seq<char>)
    requires
        !text_laws::inside(t, "refs:"@),
    ensures
        forall|n: int|
            0 <= n < lines::lines_of(t).len() ==> !credentials::is_refs_line(
                #[trigger] lines::lines_of(t)[n],
            ),
{
    let ls = lines::lines_of(t);
    assert forall|n: int| 0 <= n < ls.len() implies !credentials::is_refs_line(#[trigger] ls[n]) by {
        if credentials::is_refs_line(ls[n]) {
            let i = shape::lemma_line_at(t, n);
            let w = text::lemma_trimmed_rest(ls[n]);
            let e = i + ls[n].len();
            assert(t == t.take(i) + "refs:"@ + (w + t.skip(e))) by {
                assert(t == t.take(i) + ls[n] + t.skip(e));
            }
            text_laws::lemma_inside(t.take(i), "refs:"@, w + t.skip(e));
        }
    }
}

/// A setup writes the gateway's key on a line of its own right behind the first `refs:`, and
/// leaves everything else.
pub proof fn law_key_under_refs(pre: Seq<char>, sp: Seq<char>, post: Seq<char>)
    requires
        shape::whole(pre),
        text::blank(sp),
        text_laws::unbroken(sp),
        !text_laws::inside(pre, "refs:"@),
        !text_laws::inside(pre + ("refs:"@ + sp + "\n"@) + post, "AIS_CODEX_API_KEY:"@),
    ensures
        credentials::with_key(pre + ("refs:"@ + sp + "\n"@) + post) == edit_laws::closed_off(
            pre + ("refs:"@ + sp + "\n"@) + "  AIS_CODEX_API_KEY: local\n"@ + post,
        ),
{
    reveal_strlit("refs:");
    reveal_strlit("\n");
    let rl = "refs:"@ + sp + "\n"@;
    let s = pre + rl + post;
    lemma_no_key(s);
    lemma_no_refs(pre);
    let l = "refs:"@ + sp;
    assert forall|i: int| 0 <= i < l.len() implies #[trigger] l[i] != '\n' by {
        if i >= 5 {
            assert(l[i] == sp[i - 5]);
        }
    }
    assert(rl == l.push('\n'));
    assert(s == pre + (rl + post));
    lines::lemma_lines_add(pre, rl + post);
    text_laws::law_lines(l, post);
    let lp = lines::lines_of(pre);
    let lo = lines::lines_of(post);
    let ls = lines::lines_of(s);
    assert(ls == lp + (seq![rl] + lo));
    let n = lp.len() as int;
    let w = sp + "\n"@;
    assert(text::blank(w)) by {
        assert forall|i: int| 0 <= i < w.len() implies text::white(#[trigger] w[i]) by {
            if i < sp.len() {
                assert(w[i] == sp[i]);
            }
        }
    }
    text_laws::law_trimmed(Seq::empty(), "refs:"@, w);
    assert(rl == "refs:"@ + w);
    assert(ls[n] == rl);
    assert(credentials::is_refs_line(ls[n]));
    credentials::lemma_refs_at(ls);
    let k = credentials::refs_at(ls);
    assert(k == n) by {
        if k < n {
            assert(ls[k] == lp[k]);
        }
    }
    let x = ls.take(n + 1);
    let y = ls.skip(n + 1);
    assert(x == lp + seq![rl]);
    assert(y == lo);
    lines::lemma_joined_add(lp, seq![rl]);
    lines::lemma_joined_one(rl);
    lines::lemma_lines_of(pre);
    lines::lemma_lines_of(post);
    edit_laws::lemma_closed_off(pre + rl + "  AIS_CODEX_API_KEY: local\n"@ + post);
}

/// Without `refs:` the key goes behind the credentials, on a line of its own, and empty
/// credentials become those with the key alone.
pub proof fn law_key_behind(cred: Seq<char>, body: Seq<char>, w: Seq<char>)
    requires
        cred == body + w,
        text::blank(w),
        body.len() > 0 ==> !text::white(body.last()),
        !text_laws::inside(cred, "refs:"@),
        !text_laws::inside(cred, "AIS_CODEX_API_KEY:"@),
    ensures
        body.len() > 0 ==> credentials::with_key(cred) == body + "\n"@
            + "AIS_CODEX_API_KEY: local\n"@,
        body.len() == 0 ==> credentials::with_key(cred) == "version: 1\nrefs:\n"@
            + "  AIS_CODEX_API_KEY: local\n"@,
        body.len() == 0 ==> actions::setup_cred(cred, true) == "version: 1\nrefs:\n"@
            + "  AIS_CODEX_API_KEY: local\n"@,
{
    lemma_no_key(cred);
    lemma_no_refs(cred);
    let ls = lines::lines_of(cred);
    credentials::lemma_refs_at(ls);
    edit_laws::lemma_trimmed_is(body, w);
    text::lemma_blank_trimmed(cred);
    reveal_strlit("\n");
    assert(body.push('\n') == body + "\n"@);
}

/// Where there are no credentials, a setup writes them with the gateway's key alone.
pub proof fn law_first_key(cred: Seq<char>)
    ensures
        actions::setup_cred(cred, false) == "version: 1\n"@ + "refs:\n"@
            + "  AIS_CODEX_API_KEY: local\n"@,
        actions::setup_cred(cred, true) == credentials::with_key(cred),
{
    reveal_strlit("version: 1\n");
    reveal_strlit("refs:\n");
    reveal_strlit("refs:");
    reveal_strlit("version: 1\nrefs:\n");
    reveal_strlit("\n");
    let pre = "version: 1\n"@;
    let none = Seq::<char>::empty();
    let s = "version: 1\nrefs:\n"@;
    let rl = "refs:"@ + none + "\n"@;
    assert(s =~= pre + "refs:\n"@);
    assert("refs:\n"@ =~= rl);
    assert(s =~= pre + rl + none);
    if text_laws::inside(pre, "refs:"@) {
        let (a, b) = choose|a: Seq<char>, b: Seq<char>| pre == #[trigger] (a + "refs:"@ + b);
        assert(pre[a.len() as int] == 'r' && pre[a.len() as int + 1] == 'e');
    }
    if text_laws::inside(s, "AIS_CODEX_API_KEY:"@) {
        reveal_strlit("AIS_CODEX_API_KEY:");
        let (a, b) = choose|a: Seq<char>, b: Seq<char>|
            s == #[trigger] (a + "AIS_CODEX_API_KEY:"@ + b);
        assert(s[a.len() as int] == 'A');
    }
    law_key_under_refs(pre, none, none);
    lemma_key_label();
    let r = pre + rl + "  AIS_CODEX_API_KEY: local\n"@ + none;
    reveal_strlit("  AIS_CODEX_API_KEY: local\n");
    assert(r =~= "version: 1\n"@ + "refs:\n"@ + "  AIS_CODEX_API_KEY: local\n"@);
    assert(r.last() == '\n');
}

/// A removal takes the line with the gateway's key out, and nothing else.
pub proof fn law_key_taken_out(
    pre: Seq<char>,
    a: Seq<char>,
    v: Seq<char>,
    post: Seq<char>,
)
    requires
        shape::whole(pre),
        text::blank(a),
        text_laws::unbroken(a),
        text_laws::unbroken(v),
        !text_laws::inside(pre, "AIS_CODEX_API_KEY:"@),
        !text_laws::inside(post, "AIS_CODEX_API_KEY:"@),
    ensures
        credentials::without_key(pre + (a + "AIS_CODEX_API_KEY:"@ + v + "\n"@) + post)
            == edit_laws::closed_off(pre + post),
        credentials::without_key(pre + post) == edit_laws::closed_off(pre + post)
            || text_laws::inside(pre + post, "AIS_CODEX_API_KEY:"@),
{
    let label = "AIS_CODEX_API_KEY:"@;
    lemma_key_label();
    reveal_strlit("\n");
    let l = a + label + v;
    let line = l + "\n"@;
    let s = pre + line + post;
    assert forall|i: int| 0 <= i < l.len() implies #[trigger] l[i] != '\n' by {
        if i < a.len() {
            assert(l[i] == a[i]);
        } else if i < a.len() + 18 {
            assert(l[i] == label[i - a.len()]);
        } else {
            assert(l[i] == v[i - a.len() - 18]);
        }
    }
    assert(line == l.push('\n'));
    assert(s == pre + (line + post));
    lines::lemma_lines_add(pre, line + post);
    text_laws::law_lines(l, post);
    let lp = lines::lines_of(pre);
    let lo = lines::lines_of(post);
    lemma_no_key(pre);
    lemma_no_key(post);
    assert(line == a + label + (v + "\n"@));
    lemma_label(a, label, v + "\n"@);
    assert(credentials::is_key_line(line));
    credential_laws::lemma_others_add(lp, seq![line] + lo);
    credential_laws::lemma_others_add(seq![line], lo);
    credential_laws::lemma_others_all(lp);
    credential_laws::lemma_others_all(lo);
    credential_laws::lemma_others_key(line);
    let kept = credentials::other_lines(lines::lines_of(s));
    assert(credentials::other_lines(seq![line]) == Seq::<Seq<char>>::empty());
    assert(Seq::<Seq<char>>::empty() + lo == lo);
    assert(kept == lp + lo);
    lines::lemma_joined_add(lp, lo);
    lines::lemma_lines_of(pre);
    lines::lemma_lines_of(post);
    edit_laws::lemma_closed_off(pre + post);
    if !text_laws::inside(pre + post, label) {
        lemma_no_key(pre + post);
        credential_laws::lemma_others_all(lines::lines_of(pre + post));
        lines::lemma_lines_of(pre + post);
    }
}

/// A removal leaves credentials as they are where the key is not in them, and writes the empty
/// form where nothing is left.
pub proof fn law_removed_credentials(cred: Seq<char>)
    ensures
        !text::blank(credentials::without_key(cred)) ==> actions::removed_cred(cred)
            == credentials::without_key(cred),
        text::blank(credentials::without_key(cred)) ==> actions::removed_cred(cred)
            == "version: 1\nrefs:\n"@,
        !text_laws::inside(cred, "AIS_CODEX_API_KEY:"@) ==> credentials::without_key(cred)
            == edit_laws::closed_off(cred),
{
    if !text_laws::inside(cred, "AIS_CODEX_API_KEY:"@) {
        lemma_no_key(cred);
        credential_laws::lemma_others_all(lines::lines_of(cred));
        lines::lemma_lines_of(cred);
        edit_laws::lemma_closed_off(cred);
    }
}

} // verus!
