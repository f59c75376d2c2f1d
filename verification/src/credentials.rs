//! The credentials file: the gateway's key in it, and reading a value out of it.

use vstd::prelude::*;

use crate::lines;
use crate::text;

verus! {

/// The name under which the gateway's key is kept.
pub const API_KEY_ENV: &'static str = "AIS_CODEX_API_KEY";

/// A line that gives the gateway's key.
pub open spec fn is_key_line(line: Seq<char>) -> bool {
    "AIS_CODEX_API_KEY:"@.is_prefix_of(text::trimmed_start(line))
}

/// Some line gives the gateway's key.
pub open spec fn key_in(cred: Seq<char>) -> bool {
    exists|i: int|
        0 <= i < lines::lines_of(cred).len() && is_key_line(#[trigger] lines::lines_of(cred)[i])
}

/// The line under which the keys stand.
pub open spec fn is_refs_line(line: Seq<char>) -> bool {
    text::trimmed_end(line) == "refs:"@
}

/// The position of the first line under which keys stand; the number of lines where
/// there is none.
pub open spec fn refs_at(ls: Seq<Seq<char>>) -> int
    decreases ls.len(),
{
    if ls.len() == 0 || is_refs_line(ls[0]) {
        0
    } else {
        1 + refs_at(ls.skip(1))
    }
}

/// The line that is written under the others.
pub open spec fn key_line() -> Seq<char> {
    "  AIS_CODEX_API_KEY: local\n"@
}

/// The line that is written at the end.
pub open spec fn last_key_line() -> Seq<char> {
    "AIS_CODEX_API_KEY: local\n"@
}

/// `cred` with the gateway's key.
pub open spec fn with_key(cred: Seq<char>) -> Seq<char> {
    let ls = lines::lines_of(cred);
    let n = refs_at(ls);
    if key_in(cred) {
        lines::with_nl(cred)
    } else if n < ls.len() {
        lines::with_nl(
            lines::joined(ls.take(n + 1)) + key_line() + lines::joined(ls.skip(n + 1)),
        )
    } else if text::blank(cred) {
        "version: 1\nrefs:\n"@ + key_line()
    } else {
        text::trimmed_end(cred).push('\n') + last_key_line()
    }
}

/// The lines that do not give the gateway's key.
pub open spec fn other_lines(ls: Seq<Seq<char>>) -> Seq<Seq<char>> {
    ls.filter(|l: Seq<char>| !is_key_line(l))
}

/// `cred` without the gateway's key.
pub open spec fn without_key(cred: Seq<char>) -> Seq<char> {
    lines::with_nl(lines::joined(other_lines(lines::lines_of(cred))))
}

/// `s` without quotes around it.
pub open spec fn unquoted(s: Seq<char>) -> Seq<char> {
    let t = text::stripped_end(text::stripped_start(s, '"'), '"');
    text::stripped_end(text::stripped_start(t, '\''), '\'')
}

/// The position of the first line that gives a value for `label`; the number of lines
/// where none does.
pub open spec fn label_at(ls: Seq<Seq<char>>, label: Seq<char>) -> int
    decreases ls.len(),
{
    if ls.len() == 0 || label.is_prefix_of(text::trimmed_start(ls[0])) {
        0
    } else {
        1 + label_at(ls.skip(1), label)
    }
}

/// The value that `content` gives for `key`.
pub open spec fn yaml_value(content: Seq<char>, key: Seq<char>) -> Option<Seq<char>> {
    let ls = lines::lines_of(content);
    let n = label_at(ls, key.push(':'));
    if n >= ls.len() {
        None
    } else {
        let v = unquoted(text::trimmed(ls[n].skip(text::cut(ls[n], ':') + 1)));
        if v.len() == 0 {
            None
        } else {
            Some(v)
        }
    }
}

pub proof fn lemma_refs_at(ls: Seq<Seq<char>>)
    ensures
        0 <= refs_at(ls) <= ls.len(),
        forall|i: int| 0 <= i < refs_at(ls) ==> !is_refs_line(#[trigger] ls[i]),
        refs_at(ls) < ls.len() ==> is_refs_line(ls[refs_at(ls)]),
    decreases ls.len(),
{
    if ls.len() > 0 && !is_refs_line(ls[0]) {
        lemma_refs_at(ls.skip(1));
        assert forall|i: int| 0 <= i < refs_at(ls) implies !is_refs_line(#[trigger] ls[i]) by {
            if i > 0 {
                assert(ls[i] == ls.skip(1)[i - 1]);
            }
        }
    }
}

/// The line gives the gateway's key.
fn gives_key(line: &str) -> (r: bool)
    ensures
        r == is_key_line(line@),
{
    text::starts_with(text::trim_start(line).as_str(), "AIS_CODEX_API_KEY:")
}

/// Whether some line gives the gateway's key.
pub fn has_key(cred: &str) -> (r: bool)
    ensures
        r == key_in(cred@),
{
    let ls = lines::split_lines(cred);
    let ghost all = lines::lines_of(cred@);
    let mut i: usize = 0;
    while i < ls.len()
        invariant
            i <= ls.len(),
            all == lines::lines_of(cred@),
            all == lines::texts(ls@),
            forall|j: int| 0 <= j < i ==> !is_key_line(#[trigger] all[j]),
        decreases ls.len() - i,
    {
        assert(all[i as int] == ls@[i as int]@);
        if gives_key(ls[i].as_str()) {
            return true;
        }
        i += 1;
    }
    false
}

/// `cred` with the gateway's key: under the first line of keys, else at the end.
pub fn upsert_credential(cred: &str) -> (r: String)
    ensures
        r@ == with_key(cred@),
{
    if has_key(cred) {
        return lines::ensure_nl(cred.to_owned());
    }
    let ls = lines::split_lines(cred);
    let ghost all = lines::lines_of(cred@);
    let mut i: usize = 0;
    assert(all.skip(0) == all);
    while i < ls.len()
        invariant
            i <= ls.len(),
            !key_in(cred@),
            all == lines::lines_of(cred@),
            all == lines::texts(ls@),
            refs_at(all) == i + refs_at(all.skip(i as int)),
        decreases ls.len() - i,
    {
        proof {
            assert(all.skip(i as int)[0] == ls@[i as int]@);
            assert(all.skip(i as int).skip(1) == all.skip(i + 1));
        }
        if text::same_text(text::trim_end(ls[i].as_str()).as_str(), "refs:") {
            let mut out = lines::join(&ls, 0, i + 1);
            out.append("  AIS_CODEX_API_KEY: local\n");
            out.append(lines::join(&ls, i + 1, ls.len()).as_str());
            proof {
                assert(all.subrange(0, i + 1) == all.take(i + 1));
                assert(all.subrange(i + 1, all.len() as int) == all.skip(i + 1));
            }
            return lines::ensure_nl(out);
        }
        i += 1;
    }
    assert(all.skip(i as int).len() == 0);
    if text::is_blank(cred) {
        return text::joined_pair("version: 1\nrefs:\n", "  AIS_CODEX_API_KEY: local\n");
    }
    let mut out = text::trim_end(cred);
    out.push('\n');
    out.append("AIS_CODEX_API_KEY: local\n");
    out
}

/// `cred` without the lines that give the gateway's key.
pub fn remove_credential(cred: &str) -> (r: String)
    ensures
        r@ == without_key(cred@),
{
    let ls = lines::split_lines(cred);
    let ghost all = lines::lines_of(cred@);
    let ghost other = |l: Seq<char>| !is_key_line(l);
    let mut out = String::new();
    let mut i: usize = 0;
    assert(all.take(0).filter(other).len() == 0) by {
        reveal(Seq::filter);
    }
    while i < ls.len()
        invariant
            i <= ls.len(),
            all == lines::texts(ls@),
            other == (|l: Seq<char>| !is_key_line(l)),
            out@ == lines::joined(all.take(i as int).filter(other)),
        decreases ls.len() - i,
    {
        proof {
            assert(all[i as int] == ls@[i as int]@);
            assert(all.take(i + 1).drop_last() == all.take(i as int));
            reveal(Seq::filter);
            lines::lemma_joined_push(all.take(i as int).filter(other), all[i as int]);
        }
        if !gives_key(ls[i].as_str()) {
            out.append(ls[i].as_str());
        }
        i += 1;
    }
    assert(all.take(i as int) == all);
    lines::ensure_nl(out)
}

/// The value that the first line for `key` gives, without quotes around it.
pub fn extract_yaml_value(content: &str, key: &str) -> (r: Option<String>)
    ensures
        match r {
            Some(v) => yaml_value(content@, key@) == Some(v@),
            None => yaml_value(content@, key@) is None,
        },
{
    let mut label = key.to_owned();
    label.push(':');
    let ls = lines::split_lines(content);
    let ghost all = lines::lines_of(content@);
    let mut i: usize = 0;
    assert(all.skip(0) == all);
    while i < ls.len()
        invariant
            i <= ls.len(),
            label@ == key@.push(':'),
            all == lines::lines_of(content@),
            all == lines::texts(ls@),
            label_at(all, label@) == i + label_at(all.skip(i as int), label@),
        decreases ls.len() - i,
    {
        let l = ls[i].as_str();
        proof {
            assert(all.skip(i as int)[0] == ls@[i as int]@);
            assert(all.skip(i as int).skip(1) == all.skip(i + 1));
        }
        if text::starts_with(text::trim_start(l).as_str(), label.as_str()) {
            let n = text::cut_at(l, ':');
            proof {
                lemma_label_cut(l@, label@);
            }
            let end = text::char_count(l);
            let rest = text::slice(l, n + 1, end);
            assert(rest@ == l@.skip(n + 1));
            let v = text::trim(rest.as_str());
            let v = text::strip_end(text::strip_start(v.as_str(), '"').as_str(), '"');
            let v = text::strip_end(text::strip_start(v.as_str(), '\'').as_str(), '\'');
            if text::char_count(v.as_str()) == 0 {
                return None;
            }
            return Some(v);
        }
        i += 1;
    }
    assert(all.skip(i as int).len() == 0);
    None
}

/// A line that starts with a label holds a colon.
proof fn lemma_label_cut(line: Seq<char>, label: Seq<char>)
    requires
        label.len() > 0,
        label.last() == ':',
        label.is_prefix_of(text::trimmed_start(line)),
    ensures
        text::cut(line, ':') < line.len(),
{
    text::lemma_trimmed_start(line);
    text::lemma_cut(line, ':');
    let t = text::trimmed_start(line);
    assert(t[label.len() - 1] == label.last());
    assert(line[line.len() - t.len() + label.len() - 1] == ':');
}

} // verus!
