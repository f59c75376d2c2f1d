//! What the text primitives promise, in terms of the texts that go in.

use vstd::prelude::*;

use crate::lines;
use crate::text;

verus! {

/// `part` stands somewhere in `whole`.
pub open spec fn inside(whole: Seq<char>, part: Seq<char>) -> bool {
    exists|a: Seq<char>, b: Seq<char>| whole == #[trigger] (a + part + b)
}

/// `s` ends with `tail`.
pub open spec fn ends_in(s: Seq<char>, tail: Seq<char>) -> bool {
    exists|a: Seq<char>| s == #[trigger] (a + tail)
}

/// `s` starts with `head`.
pub open spec fn starts_in(s: Seq<char>, head: Seq<char>) -> bool {
    exists|b: Seq<char>| s == #[trigger] (head + b)
}

/// The chars of a word: ASCII letters of either case, digits, `_` and `-`.
pub open spec fn word(w: Seq<char>) -> bool {
    forall|i: int|
        0 <= i < w.len() ==> ('a' <= #[trigger] w[i] <= 'z') || ('A' <= w[i] <= 'Z') || ('0' <= w[i]
            <= '9') || w[i] == '_' || w[i] == '-'
}

/// No line break stands in `s`.
pub open spec fn unbroken(s: Seq<char>) -> bool {
    forall|i: int| 0 <= i < s.len() ==> #[trigger] s[i] != '\n'
}

pub proof fn lemma_inside(a: Seq<char>, part: Seq<char>, b: Seq<char>)
    ensures
        inside(a + part + b, part),
{
}

pub proof fn lemma_inside_more(x: Seq<char>, whole: Seq<char>, y: Seq<char>, part: Seq<char>)
    requires
        inside(whole, part),
    ensures
        inside(x + whole + y, part),
        inside(x + whole, part),
        inside(whole + y, part),
{
    let (a, b) = choose|a: Seq<char>, b: Seq<char>| whole == #[trigger] (a + part + b);
    assert(x + whole + y == (x + a) + part + (b + y));
    assert(x + whole == (x + a) + part + b);
    assert(whole + y == a + part + (b + y));
}

pub proof fn lemma_inside_chain(whole: Seq<char>, mid: Seq<char>, part: Seq<char>)
    requires
        inside(whole, mid),
        inside(mid, part),
    ensures
        inside(whole, part),
{
    let (a, b) = choose|a: Seq<char>, b: Seq<char>| whole == #[trigger] (a + mid + b);
    lemma_inside_more(a, mid, b, part);
}

/// A text is found in another exactly where it stands there, at its start exactly where the
/// other goes on from it, and at its end exactly where the other comes to it.
pub proof fn law_found(s: Seq<char>, p: Seq<char>)
    ensures
        text::occurs(s, p) <==> inside(s, p),
        p.is_prefix_of(s) <==> starts_in(s, p),
        p.is_suffix_of(s) <==> ends_in(s, p),
{
    if text::occurs(s, p) {
        let i = choose|i: int| text::occurs_at(s, p, i);
        assert(s == s.take(i) + p + s.skip(i + p.len()));
    }
    if inside(s, p) {
        let (a, b) = choose|a: Seq<char>, b: Seq<char>| s == #[trigger] (a + p + b);
        assert(s.subrange(a.len() as int, a.len() as int + p.len()) == p);
        assert(text::occurs_at(s, p, a.len() as int));
    }
    if p.is_prefix_of(s) {
        assert(s == p + s.skip(p.len() as int));
    }
    if starts_in(s, p) {
        let b = choose|b: Seq<char>| s == #[trigger] (p + b);
        assert(s.subrange(0, p.len() as int) == p);
    }
    if p.is_suffix_of(s) {
        assert(s == s.take(s.len() - p.len()) + p);
    }
    if ends_in(s, p) {
        let a = choose|a: Seq<char>| s == #[trigger] (a + p);
        assert(s.subrange(s.len() - p.len(), s.len() as int) == p);
    }
}

/// White space is the control chars from the tab to the carriage return, the space, the next
/// line, and the spaces and separators beyond ASCII.
pub proof fn law_white(c: char)
    ensures
        text::white(c) <==> {
            ||| 9 <= c as int <= 13
            ||| c as int == 32
            ||| c as int == 0x85
            ||| c as int == 0xa0
            ||| c as int == 0x1680
            ||| 0x2000 <= c as int <= 0x200a
            ||| c as int == 0x2028
            ||| c as int == 0x2029
            ||| c as int == 0x202f
            ||| c as int == 0x205f
            ||| c as int == 0x3000
        },
{
}

/// Trimming takes the white space around a text away, and nothing of what stands between.
pub proof fn law_trimmed(a: Seq<char>, mid: Seq<char>, b: Seq<char>)
    requires
        text::blank(a),
        text::blank(b),
        mid.len() > 0,
        !text::white(mid[0]),
        !text::white(mid.last()),
    ensures
        text::trimmed(a + mid + b) == mid,
        text::trimmed_end(mid + b) == mid,
        text::trimmed_start(a + mid) == mid,
        text::trimmed_start(a + mid + b) == mid + b,
        text::trimmed(a) == Seq::<char>::empty(),
{
    let t = mid + b;
    assert forall|i: int| mid.len() <= i < t.len() implies text::white(#[trigger] t[i]) by {
        assert(t[i] == b[i - mid.len()]);
    }
    assert(t[mid.len() - 1] == mid.last());
    text::lemma_trimmed_end_unique(t, mid.len() as int);
    assert(t.take(mid.len() as int) == mid);
    lemma_start(a, t);
    lemma_start(a, mid);
    assert(a + mid + b == a + t);
    text::lemma_blank_trimmed(a);
    assert(text::trimmed(a) == Seq::<char>::empty());
}

pub proof fn lemma_start(a: Seq<char>, t: Seq<char>)
    requires
        text::blank(a),
        t.len() > 0,
        !text::white(t[0]),
    ensures
        text::trimmed_start(a + t) == t,
    decreases a.len(),
{
    if a.len() == 0 {
        assert(a + t == t);
    } else {
        assert(text::white(a[0]));
        let r = a.skip(1);
        assert forall|i: int| 0 <= i < r.len() implies text::white(#[trigger] r[i]) by {
            assert(r[i] == a[i + 1]);
        }
        lemma_start(r, t);
        assert((a + t)[0] == a[0]);
        assert((a + t).skip(1) == r + t);
    }
}

/// A text begins and ends with white space around what trimming leaves of it.
pub proof fn lemma_around(s: Seq<char>) -> (r: (Seq<char>, Seq<char>))
    ensures
        s == r.0 + text::trimmed(s) + r.1,
        text::blank(r.0),
        text::blank(r.1),
{
    let t = text::trimmed_start(s);
    text::lemma_trimmed_start(s);
    let n = s.len() - t.len();
    let a = s.take(n);
    assert forall|i: int| 0 <= i < a.len() implies text::white(#[trigger] a[i]) by {
        assert(a[i] == s[i]);
    }
    let b = text::lemma_trimmed_rest(t);
    assert(s == a + t);
    assert(s == a + text::trimmed(s) + b);
    (a, b)
}

/// A text is cut into lines behind each line break and nowhere else; the last line may lack
/// one.
pub proof fn law_lines(a: Seq<char>, b: Seq<char>)
    requires
        unbroken(a),
    ensures
        lines::lines_of(a.push('\n') + b) == seq![a.push('\n')] + lines::lines_of(b),
        a.len() > 0 ==> lines::lines_of(a) == seq![a],
        lines::lines_of(Seq::<char>::empty()) == Seq::<Seq<char>>::empty(),
{
    let l = a.push('\n');
    let s = l + b;
    assert forall|i: int| 0 <= i < a.len() implies s[i] != '\n' by {
        assert(s[i] == a[i]);
    }
    text::lemma_cut_unique(s, '\n', a.len() as int);
    assert(s.take(l.len() as int) == l);
    assert(s.skip(l.len() as int) == b);
    if a.len() > 0 {
        text::lemma_cut_unique(a, '\n', a.len() as int);
        assert(a.take(a.len() as int) == a);
        assert(a.skip(a.len() as int) == Seq::<char>::empty());
        assert(lines::lines_of(Seq::<char>::empty()) == Seq::<Seq<char>>::empty());
        assert(seq![a] + Seq::<Seq<char>>::empty() == seq![a]);
    }
}

/// A number is shown by its decimal digits, the last one apart from the others, and read
/// back as it was.
pub proof fn law_decimal(n: nat, d: nat, max: nat)
    requires
        d < 10,
    ensures
        text::decimal(d).len() == 1,
        text::decimal(d)[0] as int == 48 + d,
        n > 0 ==> text::decimal(10 * n + d) == text::decimal(n) + text::decimal(d),
        text::parsed_number(text::decimal(n), max) == (if n <= max {
            Some(n)
        } else {
            None
        }),
{
    assert((10 * n + d) / 10 == n && (10 * n + d) % 10 == d) by (nonlinear_arith)
        requires
            d < 10,
    ;
    assert(text::decimal(n).push(text::digit_char(d)) == text::decimal(n) + text::decimal(d));
    lemma_decimal(n);
}

pub proof fn lemma_decimal(n: nat)
    ensures
        text::decimal(n).len() > 0,
        text::all_digits(text::decimal(n)),
        text::digits_value(text::decimal(n)) == n,
        text::decimal(n)[0] != '+',
    decreases n,
{
    let s = text::decimal(n);
    if n < 10 {
        assert(s.drop_last().len() == 0);
        assert(text::digits_value(s.drop_last()) == 0);
    } else {
        lemma_decimal(n / 10);
        let t = text::decimal(n / 10);
        let c = text::digit_char(n % 10);
        assert(s == t.push(c));
        assert(s.drop_last() == t);
        assert(n == (n / 10) * 10 + n % 10);
        assert forall|i: int| 0 <= i < s.len() implies text::is_digit(#[trigger] s[i]) by {
            if i < t.len() {
                assert(s[i] == t[i]);
            }
        }
        assert(s[0] == t[0]);
    }
}

/// A number may have a plus sign in front.
pub proof fn law_plus_sign(n: nat, max: nat)
    ensures
        text::parsed_number("+"@ + text::decimal(n), max) == text::parsed_number(
            text::decimal(n),
            max,
        ),
{
    reveal_strlit("+");
    lemma_decimal(n);
    let d = text::decimal(n);
    assert(("+"@ + d).skip(1) == d);
}

/// The first place of a char, and the first chars of a text.
pub proof fn law_cut(a: Seq<char>, c: char, b: Seq<char>, n: int)
    requires
        forall|i: int| 0 <= i < a.len() ==> #[trigger] a[i] != c,
    ensures
        text::cut(a + seq![c] + b, c) == a.len(),
        text::cut(a, c) == a.len(),
        a.len() == n ==> text::first_chars(a + b, n) == a,
        a.len() <= n ==> text::first_chars(a, n) == a,
{
    text::lemma_cut_unique(a, c, a.len() as int);
    let s = a + seq![c] + b;
    assert forall|i: int| 0 <= i < a.len() implies s[i] != c by {
        assert(s[i] == a[i]);
    }
    text::lemma_cut_unique(s, c, a.len() as int);
    if a.len() == n {
        assert((a + b).take(n) == a);
        if b.len() == 0 {
            assert(a + b == a);
        }
    }
}

/// Only decimal digits, behind a plus sign or none, are read as a number.
pub proof fn law_no_number(s: Seq<char>, i: int, max: nat)
    requires
        0 <= i < s.len(),
        !('0' <= s[i] <= '9'),
        i > 0 || s[0] != '+' || s.len() == 1,
    ensures
        text::parsed_number(s, max) is None,
{
    let d = text::unsigned_part(s);
    if s[0] == '+' {
        if i > 0 {
            assert(d[i - 1] == s[i]);
            assert(!text::is_digit(d[i - 1]));
        } else {
            assert(d.len() == 0);
        }
    } else {
        assert(!text::is_digit(d[i]));
    }
}

} // verus!
