//! Text primitives. A text is a sequence of chars; every function here says in
//! terms of that sequence what it returns.

use vstd::prelude::*;

verus! {

/// `String::push` appends one char and leaves the rest of the string alone.
pub assume_specification[ String::push ](s: &mut String, c: char)
    ensures
        final(s)@ == old(s)@.push(c),
;

/// The chars with the Unicode property White_Space.
pub open spec fn white(c: char) -> bool {
    ||| '\u{9}' <= c <= '\u{d}'
    ||| c == ' '
    ||| c == '\u{85}'
    ||| c == '\u{a0}'
    ||| c == '\u{1680}'
    ||| '\u{2000}' <= c <= '\u{200a}'
    ||| c == '\u{2028}'
    ||| c == '\u{2029}'
    ||| c == '\u{202f}'
    ||| c == '\u{205f}'
    ||| c == '\u{3000}'
}

/// `s` without the white chars at its end.
pub open spec fn trimmed_end(s: Seq<char>) -> Seq<char>
    decreases s.len(),
{
    if s.len() == 0 || !white(s.last()) {
        s
    } else {
        trimmed_end(s.drop_last())
    }
}

/// `s` without the white chars at its start.
pub open spec fn trimmed_start(s: Seq<char>) -> Seq<char>
    decreases s.len(),
{
    if s.len() == 0 || !white(s[0]) {
        s
    } else {
        trimmed_start(s.skip(1))
    }
}

/// `s` without the white chars at both ends.
pub open spec fn trimmed(s: Seq<char>) -> Seq<char> {
    trimmed_end(trimmed_start(s))
}

/// Every char of `s` is white.
pub open spec fn blank(s: Seq<char>) -> bool {
    forall|i: int| 0 <= i < s.len() ==> white(#[trigger] s[i])
}

/// `s` without the chars `c` at its start.
pub open spec fn stripped_start(s: Seq<char>, c: char) -> Seq<char>
    decreases s.len(),
{
    if s.len() == 0 || s[0] != c {
        s
    } else {
        stripped_start(s.skip(1), c)
    }
}

/// `s` without the chars `c` at its end.
pub open spec fn stripped_end(s: Seq<char>, c: char) -> Seq<char>
    decreases s.len(),
{
    if s.len() == 0 || s.last() != c {
        s
    } else {
        stripped_end(s.drop_last(), c)
    }
}

/// The number of chars of `s` before its first `c`; all of them where it has none.
pub open spec fn cut(s: Seq<char>, c: char) -> int
    decreases s.len(),
{
    if s.len() == 0 || s[0] == c {
        0
    } else {
        1 + cut(s.skip(1), c)
    }
}

/// `p` stands in `s` at position `i`.
pub open spec fn occurs_at(s: Seq<char>, p: Seq<char>, i: int) -> bool {
    0 <= i && i + p.len() <= s.len() && s.subrange(i, i + p.len()) == p
}

/// `p` stands somewhere in `s`.
pub open spec fn occurs(s: Seq<char>, p: Seq<char>) -> bool {
    exists|i: int| occurs_at(s, p, i)
}

/// The first `n` chars of `s`; all of it where it is shorter.
pub open spec fn first_chars(s: Seq<char>, n: int) -> Seq<char> {
    if s.len() <= n {
        s
    } else {
        s.take(n)
    }
}

pub open spec fn is_digit(c: char) -> bool {
    '0' <= c <= '9'
}

pub open spec fn digit_value(c: char) -> nat {
    (c as int - '0' as int) as nat
}

pub open spec fn digit_char(n: nat) -> char {
    (n + '0' as int) as char
}

/// The decimal digits of `n`, with no leading zero.
pub open spec fn decimal(n: nat) -> Seq<char>
    decreases n,
{
    if n < 10 {
        seq![digit_char(n)]
    } else {
        decimal(n / 10).push(digit_char(n % 10))
    }
}

/// The number that a sequence of decimal digits stands for.
pub open spec fn digits_value(s: Seq<char>) -> nat
    decreases s.len(),
{
    if s.len() == 0 {
        0
    } else {
        digits_value(s.drop_last()) * 10 + digit_value(s.last())
    }
}

pub open spec fn all_digits(s: Seq<char>) -> bool {
    forall|i: int| 0 <= i < s.len() ==> is_digit(#[trigger] s[i])
}

/// `s` without one leading plus sign.
pub open spec fn unsigned_part(s: Seq<char>) -> Seq<char> {
    if s.len() > 0 && s[0] == '+' {
        s.skip(1)
    } else {
        s
    }
}

/// The number that `s` writes in decimal, with an optional plus sign, where it is
/// at most `max`.
pub open spec fn parsed_number(s: Seq<char>, max: nat) -> Option<nat> {
    let d = unsigned_part(s);
    if d.len() > 0 && all_digits(d) && digits_value(d) <= max {
        Some(digits_value(d))
    } else {
        None
    }
}

pub proof fn lemma_cut(s: Seq<char>, c: char)
    ensures
        0 <= cut(s, c) <= s.len(),
        forall|i: int| 0 <= i < cut(s, c) ==> s[i] != c,
        cut(s, c) < s.len() ==> s[cut(s, c)] == c,
    decreases s.len(),
{
    if s.len() > 0 && s[0] != c {
        let t = s.skip(1);
        lemma_cut(t, c);
        assert forall|i: int| 0 <= i < cut(s, c) implies s[i] != c by {
            if i > 0 {
                assert(s[i] == t[i - 1]);
            }
        }
    }
}

pub proof fn lemma_cut_unique(s: Seq<char>, c: char, n: int)
    requires
        0 <= n <= s.len(),
        forall|i: int| 0 <= i < n ==> s[i] != c,
        n < s.len() ==> s[n] == c,
    ensures
        cut(s, c) == n,
{
    lemma_cut(s, c);
    let m = cut(s, c);
    if m < n {
        assert(s[m] == c);
    }
}

/// What `trimmed_end` takes away is blank, and what it leaves ends in no white char.
pub proof fn lemma_trimmed_end(s: Seq<char>)
    ensures
        trimmed_end(s).len() <= s.len(),
        trimmed_end(s) == s.take(trimmed_end(s).len() as int),
        trimmed_end(s).len() > 0 ==> !white(trimmed_end(s).last()),
        forall|i: int| trimmed_end(s).len() <= i < s.len() ==> white(#[trigger] s[i]),
    decreases s.len(),
{
    if s.len() > 0 && white(s.last()) {
        let t = s.drop_last();
        lemma_trimmed_end(t);
        let n = trimmed_end(t).len() as int;
        assert(t.take(n) == s.take(n));
        assert forall|i: int| n <= i < s.len() implies white(#[trigger] s[i]) by {
            if i < t.len() {
                assert(s[i] == t[i]);
            }
        }
    } else {
        assert(s.take(s.len() as int) == s);
    }
}

pub proof fn lemma_trimmed_end_unique(s: Seq<char>, n: int)
    requires
        0 <= n <= s.len(),
        n > 0 ==> !white(s[n - 1]),
        forall|i: int| n <= i < s.len() ==> white(#[trigger] s[i]),
    ensures
        trimmed_end(s) == s.take(n),
{
    lemma_trimmed_end(s);
    let m = trimmed_end(s).len() as int;
    if m < n {
        assert(white(s[n - 1]));
    } else if n < m {
        assert(white(s[m - 1]));
        assert(trimmed_end(s).last() == s[m - 1]);
    }
}

/// White chars at the end of a text are no part of it once it is trimmed.
pub proof fn lemma_trimmed_white(s: Seq<char>, w: Seq<char>)
    requires
        blank(w),
    ensures
        trimmed_end(s + w) == trimmed_end(s),
    decreases w.len(),
{
    if w.len() == 0 {
        assert(s + w == s);
    } else {
        let v = w.drop_last();
        assert forall|i: int| 0 <= i < v.len() implies white(#[trigger] v[i]) by {
            assert(v[i] == w[i]);
        }
        assert(white(w[w.len() - 1]));
        lemma_trimmed_white(s, v);
        assert((s + w).drop_last() == s + v);
    }
}

/// A text is what trimming its end leaves, then something blank.
pub proof fn lemma_trimmed_rest(s: Seq<char>) -> (w: Seq<char>)
    ensures
        blank(w),
        s == trimmed_end(s) + w,
{
    lemma_trimmed_end(s);
    let n = trimmed_end(s).len() as int;
    let w = s.skip(n);
    assert forall|i: int| 0 <= i < w.len() implies white(#[trigger] w[i]) by {
        assert(w[i] == s[n + i]);
    }
    assert(s == s.take(n) + w);
    w
}

pub proof fn lemma_trimmed_start(s: Seq<char>)
    ensures
        trimmed_start(s).len() <= s.len(),
        trimmed_start(s) == s.skip(s.len() - trimmed_start(s).len()),
        trimmed_start(s).len() > 0 ==> !white(trimmed_start(s)[0]),
        forall|i: int| 0 <= i < s.len() - trimmed_start(s).len() ==> white(#[trigger] s[i]),
    decreases s.len(),
{
    if s.len() > 0 && white(s[0]) {
        let t = s.skip(1);
        lemma_trimmed_start(t);
        let n = trimmed_start(t).len() as int;
        assert(t.skip(t.len() - n) == s.skip(s.len() - n));
        assert forall|i: int| 0 <= i < s.len() - n implies white(#[trigger] s[i]) by {
            if i > 0 {
                assert(s[i] == t[i - 1]);
            }
        }
    } else {
        assert(s.skip(0) == s);
    }
}

/// A text is blank exactly where trimming leaves nothing of it.
pub proof fn lemma_blank_trimmed(s: Seq<char>)
    ensures
        blank(s) <==> trimmed_end(s).len() == 0,
        blank(s) <==> trimmed(s).len() == 0,
{
    lemma_trimmed_end(s);
    if trimmed_end(s).len() > 0 {
        let n = trimmed_end(s).len() as int;
        assert(s[n - 1] == trimmed_end(s).last());
    }
    let t = trimmed_start(s);
    lemma_trimmed_start(s);
    lemma_trimmed_end(t);
    if t.len() > 0 {
        assert(t[0] == s[s.len() - t.len()]);
        if trimmed_end(t).len() == 0 {
            assert(white(t[0]));
        }
    }
}

/// Whether a char is white space.
pub fn is_whitespace(c: char) -> (r: bool)
    ensures
        r == white(c),
{
    ('\u{9}' <= c && c <= '\u{d}') || c == ' ' || c == '\u{85}' || c == '\u{a0}' || c == '\u{1680}'
        || ('\u{2000}' <= c && c <= '\u{200a}') || c == '\u{2028}' || c == '\u{2029}' || c
        == '\u{202f}' || c == '\u{205f}' || c == '\u{3000}'
}

/// The chars of a text.
pub fn chars_of(s: &str) -> (r: Vec<char>)
    ensures
        r@ == s@,
{
    let mut out: Vec<char> = Vec::new();
    for c in it: s.chars()
        invariant
            out@ == it.seq().take(it.index()),
            it.seq() == s@,
    {
        out.push(c);
    }
    out
}

/// The chars of `v` from `from` up to `to`, as a string.
pub fn text_of(v: &Vec<char>, from: usize, to: usize) -> (r: String)
    requires
        from <= to <= v.len(),
    ensures
        r@ == v@.subrange(from as int, to as int),
{
    let mut out = String::new();
    let mut i: usize = from;
    while i < to
        invariant
            from <= i <= to <= v.len(),
            out@ == v@.subrange(from as int, i as int),
        decreases to - i,
    {
        out.push(v[i]);
        i += 1;
        assert(v@.subrange(from as int, i as int) == v@.subrange(from as int, i - 1).push(
            v@[i - 1],
        ));
    }
    out
}

/// Whether two texts are the same.
pub fn same_text(a: &str, b: &str) -> (r: bool)
    ensures
        r == (a@ == b@),
{
    let x = chars_of(a);
    let y = chars_of(b);
    if x.len() != y.len() {
        return false;
    }
    let mut i: usize = 0;
    while i < x.len()
        invariant
            i <= x.len(),
            x.len() == y.len(),
            x@ == a@,
            y@ == b@,
            forall|j: int| 0 <= j < i ==> x@[j] == y@[j],
        decreases x.len() - i,
    {
        if x[i] != y[i] {
            assert(a@[i as int] != b@[i as int]);
            return false;
        }
        i += 1;
    }
    assert(x@ =~= y@);
    true
}

/// `a` followed by `b`.
pub fn joined_pair(a: &str, b: &str) -> (r: String)
    ensures
        r@ == a@ + b@,
{
    let mut out = a.to_owned();
    out.append(b);
    out
}

/// `a`, then `b`, then `c`.
pub fn joined_three(a: &str, b: &str, c: &str) -> (r: String)
    ensures
        r@ == a@ + b@ + c@,
{
    let mut out = joined_pair(a, b);
    out.append(c);
    out
}

/// Whether `s` starts with `p`.
pub fn starts_with(s: &str, p: &str) -> (r: bool)
    ensures
        r == p@.is_prefix_of(s@),
{
    let x = chars_of(s);
    let y = chars_of(p);
    occurs_here(&x, &y, 0)
}

/// Whether `s` ends with `p`.
pub fn ends_with(s: &str, p: &str) -> (r: bool)
    ensures
        r == p@.is_suffix_of(s@),
{
    let x = chars_of(s);
    let y = chars_of(p);
    if y.len() > x.len() {
        return false;
    }
    occurs_here(&x, &y, x.len() - y.len())
}

/// `y` stands in `x` at position `at`.
fn occurs_here(x: &Vec<char>, y: &Vec<char>, at: usize) -> (r: bool)
    ensures
        r == occurs_at(x@, y@, at as int),
        at == 0 ==> r == y@.is_prefix_of(x@),
        at + y.len() == x.len() ==> r == y@.is_suffix_of(x@),
{
    if at > x.len() || y.len() > x.len() - at {
        return false;
    }
    let mut i: usize = 0;
    while i < y.len()
        invariant
            i <= y.len(),
            at + y.len() <= x.len(),
            forall|j: int| 0 <= j < i ==> x@[at + j] == y@[j],
        decreases y.len() - i,
    {
        if x[at + i] != y[i] {
            assert(x@.subrange(at as int, at + y@.len())[i as int] != y@[i as int]);
            return false;
        }
        i += 1;
    }
    assert(x@.subrange(at as int, at + y@.len()) =~= y@);
    true
}

/// Whether `p` occurs in `s`.
pub fn contains(s: &str, p: &str) -> (r: bool)
    ensures
        r == occurs(s@, p@),
{
    let x = chars_of(s);
    let y = chars_of(p);
    let mut i: usize = 0;
    while i < x.len()
        invariant
            i <= x.len(),
            x@ == s@,
            y@ == p@,
            forall|j: int| 0 <= j < i ==> !occurs_at(s@, p@, j),
        decreases x.len() - i,
    {
        if occurs_here(&x, &y, i) {
            return true;
        }
        i += 1;
    }
    if occurs_here(&x, &y, i) {
        return true;
    }
    false
}

/// The last position at which `p` stands in `s`.
pub fn rfind(s: &str, p: &str) -> (r: Option<usize>)
    ensures
        r is None <==> !occurs(s@, p@),
        r matches Some(i) ==> occurs_at(s@, p@, i as int),
        r matches Some(i) ==> forall|j: int| i < j ==> !occurs_at(s@, p@, j),
{
    let x = chars_of(s);
    let y = chars_of(p);
    let mut i: usize = x.len();
    loop
        invariant
            i <= x.len(),
            x@ == s@,
            y@ == p@,
            forall|j: int| i < j ==> !occurs_at(s@, p@, j),
        decreases i,
    {
        if occurs_here(&x, &y, i) {
            return Some(i);
        }
        if i == 0 {
            return None;
        }
        i -= 1;
    }
}

/// The number of chars of `s`.
pub fn char_count(s: &str) -> (r: usize)
    ensures
        r == s@.len(),
{
    chars_of(s).len()
}

/// The chars of `s` from position `from` up to `to`.
pub fn slice(s: &str, from: usize, to: usize) -> (r: String)
    requires
        from <= to <= s@.len(),
    ensures
        r@ == s@.subrange(from as int, to as int),
{
    let v = chars_of(s);
    text_of(&v, from, to)
}

/// The first `n` chars, all where there are fewer.
pub fn take_chars(s: &str, n: usize) -> (r: String)
    ensures
        r@ == first_chars(s@, n as int),
{
    let v = chars_of(s);
    if v.len() <= n {
        assert(v@.subrange(0, v.len() as int) == v@);
        text_of(&v, 0, v.len())
    } else {
        text_of(&v, 0, n)
    }
}

/// Without white space at the end.
pub fn trim_end(s: &str) -> (r: String)
    ensures
        r@ == trimmed_end(s@),
{
    let v = chars_of(s);
    let mut n: usize = v.len();
    while n > 0 && is_whitespace(v[n - 1])
        invariant
            n <= v.len(),
            forall|i: int| n <= i < v.len() ==> white(#[trigger] v@[i]),
        decreases n,
    {
        n -= 1;
    }
    proof {
        lemma_trimmed_end_unique(v@, n as int);
    }
    text_of(&v, 0, n)
}

/// Without white space at the start.
pub fn trim_start(s: &str) -> (r: String)
    ensures
        r@ == trimmed_start(s@),
{
    let v = chars_of(s);
    let mut n: usize = 0;
    assert(v@.skip(0) == v@);
    while n < v.len() && is_whitespace(v[n])
        invariant
            n <= v.len(),
            trimmed_start(v@) == trimmed_start(v@.skip(n as int)),
        decreases v.len() - n,
    {
        assert(v@.skip(n as int).skip(1) == v@.skip(n + 1));
        n += 1;
    }
    text_of(&v, n, v.len())
}

/// Without white space at both ends.
pub fn trim(s: &str) -> (r: String)
    ensures
        r@ == trimmed(s@),
{
    trim_end(trim_start(s).as_str())
}

/// Whether a text is white space only.
pub fn is_blank(s: &str) -> (r: bool)
    ensures
        r == blank(s@),
{
    proof {
        lemma_blank_trimmed(s@);
    }
    char_count(trim_end(s).as_str()) == 0
}

/// `s` without the chars `c` at its start.
pub fn strip_start(s: &str, c: char) -> (r: String)
    ensures
        r@ == stripped_start(s@, c),
{
    let v = chars_of(s);
    let mut n: usize = 0;
    assert(v@.skip(0) == v@);
    while n < v.len() && v[n] == c
        invariant
            n <= v.len(),
            stripped_start(v@, c) == stripped_start(v@.skip(n as int), c),
        decreases v.len() - n,
    {
        assert(v@.skip(n as int).skip(1) == v@.skip(n + 1));
        n += 1;
    }
    text_of(&v, n, v.len())
}

/// `s` without the chars `c` at its end.
pub fn strip_end(s: &str, c: char) -> (r: String)
    ensures
        r@ == stripped_end(s@, c),
{
    let v = chars_of(s);
    let mut n: usize = v.len();
    assert(v@.take(n as int) == v@);
    while n > 0 && v[n - 1] == c
        invariant
            n <= v.len(),
            stripped_end(v@, c) == stripped_end(v@.take(n as int), c),
        decreases n,
    {
        assert(v@.take(n as int).drop_last() == v@.take(n - 1));
        n -= 1;
    }
    text_of(&v, 0, n)
}

/// The number of chars of `s` before its first `c`.
pub fn cut_at(s: &str, c: char) -> (r: usize)
    ensures
        r == cut(s@, c),
{
    let v = chars_of(s);
    let mut n: usize = 0;
    while n < v.len() && v[n] != c
        invariant
            n <= v.len(),
            forall|i: int| 0 <= i < n ==> v@[i] != c,
        decreases v.len() - n,
    {
        n += 1;
    }
    proof {
        lemma_cut_unique(v@, c, n as int);
    }
    n
}

fn digit_of(n: u64) -> (c: char)
    requires
        n < 10,
    ensures
        c == digit_char(n as nat),
{
    match n {
        0 => '0',
        1 => '1',
        2 => '2',
        3 => '3',
        4 => '4',
        5 => '5',
        6 => '6',
        7 => '7',
        8 => '8',
        _ => '9',
    }
}

/// `n` in decimal.
pub fn show_number(n: u64) -> (r: String)
    ensures
        r@ == decimal(n as nat),
    decreases n,
{
    if n < 10 {
        let mut out = String::new();
        out.push(digit_of(n));
        assert(out@ =~= decimal(n as nat));
        out
    } else {
        let mut out = show_number(n / 10);
        out.push(digit_of(n % 10));
        out
    }
}

proof fn lemma_digits_value_grows(s: Seq<char>, n: int)
    requires
        0 <= n <= s.len(),
    ensures
        digits_value(s.take(n)) <= digits_value(s),
    decreases s.len() - n,
{
    if n < s.len() {
        lemma_digits_value_grows(s, n + 1);
        assert(s.take(n + 1).drop_last() == s.take(n));
    } else {
        assert(s.take(n) == s);
    }
}

/// The number that `s` writes in decimal, where it is at most `max`.
pub fn parse_number(s: &str, max: u64) -> (r: Option<u64>)
    ensures
        match r {
            Some(n) => parsed_number(s@, max as nat) == Some(n as nat),
            None => parsed_number(s@, max as nat) is None,
        },
{
    let v = chars_of(s);
    let start: usize = if v.len() > 0 && v[0] == '+' {
        1
    } else {
        0
    };
    let ghost d = unsigned_part(v@);
    assert(d == v@.skip(start as int));
    if v.len() == start {
        return None;
    }
    let mut n: u64 = 0;
    let mut i: usize = start;
    while i < v.len()
        invariant
            start <= i <= v.len(),
            d == v@.skip(start as int),
            d == unsigned_part(s@),
            n == digits_value(d.take(i - start)),
            forall|j: int| 0 <= j < i - start ==> is_digit(#[trigger] d[j]),
            n <= max,
        decreases v.len() - i,
    {
        let c = v[i];
        assert(d[i - start] == c);
        if c < '0' || c > '9' {
            return None;
        }
        let x: u64 = (c as u64) - ('0' as u64);
        proof {
            assert(d.take(i - start + 1).drop_last() == d.take(i - start));
            lemma_digits_value_grows(d, i - start + 1);
        }
        if n > max / 10 || (n == max / 10 && x > max % 10) {
            return None;
        }
        n = n * 10 + x;
        i += 1;
    }
    assert(d.take(v.len() - start) == d);
    Some(n)
}

} // verus!
