use dsh_harness::lines::{ensure_nl, split_lines};
use dsh_harness::order::{order_desc, text_before, Rank};
use dsh_harness::text::{
    contains, cut_at, ends_with, is_blank, is_whitespace, parse_number, rfind, show_number, slice,
    starts_with, strip_end, strip_start, take_chars, trim, trim_end, trim_start,
};

#[test]
fn white_space_is_that_of_the_language() {
    for c in '\0'..=char::MAX {
        assert_eq!(is_whitespace(c), c.is_whitespace(), "{c:?}");
    }
}

#[test]
fn texts_are_trimmed() {
    for s in ["", " ", "\u{3000}a b\t\r\n", "a", "\n\na"] {
        assert_eq!(trim(s), s.trim());
        assert_eq!(trim_start(s), s.trim_start());
        assert_eq!(trim_end(s), s.trim_end());
        assert_eq!(is_blank(s), s.trim().is_empty());
    }
    assert_eq!(strip_start("vvv1v", 'v'), "1v");
    assert_eq!(strip_end("\"\"x\"\"", '"'), "\"\"x");
}

#[test]
fn texts_are_searched() {
    for (s, p) in [("abcabc", "bc"), ("abc", ""), ("", "a"), ("ab", "abc"), ("键值键", "键")] {
        assert_eq!(contains(s, p), s.contains(p));
        assert_eq!(starts_with(s, p), s.starts_with(p));
        assert_eq!(ends_with(s, p), s.ends_with(p));
        assert_eq!(rfind(s, p), s.rfind(p).map(|i| s[..i].chars().count()));
    }
    assert_eq!(cut_at("a:b:c", ':'), 1);
    assert_eq!(cut_at("abc", ':'), 3);
    assert_eq!(slice("键值对", 1, 2), "值");
    assert_eq!(take_chars("键值对", 2), "键值");
    assert_eq!(take_chars("键", 2), "键");
}

#[test]
fn numbers_are_read_and_shown() {
    for n in [0u64, 9, 10, 4294967295, u64::MAX] {
        assert_eq!(show_number(n), n.to_string());
        assert_eq!(parse_number(&n.to_string(), u64::MAX), Some(n));
    }
    for s in ["", "+", "+7", "-0", "007", "1 ", "x", "18446744073709551616", "99999999999999999999999"] {
        assert_eq!(parse_number(s, u64::MAX), s.parse::<u64>().ok());
        assert_eq!(parse_number(s, u32::MAX as u64), s.parse::<u32>().ok().map(|n| n as u64));
    }
}

#[test]
fn lines_keep_their_ends() {
    for s in ["", "\n", "a", "a\nb", "a\n\nb\n", "a\r\n"] {
        let want: Vec<String> = s.split_inclusive('\n').map(|l| l.to_string()).collect();
        assert_eq!(split_lines(s), want);
    }
    assert_eq!(ensure_nl("a".to_string()), "a\n");
    assert_eq!(ensure_nl("a\n".to_string()), "a\n");
    assert_eq!(ensure_nl("".to_string()), "");
}

#[test]
fn texts_have_the_order_of_strings() {
    let all = ["", "a", "ab", "b", "é", "z", "键", "\u{10000}", "\u{ffff}"];
    for a in all {
        for b in all {
            assert_eq!(text_before(a, b), a < b, "{a:?} {b:?}");
        }
    }
}

#[test]
fn ranks_are_ordered_part_by_part() {
    let rank = |a: u64, b: u64, c: u64, d: u64| Rank { first: a, second: b, third: c, fourth: d };
    let ranks = vec![rank(1, 0, 0, 0), rank(1, 2, 0, 0), rank(0, 9, 9, 9), rank(1, 0, 0, 5), rank(1, 0, 3, 0)];
    assert_eq!(order_desc(&ranks), vec![1, 4, 3, 0, 2]);
    assert!(order_desc(&vec![]).is_empty());
}
