use trail::numbers::{decimal_string, parse_usize_chars};
use trail::order::{lex_less, sorted_distinct};
use trail::text::{
    contains_str, lines_chars, split_chars, splitn_chars, to_chars, trim_bounds,
};

fn strings(v: Vec<Vec<char>>) -> Vec<String> {
    v.into_iter().map(|p| p.into_iter().collect()).collect()
}

fn parse(s: &str) -> Option<usize> {
    parse_usize_chars(&to_chars(s))
}

#[test]
fn decimal_rendering() {
    assert_eq!(decimal_string(0), "0");
    assert_eq!(decimal_string(7), "7");
    assert_eq!(decimal_string(1234), "1234");
    assert_eq!(decimal_string(usize::MAX), usize::MAX.to_string());
}

#[test]
fn parse_like_std() {
    for s in ["0", "42", "+42", "007", "-1", "+", "", " 1", "1 ", "1a", "18446744073709551615",
              "18446744073709551616", "99999999999999999999999", "\u{0661}"] {
        assert_eq!(parse(s), s.parse::<usize>().ok(), "input {:?}", s);
    }
}

#[test]
fn parse_reads_back_decimal() {
    for n in [0usize, 1, 9, 10, 99, 100, 65535, usize::MAX] {
        assert_eq!(parse(&decimal_string(n)), Some(n));
    }
}

#[test]
fn split_like_std() {
    for s in ["", "a", "a\tb", "\t", "a\t\tb\t", "\t\t"] {
        let expect: Vec<String> = s.split('\t').map(String::from).collect();
        assert_eq!(strings(split_chars(&to_chars(s), '\t')), expect, "input {:?}", s);
    }
}

#[test]
fn splitn_like_std() {
    for s in ["", "a", "a;b;c;d", ";;;", "a;b"] {
        for n in 1..5usize {
            let expect: Vec<String> = s.splitn(n, ';').map(String::from).collect();
            assert_eq!(strings(splitn_chars(&to_chars(s), n, ';')), expect, "input {:?} {}", s, n);
        }
    }
}

#[test]
fn lines_like_std() {
    for s in ["", "\n", "a", "a\n", "a\r\nb", "a\r", "a\n\nb\n", "\r\n\r\n", "x\ry\n"] {
        let expect: Vec<String> = s.lines().map(String::from).collect();
        assert_eq!(strings(lines_chars(&to_chars(s))), expect, "input {:?}", s);
    }
}

#[test]
fn trim_like_std() {
    for s in ["", "   ", " a ", "\u{3000}x\u{a0}", "\n\tab c\r\n", "\u{200b}z", "\u{1c}\u{1f}y\u{85}", "\u{180e}w\u{feff}", "\u{2029}q\u{205f}"] {
        let v = to_chars(s);
        let (a, b) = trim_bounds(&v, 0, v.len());
        let got: String = v[a..b].iter().collect();
        assert_eq!(got, s.trim(), "input {:?}", s);
    }
}

#[test]
fn contains_like_std() {
    assert!(contains_str("hello world", "o w"));
    assert!(contains_str("abc", ""));
    assert!(contains_str("", ""));
    assert!(!contains_str("ab", "abc"));
    assert!(!contains_str("abcab", "ba"));
}

#[test]
fn order_follows_string_ord() {
    let words = ["", "a", "ab", "b", "B", "\u{e9}", "z", "aa"];
    for x in words {
        for y in words {
            assert_eq!(lex_less(&to_chars(x), &to_chars(y)), x < y, "{:?} {:?}", x, y);
        }
    }
}

#[test]
fn sorted_distinct_sorts_and_dedups() {
    let names: Vec<String> = ["Zed", "Ann", "Bob", "Ann", "Zed", "ann"].iter().map(|s| s.to_string()).collect();
    assert_eq!(sorted_distinct(&names), vec!["Ann", "Bob", "Zed", "ann"]);
    assert!(sorted_distinct(&Vec::new()).is_empty());
}
