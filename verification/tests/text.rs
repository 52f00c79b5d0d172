use stringly::flt::{escape, multiline_attr, multiline_main};
use stringly::order::{rank_text, Rank};
use stringly::text::{
    all_fluent_ws, char_is_space, chars_of, contains_char, find_chars, push_text, replace_chars, slice_chars,
    starts_with_char, string_of, trim_chars,
};

const SAMPLES: [&str; 14] = [
    "",
    "a",
    "ab",
    "abc",
    "b",
    "Z",
    "é",
    "日本語",
    "a\u{10348}",
    " padded ",
    "aa__bb",
    "a*b\\(c\\)",
    "\n",
    "line\nline",
];

fn chars(s: &str) -> Vec<char> {
    s.chars().collect()
}

#[test]
fn white_space_is_what_std_calls_white_space() {
    for c in (0..=0x10FFFFu32).filter_map(char::from_u32) {
        assert_eq!(char_is_space(c), c.is_whitespace(), "{:?}", c);
    }
}

#[test]
fn texts_compare_as_str_values_do() {
    for a in SAMPLES {
        for b in SAMPLES {
            let expected = match a.cmp(b) {
                std::cmp::Ordering::Less => Rank::Less,
                std::cmp::Ordering::Equal => Rank::Equal,
                std::cmp::Ordering::Greater => Rank::Greater,
            };
            assert_eq!(rank_text(a, b), expected, "{:?} {:?}", a, b);
        }
    }
}

#[test]
fn strings_and_characters_convert_both_ways() {
    for s in SAMPLES {
        assert_eq!(chars_of(s), chars(s));
        assert_eq!(string_of(&chars(s)), s);
        let mut joined = "x".to_string();
        push_text(&mut joined, s);
        assert_eq!(joined, format!("x{s}"));
    }
}

#[test]
fn replacing_is_what_std_does() {
    let patterns = [("a", "xy"), ("aa", "b"), ("__", "-"), ("\n", "\n    "), ("*", "{\"*\"}"), ("abc", "")];
    for s in SAMPLES.iter().chain(["aaa", "aaaa", "a__b___c____d"].iter()) {
        for (from, to) in patterns {
            let got: String = replace_chars(&chars(s), &chars(from), &chars(to)).into_iter().collect();
            assert_eq!(got, s.replace(from, to), "{:?} {:?} {:?}", s, from, to);
        }
    }
    assert_eq!(replace_chars(&chars("abc"), &chars(""), &chars("x")), chars("abc"));
}

#[test]
fn trimming_is_what_std_does() {
    for s in ["", " ", "  a  ", "\t\n a b \r\n", "\u{a0}x\u{2003}", "no space", " \u{3000} "] {
        let got: String = trim_chars(&chars(s)).into_iter().collect();
        assert_eq!(got, s.trim());
    }
}

#[test]
fn finding_is_what_std_does() {
    for s in SAMPLES.iter().chain(["a__b__c", "___", "__"].iter()) {
        let text = chars(s);
        for from in 0..=text.len() {
            let tail: String = text[from..].iter().collect();
            let expected = match tail.find("__") {
                Some(bytes) => from + tail[..bytes].chars().count(),
                None => text.len(),
            };
            assert_eq!(find_chars(&text, &chars("__"), from), expected, "{:?} {}", s, from);
        }
    }
    assert_eq!(slice_chars(&chars("日本語 text"), 1, 4), "本語 ");
    assert_eq!(slice_chars(&chars("abc"), 2, 2), "");
}

#[test]
fn character_tests() {
    assert!(contains_char("a\nb", '\n'));
    assert!(!contains_char("ab", '\n'));
    assert!(!contains_char("", 'a'));
    assert!(starts_with_char(".a", '.'));
    assert!(!starts_with_char("a.", '.'));
    assert!(!starts_with_char("", '.'));
    assert!(all_fluent_ws(""));
    assert!(all_fluent_ws(" \r\n "));
    assert!(!all_fluent_ws(" \t "));
    assert!(!all_fluent_ws(" x"));
}

fn escape_by_std(value: &str) -> String {
    value
        .replace("*", "{\"*\"}")
        .replace("\\(", "{\"(\"}")
        .replace("\\)", "{\")\"}")
        .replace("\\{", "{\"{\"}")
        .replace("\\}", "{\"}\"}")
}

#[test]
fn escaping_and_source_forms_follow_their_formulas() {
    let texts = [
        "",
        "plain",
        "  padded\t",
        "a * b",
        "\\*",
        "\\(\\)\\{\\}",
        "\\\\(",
        "{\"*\"}",
        "one\ntwo\n\nthree",
        " \n lines \n ",
        "*\\(*\\)*",
    ];
    for t in texts {
        assert_eq!(escape(t), escape_by_std(t), "{:?}", t);
        let lines = escape_by_std(t.trim());
        assert_eq!(
            multiline_main(t),
            format!("{}\n", lines.split("\n").collect::<Vec<_>>().join("\n    ")),
            "{:?}",
            t
        );
        assert_eq!(
            multiline_attr(t),
            format!("{}\n", lines.split("\n").collect::<Vec<_>>().join("\n        ")),
            "{:?}",
            t
        );
    }
}
