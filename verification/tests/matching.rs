use minigrep::lines::split_lines;
use minigrep::pattern::{contains, replace};
use minigrep::search::{fold_case, search, search_case_insensitive, select};
use minigrep::text::{chars_of, string_of};

fn sample() -> Vec<String> {
    vec![
        "Rust:".to_string(),
        "safe, fast, productive.".to_string(),
        "Pick three.".to_string(),
        "‘Ductape’ is a typo".to_string(),
    ]
}

fn owned(lines: &[&str]) -> Vec<String> {
    lines.iter().map(|line| line.to_string()).collect()
}

#[test]
fn search_1() {
    let query = "duct".to_string();
    let contents = vec![
        "Rust:".to_string(),
        "safe, fast, productive.".to_string(),
        "Pick three.".to_string(),
        "‘Ductape’ is a typo".to_string(),
    ];
    assert_eq!(vec![1], search(&query, &contents));
}

#[test]
fn search_2() {
    let query = "duct".to_string();
    let contents = vec![
        "Rust:".to_string(),
        "safe, fast, productive.".to_string(),
        "Pick three.".to_string(),
        "‘Ductape’ is a typo".to_string(),
    ];
    assert_eq!(vec![1, 3], search_case_insensitive(&query, &contents));
}

#[test]
fn select_follows_the_mode() {
    let query = "duct".to_string();
    assert_eq!(vec![1], select(&query, &sample(), true));
    assert_eq!(vec![1, 3], select(&query, &sample(), false));
}

#[test]
fn search_without_a_hit_is_empty() {
    let query = "python".to_string();
    assert_eq!(Vec::<usize>::new(), search(&query, &sample()));
    assert_eq!(Vec::<usize>::new(), search_case_insensitive(&query, &sample()));
}

#[test]
fn search_in_no_lines_is_empty() {
    let query = "a".to_string();
    let none: Vec<String> = Vec::new();
    assert_eq!(Vec::<usize>::new(), search(&query, &none));
    assert_eq!(Vec::<usize>::new(), search_case_insensitive(&String::new(), &none));
}

#[test]
fn empty_query_matches_every_line() {
    let query = String::new();
    assert_eq!(vec![0, 1, 2, 3], search(&query, &sample()));
    assert_eq!(vec![0, 1, 2, 3], search_case_insensitive(&query, &sample()));
    let one = vec![String::new()];
    assert_eq!(vec![0], search(&query, &one));
}

#[test]
fn matching_twice_gives_the_same() {
    let query = "t".to_string();
    let first = search(&query, &sample());
    let second = search(&query, &sample());
    assert_eq!(first, second);
    assert_eq!(vec![0, 1, 2, 3], first);
    let first = search_case_insensitive(&query, &sample());
    let second = search_case_insensitive(&query, &sample());
    assert_eq!(first, second);
}

#[test]
fn sensitive_hits_are_insensitive_hits() {
    let contents = owned(&["Alpha beta", "ALPHA BETA", "alpha", "gamma", "", "Beta alpha"]);
    for query in ["alpha", "Alpha", "ALPHA", "a", "B", "ta a", "", "z"] {
        let exact = search(&query.to_string(), &contents);
        let loose = search_case_insensitive(&query.to_string(), &contents);
        for index in &exact {
            assert!(loose.contains(index), "query {:?}, line {}", query, index);
        }
    }
    assert_eq!(vec![0], search(&"Alpha".to_string(), &contents));
    assert_eq!(vec![0, 1, 2, 5], search_case_insensitive(&"Alpha".to_string(), &contents));
}

#[test]
fn capital_query_matches_small_line() {
    let contents = owned(&["nothing", "the duct", "DUCT"]);
    assert_eq!(Vec::<usize>::new(), search(&"Duct".to_string(), &contents));
    assert_eq!(vec![1, 2], search_case_insensitive(&"Duct".to_string(), &contents));
}

#[test]
fn folding_reaches_beyond_ascii() {
    let contents = owned(&["à l'école", "À L'ÉCOLE", "ecole"]);
    assert_eq!(vec![1], search(&"ÉCOLE".to_string(), &contents));
    assert_eq!(vec![0, 1], search_case_insensitive(&"ÉCOLE".to_string(), &contents));
    assert_eq!(vec![0, 1], search_case_insensitive(&"école".to_string(), &contents));
}

#[test]
fn final_sigma_is_lowered_by_its_place() {
    let contents = owned(&["ΑΣ"]);
    let query = "Σ".to_string();
    assert_eq!(vec![0], search(&query, &contents));
    assert_eq!(Vec::<usize>::new(), search_case_insensitive(&query, &contents));
}

#[test]
fn fold_case_agrees_with_the_standard_library() {
    for text in ["", "Hello, World!", "ALL CAPS 123 [\\]^_`", "déjà VU", "ΑΣ", "Σ", "İstanbul", "ǅ"] {
        assert_eq!(string_of(&fold_case(text)), text.to_lowercase(), "text {:?}", text);
    }
    assert_eq!(string_of(&fold_case("AZ az @[ `{")), "az az @[ `{");
    assert_eq!(string_of(&fold_case("ÉCOLE")), "école");
}

#[test]
fn chars_and_strings_convert_both_ways() {
    assert_eq!(chars_of("a‘b"), vec!['a', '‘', 'b']);
    assert_eq!(chars_of(""), Vec::<char>::new());
    assert_eq!(string_of(&['x', 'é', '\n']), "xé\n");
    assert_eq!(string_of(&chars_of("‘Ductape’ is a typo")), "‘Ductape’ is a typo");
}

#[test]
fn contains_agrees_with_the_standard_library() {
    let texts = ["", "a", "ab", "aab", "abab", "productive", "‘Ductape’", "xx‘"];
    let patterns = ["", "a", "b", "ab", "aba", "duct", "Duct", "‘", "’", "abc", "abab", "ababa"];
    for text in texts {
        for pattern in patterns {
            assert_eq!(
                contains(&chars_of(text), &chars_of(pattern)),
                text.contains(pattern),
                "text {:?}, pattern {:?}",
                text,
                pattern
            );
        }
    }
    assert!(contains(&chars_of("safe, fast, productive."), &chars_of("duct")));
    assert!(!contains(&chars_of("Pick three."), &chars_of("duct")));
    assert!(contains(&chars_of("end"), &chars_of("nd")));
    assert!(!contains(&chars_of("en"), &chars_of("end")));
}

#[test]
fn replace_agrees_with_the_standard_library() {
    let texts = ["", "a", "aaa", "aaaa", "abcabc", "I love blue cheese!", "‘é’é", "xyz"];
    let patterns = ["", "a", "aa", "abc", "bc", "love", "é", "xyzz", "z"];
    let replacements = ["", "-", "a", "<a>", "‘"];
    for text in texts {
        for pattern in patterns {
            for replacement in replacements {
                let got = replace(&chars_of(text), &chars_of(pattern), &chars_of(replacement));
                assert_eq!(
                    string_of(&got),
                    text.replace(pattern, replacement),
                    "text {:?}, pattern {:?}, replacement {:?}",
                    text,
                    pattern,
                    replacement
                );
            }
        }
    }
}

#[test]
fn replace_takes_occurrences_from_the_left() {
    let got = replace(&chars_of("aaa"), &chars_of("aa"), &chars_of("b"));
    assert_eq!(string_of(&got), "ba");
    let got = replace(&chars_of("abc"), &chars_of(""), &chars_of("-"));
    assert_eq!(string_of(&got), "-a-b-c-");
    let got = replace(&chars_of(""), &chars_of(""), &chars_of("-"));
    assert_eq!(string_of(&got), "-");
    let got = replace(&chars_of("abc"), &chars_of("abcd"), &chars_of("-"));
    assert_eq!(string_of(&got), "abc");
}

#[test]
fn empty_text_has_one_empty_line() {
    assert_eq!(split_lines(""), vec![String::new()]);
}

#[test]
fn lines_are_cut_at_line_feeds_only() {
    assert_eq!(split_lines("one"), owned(&["one"]));
    assert_eq!(split_lines("one\ntwo"), owned(&["one", "two"]));
    assert_eq!(split_lines("one\ntwo\n"), owned(&["one", "two", ""]));
    assert_eq!(split_lines("\n"), owned(&["", ""]));
    assert_eq!(split_lines("\n\nx"), owned(&["", "", "x"]));
    assert_eq!(split_lines("a\r\nb\r\n"), owned(&["a\r", "b\r", ""]));
    assert_eq!(split_lines(" a \n\tb"), owned(&[" a ", "\tb"]));
}

#[test]
fn split_lines_agrees_with_the_standard_library() {
    for text in ["", "\n", "a", "a\n", "\na", "a\n\nb", "‘x’\né\n", "a\rb\r\nc", "\n\n\n"] {
        let expected: Vec<String> = text.split("\n").map(|line| line.to_string()).collect();
        assert_eq!(split_lines(text), expected, "text {:?}", text);
        assert_eq!(split_lines(text).join("\n"), text);
    }
}
