use minigrep::case::to_lowercase;
use minigrep::{insensitive_search, search};

const TEXTS: [&str; 9] = [
    "",
    "\n",
    "Rust:\nSafe, fast, productive.\nPick three.\n",
    "alpha\nALPHA\nAlpha beta\nbeta\n",
    "no line feed at the end",
    "one\r\ntwo\r\n\r\nthree",
    "\n\naa\naaa\n\nAa\n",
    "\u{c4}rger\n\u{e4}rger\n\u{39f}\u{394}\u{39f}\u{3a3}\n\u{130}stanbul\n",
    "lower case only\nand more of it\n\nline\n",
];

const QUERIES: [&str; 12] = [
    "", "a", "A", "aa", "alpha", "Alpha", "duct", "Duct", "\r", "\u{e4}", "\u{3a3}", "line",
];

fn is_subsequence(sub: &[&str], full: &[&str]) -> bool {
    let mut from = 0;
    for wanted in sub {
        match full[from..].iter().position(|line| line == wanted) {
            Some(at) => from += at + 1,
            None => return false,
        }
    }
    true
}

fn count(lines: &[&str], line: &str) -> usize {
    lines.iter().filter(|other| **other == line).count()
}

#[test]
fn sensitive_result_is_a_subsequence_of_the_split_text() {
    for text in TEXTS {
        let split: Vec<&str> = text.split('\n').collect();
        for query in QUERIES {
            assert!(is_subsequence(&search(text, query), &split), "{:?} in {:?}", query, text);
            assert!(
                is_subsequence(&insensitive_search(text, query), &split),
                "{:?} in {:?}",
                query,
                text
            );
        }
    }
}

#[test]
fn query_that_is_not_empty_finds_what_a_filter_of_the_split_text_finds() {
    for text in TEXTS {
        for query in QUERIES {
            if !query.is_empty() {
                let expected: Vec<&str> =
                    text.split('\n').filter(|line| line.contains(query)).collect();
                assert_eq!(expected, search(text, query), "{:?} in {:?}", query, text);
            }
        }
    }
}

#[test]
fn sensitive_result_is_a_subsequence_of_the_insensitive_result() {
    for text in TEXTS {
        for query in QUERIES {
            let narrow = search(text, query);
            let wide = insensitive_search(text, query);
            assert!(is_subsequence(&narrow, &wide), "{:?} in {:?}", query, text);
            let kept: Vec<&str> = wide.into_iter().filter(|line| line.contains(query)).collect();
            assert_eq!(kept, narrow, "{:?} in {:?}", query, text);
        }
    }
}

#[test]
fn lowered_search_finds_the_lowered_lines() {
    for text in TEXTS {
        for query in QUERIES {
            let found: Vec<String> =
                insensitive_search(text, query).into_iter().map(to_lowercase).collect();
            let lowered_text = to_lowercase(text);
            let lowered_query = to_lowercase(query);
            assert_eq!(
                found,
                insensitive_search(&lowered_text, &lowered_query),
                "{:?} in {:?}",
                query,
                text
            );
        }
    }
}

#[test]
fn lowering_beforehand_changes_nothing_where_the_found_lines_are_lowercase() {
    let text = "lower case only\nand more of it\n\nline\nNOT this one\n";
    for query in ["LINE", "Of", "e", "", "only\n"] {
        let lowered_text = to_lowercase(text);
        let lowered_query = to_lowercase(query);
        if insensitive_search(text, query).iter().all(|line| to_lowercase(line) == **line) {
            assert_eq!(
                insensitive_search(text, query),
                insensitive_search(&lowered_text, &lowered_query)
            );
        }
    }
    assert_eq!(vec!["line"], insensitive_search(text, "LINE"));
    assert_eq!(vec!["ABC"], insensitive_search("ABC", "a"));
    assert_eq!(vec!["abc"], insensitive_search("abc", "a"));
}

#[test]
fn query_case_does_not_count_in_the_insensitive_search() {
    for text in TEXTS {
        assert_eq!(insensitive_search(text, "alpha"), insensitive_search(text, "ALPHA"));
        assert_eq!(insensitive_search(text, "alpha"), insensitive_search(text, "aLpHa"));
        assert_eq!(insensitive_search(text, "\u{e4}"), insensitive_search(text, "\u{c4}"));
    }
}

#[test]
fn empty_query_finds_all_lines() {
    for text in TEXTS {
        let mut all: Vec<&str> = text.split('\n').collect();
        if all.last() == Some(&"") {
            all.pop();
        }
        assert_eq!(all, search(text, ""), "in {:?}", text);
        assert_eq!(all, insensitive_search(text, ""), "in {:?}", text);
    }
}

#[test]
fn no_line_is_given_twice() {
    for text in TEXTS {
        let all = search(text, "");
        for query in QUERIES {
            let found = search(text, query);
            assert!(found.len() <= all.len());
            for line in &all {
                let expected = if line.contains(query) { count(&all, line) } else { 0 };
                assert_eq!(expected, count(&found, line), "{:?} in {:?}", query, text);
            }
        }
    }
    assert_eq!(vec!["aaaaaa"], search("aaaaaa\n", "a"));
    assert_eq!(vec!["aaaaaa"], insensitive_search("aaaaaa\n", "A"));
}

#[test]
fn results_do_not_depend_on_earlier_calls() {
    let text = "alpha\nALPHA\nAlpha beta\nbeta\n";
    let first = search(text, "beta");
    let _ = insensitive_search(text, "ALPHA");
    assert_eq!(first, search(text, "beta"));
}
