use minigrep::{insensitive_search, search};

const POEM: &str = "\
Rust:
Safe, fast, productive.
Pick three.
";

#[test]
fn search_returns_one_result() {
    let query = "duct";
    let content = "\
Rust:
Safe, fast, productive.
Pick three.
";

    assert_eq!(vec!["Safe, fast, productive."], search(content, query));
}

#[test]
fn insensitive_search_returns_case_insensitive_results() {
    let query = "Duct";
    let content = "\
Rust:
Safe, fast, productive.
Pick three.
";

    assert_eq!(vec!["Safe, fast, productive."], insensitive_search(content, query));
}

#[test]
fn search_minds_letter_case() {
    assert_eq!(Vec::<&str>::new(), search(POEM, "Duct"));
    assert_eq!(vec!["Rust:"], search(POEM, "Rust"));
    assert_eq!(Vec::<&str>::new(), search(POEM, "rust"));
}

#[test]
fn search_without_a_match_is_empty() {
    assert_eq!(Vec::<&str>::new(), search(POEM, "zzz"));
    assert_eq!(Vec::<&str>::new(), insensitive_search(POEM, "zzz"));
}

#[test]
fn search_of_empty_content_is_empty() {
    assert_eq!(Vec::<&str>::new(), search("", "a"));
    assert_eq!(Vec::<&str>::new(), insensitive_search("", "a"));
    assert_eq!(Vec::<&str>::new(), search("", ""));
    assert_eq!(Vec::<&str>::new(), insensitive_search("", ""));
}

#[test]
fn query_in_every_line_gives_every_line() {
    assert_eq!(vec!["Rust:", "Safe, fast, productive.", "Pick three."], search(POEM, "t"));
    assert_eq!(
        vec!["Rust:", "Safe, fast, productive.", "Pick three."],
        insensitive_search(POEM, "T")
    );
}

#[test]
fn query_longer_than_every_line_finds_nothing() {
    let query = "Safe, fast, productive. And then some.";
    assert_eq!(Vec::<&str>::new(), search(POEM, query));
    assert_eq!(Vec::<&str>::new(), insensitive_search(POEM, query));
}

#[test]
fn whole_line_as_query_finds_the_line() {
    assert_eq!(vec!["Pick three."], search(POEM, "Pick three."));
    assert_eq!(vec!["Pick three."], insensitive_search(POEM, "PICK THREE."));
}

#[test]
fn overlapping_occurrences_give_the_line_once() {
    assert_eq!(vec!["aaaa"], search("aaaa\nb\n", "aa"));
    assert_eq!(vec!["aaaa"], insensitive_search("aaaa\nb\n", "AA"));
    assert_eq!(vec!["banana"], search("banana", "ana"));
}

#[test]
fn equal_lines_are_each_given() {
    assert_eq!(vec!["ab", "ab"], search("ab\ncd\nab\n", "a"));
    assert_eq!(vec!["ab", "AB"], insensitive_search("ab\ncd\nAB\n", "a"));
}

#[test]
fn matches_keep_the_order_of_the_text() {
    let content = "alpha\nALPHA\nAlpha beta\nbeta\n";
    assert_eq!(vec!["alpha", "ALPHA", "Alpha beta"], insensitive_search(content, "alpha"));
    assert_eq!(vec!["alpha"], search(content, "alpha"));
    assert_eq!(vec!["Alpha beta", "beta"], search(content, "beta"));
}

#[test]
fn last_line_needs_no_line_feed() {
    assert_eq!(vec!["two"], search("one\ntwo", "tw"));
    assert_eq!(vec!["one", "two"], search("one\ntwo", "o"));
    assert_eq!(vec!["two"], insensitive_search("one\ntwo", "TW"));
}

#[test]
fn query_never_matches_across_a_line_feed() {
    assert_eq!(Vec::<&str>::new(), search("ab\ncd\n", "bc"));
    assert_eq!(Vec::<&str>::new(), search("ab\ncd\n", "b\nc"));
    assert_eq!(Vec::<&str>::new(), search("ab\ncd\n", "\n"));
    assert_eq!(Vec::<&str>::new(), insensitive_search("ab\ncd\n", "\n"));
}

#[test]
fn carriage_return_stays_in_the_line() {
    assert_eq!(vec!["one\r", "two\r"], search("one\r\ntwo\r\nthree", "o"));
    assert_eq!(vec!["one\r"], search("one\r\ntwo\r\n", "e\r"));
    assert_eq!(vec!["one\r", "two\r"], search("one\r\ntwo\r\nthree", "\r"));
    assert_eq!(vec!["ONE\r"], insensitive_search("ONE\r\ntwo\n", "e\r"));
}

#[test]
fn empty_lines_are_lines() {
    assert_eq!(vec!["", "a", "", "b"], search("\na\n\nb\n", ""));
    assert_eq!(vec![""], search("\n", ""));
    assert_eq!(vec!["", ""], search("\n\n", ""));
    assert_eq!(vec!["", "", "x"], search("\n\nx", ""));
}

#[test]
fn empty_query_gives_every_line() {
    assert_eq!(vec!["Rust:", "Safe, fast, productive.", "Pick three."], search(POEM, ""));
    assert_eq!(vec!["Rust:", "Safe, fast, productive.", "Pick three."], insensitive_search(POEM, ""));
    assert_eq!(vec!["a", "", "b"], search("a\n\nb", ""));
    assert_eq!(vec!["a", "", "b"], insensitive_search("a\n\nb", ""));
}

#[test]
fn spaces_are_not_trimmed() {
    assert_eq!(vec!["  indented  "], search("  indented  \nflush\n", "d  "));
    assert_eq!(Vec::<&str>::new(), search("flush\n", " flush"));
    assert_eq!(vec!["a b"], search("a b\nab\n", " "));
}

#[test]
fn search_reads_characters_of_several_bytes() {
    let content = "na\u{ef}ve caf\u{e9}\nplain cafe\n\u{65e5}\u{672c}\u{8a9e} text\n\u{1f600} smile\n";
    assert_eq!(vec!["na\u{ef}ve caf\u{e9}"], search(content, "\u{e9}"));
    assert_eq!(vec!["na\u{ef}ve caf\u{e9}"], search(content, "\u{ef}v"));
    assert_eq!(vec!["\u{65e5}\u{672c}\u{8a9e} text"], search(content, "\u{672c}\u{8a9e}"));
    assert_eq!(vec!["\u{1f600} smile"], search(content, "\u{1f600}"));
    assert_eq!(Vec::<&str>::new(), search(content, "\u{e8}"));
    assert_eq!(Vec::<&str>::new(), search(content, "\u{65e5}\u{8a9e}"));
}

#[test]
fn characters_sharing_bytes_do_not_match() {
    // U+00E9 is C3 A9, U+00E3 is C3 A3, U+0129 is C4 A9: each shares one byte with another.
    assert_eq!(Vec::<&str>::new(), search("\u{e3}\n\u{129}\n", "\u{e9}"));
    // U+4E2D is E4 B8 AD and U+02ED is CB AD: the second is no tail of the first.
    assert_eq!(Vec::<&str>::new(), search("\u{4e2d}\n", "\u{2ed}"));
    assert_eq!(vec!["\u{e3}\u{e9}"], search("\u{e3}\u{e9}\n\u{e3}\n", "\u{e9}"));
}

#[test]
fn insensitive_search_gives_lines_as_they_stand() {
    assert_eq!(vec!["HELLO World"], insensitive_search("HELLO World\nbye\n", "hello w"));
    assert_eq!(vec!["HELLO World"], insensitive_search("HELLO World\nbye\n", "O WORLD"));
}

#[test]
fn insensitive_search_lowers_letters_beyond_ascii() {
    let content = "\u{c4}RGER\nSTRASSE\n\u{41f}\u{420}\u{418}\u{412}\u{415}\u{422}\n";
    assert_eq!(vec!["\u{c4}RGER"], insensitive_search(content, "\u{e4}rg"));
    assert_eq!(vec!["\u{c4}RGER"], insensitive_search(content, "\u{c4}RG"));
    assert_eq!(
        vec!["\u{41f}\u{420}\u{418}\u{412}\u{415}\u{422}"],
        insensitive_search(content, "\u{43f}\u{440}\u{438}")
    );
    assert_eq!(Vec::<&str>::new(), search(content, "\u{e4}rg"));
}

#[test]
fn insensitive_search_lowers_each_character_by_itself() {
    // A capital sigma is lowered to the same letter wherever it stands in a word.
    let content = "\u{39f}\u{394}\u{39f}\u{3a3}\n";
    assert_eq!(vec!["\u{39f}\u{394}\u{39f}\u{3a3}"], search(content, "\u{3a3}"));
    assert_eq!(vec!["\u{39f}\u{394}\u{39f}\u{3a3}"], insensitive_search(content, "\u{3a3}"));
    assert_eq!(vec!["\u{39f}\u{394}\u{39f}\u{3a3}"], insensitive_search(content, "\u{3c3}"));
    assert_eq!(Vec::<&str>::new(), insensitive_search(content, "\u{3c2}"));
}

#[test]
fn insensitive_search_lowers_to_more_than_one_character() {
    // The capital I with a dot above is lowered to an i and a combining dot.
    assert_eq!(vec!["\u{130}stanbul"], insensitive_search("\u{130}stanbul\n", "i\u{307}s"));
    assert_eq!(vec!["\u{130}stanbul"], insensitive_search("\u{130}stanbul\n", "i"));
    assert_eq!(Vec::<&str>::new(), insensitive_search("\u{130}stanbul\n", "is"));
}
