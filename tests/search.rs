use rust_mini_grep::{line_contains, search_case_insensitive, search_case_sensitive, split_lines};

#[test]
fn case_sensitive() {
    let query = "duct";
    let contents = "\
Rust:
safe, fast, productive.
Pick three.
Duct tape.";

    assert_eq!(
        vec!["safe, fast, productive."],
        search_case_sensitive(query, contents)
    );
}

#[test]
fn case_insensitive() {
    let query = "rUsT";
    let contents = "\
Rust:
safe, fast, productive.
Pick three.
Trust me.";

    assert_eq!(
        vec!["Rust:", "Trust me."],
        search_case_insensitive(query, contents)
    );
}

#[test]
fn sensitive_finds_one_line() {
    let contents = "Rust:\nsafe, fast, productive.\nPick three.";
    assert_eq!(
        search_case_sensitive("duct", contents),
        vec!["safe, fast, productive."]
    );
}

#[test]
fn insensitive_finds_heading() {
    let contents = "Rust:\nsafe, fast, productive.\nPick three.";
    assert_eq!(search_case_insensitive("rUsT", contents), vec!["Rust:"]);
}

#[test]
fn insensitive_finds_two_lines() {
    let contents = "Rust:\nsafe, fast, productive.\nPick three.\nTrust me.";
    assert_eq!(
        search_case_insensitive("rUsT", contents),
        vec!["Rust:", "Trust me."]
    );
}

#[test]
fn empty_query_returns_every_line() {
    assert_eq!(search_case_sensitive("", "a\nb\nc"), vec!["a", "b", "c"]);
    assert_eq!(search_case_sensitive("", "a\n\nb\n"), vec!["a", "", "b"]);
}

#[test]
fn empty_contents_has_no_match() {
    assert!(search_case_sensitive("x", "").is_empty());
    assert!(search_case_insensitive("x", "").is_empty());
    assert!(search_case_sensitive("", "").is_empty());
}

#[test]
fn sensitive_does_not_fold() {
    assert!(search_case_sensitive("rust", "Rust:\nTRUST").is_empty());
}

#[test]
fn results_keep_line_order() {
    let contents = "b1\na\nb2\nc\nb3";
    let found = search_case_sensitive("b", contents);
    assert_eq!(found, vec!["b1", "b2", "b3"]);
    let all = split_lines(contents);
    let mut next = 0;
    for line in &found {
        let at = all[next..].iter().position(|l| l == line).unwrap();
        next += at + 1;
    }
}

#[test]
fn repeated_lines_are_all_kept() {
    assert_eq!(search_case_sensitive("x", "x\nx\ny\nx"), vec!["x", "x", "x"]);
}

#[test]
fn folded_search_keeps_every_exact_match() {
    let contents = "Hello\nhello\nHELLO\nhelp";
    let exact = search_case_sensitive("ello", contents);
    let folded = search_case_insensitive("ello", contents);
    assert_eq!(exact, vec!["Hello", "hello"]);
    assert_eq!(folded, vec!["Hello", "hello", "HELLO"]);
    for line in &exact {
        assert!(folded.contains(line));
    }
}

#[test]
fn final_sigma_is_folded_with_its_line() {
    // "ΑΣ" lowercases to "ας", which does not hold "σ", the lowercase of "Σ".
    assert_eq!(search_case_sensitive("Σ", "ΑΣ"), vec!["ΑΣ"]);
    assert!(search_case_insensitive("Σ", "ΑΣ").is_empty());
}

#[test]
fn inputs_are_left_unchanged() {
    let query = String::from("Ab");
    let contents = String::from("xab\nAB\nzz");
    let before = (query.clone(), contents.clone());
    let _ = search_case_sensitive(&query, &contents);
    let _ = search_case_insensitive(&query, &contents);
    assert_eq!((query, contents), before);
}

#[test]
fn repeated_calls_agree() {
    let contents = "one\nTwo\nthree\nTWO";
    assert_eq!(
        search_case_sensitive("Two", contents),
        search_case_sensitive("Two", contents)
    );
    assert_eq!(
        search_case_insensitive("two", contents),
        search_case_insensitive("two", contents)
    );
    assert_eq!(search_case_insensitive("two", contents), vec!["Two", "TWO"]);
}

#[test]
fn results_are_slices_of_contents() {
    let contents = String::from("alpha\nbeta");
    let found = search_case_sensitive("et", &contents);
    assert_eq!(found, vec!["beta"]);
    let start = contents.as_ptr() as usize;
    let at = found[0].as_ptr() as usize;
    assert_eq!(at - start, 6);
}

#[test]
fn no_terminator_is_one_line() {
    assert_eq!(search_case_sensitive("b", "abc"), vec!["abc"]);
}

#[test]
fn carriage_return_before_newline_is_dropped() {
    assert_eq!(split_lines("a\r\nb\r\n"), vec!["a", "b"]);
    assert_eq!(split_lines("a\rb\n\r"), vec!["a\rb", "\r"]);
    assert_eq!(search_case_sensitive("a", "xa\r\nya"), vec!["xa", "ya"]);
}

#[test]
fn trailing_newline_opens_no_line() {
    assert_eq!(split_lines("a\n"), vec!["a"]);
    assert_eq!(split_lines("\n"), vec![""]);
    assert_eq!(split_lines("\n\n"), vec!["", ""]);
    assert!(split_lines("").is_empty());
}

#[test]
fn multibyte_lines_are_split_on_characters() {
    assert_eq!(split_lines("héllo\nwörld"), vec!["héllo", "wörld"]);
    assert_eq!(search_case_insensitive("ÖR", "héllo\nwörld"), vec!["wörld"]);
}

#[test]
fn line_contains_compares_characters() {
    assert!(line_contains("productive", "duct"));
    assert!(line_contains("abc", ""));
    assert!(line_contains("", ""));
    assert!(!line_contains("", "a"));
    assert!(!line_contains("ab", "abc"));
    assert!(line_contains("aaab", "aab"));
    assert!(!line_contains("Duct", "duct"));
    assert!(line_contains("xyz", "xyz"));
}
