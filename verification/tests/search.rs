use minigrep::{run, search, search_case_insensitive, Config};

const POEM: &str = "\
Rust:
safe, fast, productive.
Pick three.
Duct tape.";

const PLEA: &str = "\
Rust:
safe, fast, productive.
Pick three.
Trust me.";

fn settings(query: &str, case_insensitive: bool) -> Config {
    Config {
        query: query.to_string(),
        file_path: "poem.txt".to_string(),
        case_insensitive,
    }
}

#[test]
fn case_sensitive() {
    let query = "duct";
    let contents = "\
Rust:
safe, fast, productive.
Pick three.
Duct tape.";

    assert_eq!(vec!["safe, fast, productive."], search(query, contents));
}

#[test]
fn case_insensitive() {
    let query = "rUsT";
    let contents = "\
Rust:
safe, fast, productive.
Pick three.
Trust me.";

    assert_eq!(
        vec!["Rust:", "Trust me."],
        search_case_insensitive(query, contents)
    );
}

#[test]
fn capital_query_finds_only_the_capital_line() {
    assert_eq!(vec!["Duct tape."], search("Duct", POEM));
}

#[test]
fn run_follows_the_mode_switch() {
    assert_eq!(vec!["safe, fast, productive."], run(&settings("duct", false), POEM));
    assert_eq!(
        vec!["safe, fast, productive.", "Duct tape."],
        run(&settings("duct", true), POEM)
    );
    assert_eq!(vec!["Rust:", "Trust me."], run(&settings("rUsT", true), PLEA));
    assert_eq!(Vec::<&str>::new(), run(&settings("rUsT", false), PLEA));
}

#[test]
fn empty_query_finds_every_line() {
    let every = vec!["Rust:", "safe, fast, productive.", "Pick three.", "Duct tape."];
    assert_eq!(every, search("", POEM));
    assert_eq!(every, search_case_insensitive("", POEM));
    assert_eq!(every, run(&settings("", false), POEM));
    assert_eq!(every, run(&settings("", true), POEM));
}

#[test]
fn empty_query_finds_empty_lines_too() {
    assert_eq!(vec!["", "", "x", ""], search("", "\n\nx\n\n"));
    assert_eq!(vec!["", "", "x", ""], search_case_insensitive("", "\n\nx\n\n"));
}

#[test]
fn empty_text_has_no_hits() {
    assert_eq!(Vec::<&str>::new(), search("", ""));
    assert_eq!(Vec::<&str>::new(), search("rust", ""));
    assert_eq!(Vec::<&str>::new(), search_case_insensitive("", ""));
    assert_eq!(Vec::<&str>::new(), search_case_insensitive("rust", ""));
    assert_eq!(Vec::<&str>::new(), run(&settings("rust", true), ""));
}

#[test]
fn no_hit_is_an_empty_answer() {
    assert_eq!(Vec::<&str>::new(), search("monomorphization", POEM));
    assert_eq!(Vec::<&str>::new(), search_case_insensitive("monomorphization", POEM));
}

#[test]
fn hits_come_in_the_order_of_the_lines() {
    let text = "b1\na\nb2\nb3\na\nb4";
    assert_eq!(vec!["b1", "b2", "b3", "b4"], search("b", text));
    assert_eq!(vec!["a", "a"], search("a", text));
    assert_eq!(vec!["b1", "b2", "b3", "b4"], search_case_insensitive("B", text));
}

#[test]
fn a_line_that_occurs_twice_is_found_twice() {
    assert_eq!(vec!["same", "same"], search("am", "same\nother\nsame\n"));
}

#[test]
fn line_feed_ends_a_line() {
    assert_eq!(vec!["one", "two"], search("", "one\ntwo"));
    assert_eq!(vec!["one", "two"], search("", "one\ntwo\n"));
    assert_eq!(vec!["one", "", "two"], search("", "one\n\ntwo"));
    assert_eq!(vec![""], search("", "\n"));
}

#[test]
fn carriage_return_before_line_feed_is_dropped() {
    assert_eq!(vec!["one", "two"], search("", "one\r\ntwo\r\n"));
    assert_eq!(vec!["", "x"], search("", "\r\nx"));
    assert_eq!(Vec::<&str>::new(), search("\r", "one\r\ntwo\r\n"));
}

#[test]
fn only_one_carriage_return_is_dropped() {
    assert_eq!(vec!["one\r", "two"], search("", "one\r\r\ntwo"));
    assert_eq!(vec!["one\r"], search("\r", "one\r\r\ntwo"));
}

#[test]
fn lone_carriage_return_stays_in_the_line() {
    assert_eq!(vec!["one\rtwo"], search("", "one\rtwo"));
    assert_eq!(vec!["foo", "bar", "", "baz\r"], search("", "foo\nbar\n\r\nbaz\r"));
    assert_eq!(vec!["\r"], search("", "\r"));
}

#[test]
fn query_does_not_reach_across_lines() {
    assert_eq!(Vec::<&str>::new(), search("ab", "a\nb"));
    assert_eq!(Vec::<&str>::new(), search("a\n", "a\nb"));
    assert_eq!(Vec::<&str>::new(), search("\n", "a\nb\n"));
}

#[test]
fn hit_at_the_start_the_middle_and_the_end_of_a_line() {
    let text = "needle first\nin the needle middle\nlast needle\nneedl\needle";
    assert_eq!(
        vec!["needle first", "in the needle middle", "last needle"],
        search("needle", text)
    );
    assert_eq!(vec!["needle"], search("needle", "needle"));
}

#[test]
fn query_longer_than_the_line_is_no_hit() {
    assert_eq!(vec!["abcd"], search("abcd", "abc\nabcd\nab"));
}

#[test]
fn repeated_prefix_does_not_hide_a_hit() {
    assert_eq!(vec!["aaab", "xaabx"], search("aab", "aaab\naaa\nxaabx\nabab"));
}

#[test]
fn characters_of_several_bytes_are_searched_whole() {
    let text = "na\u{ef}ve caf\u{e9}\n\u{65e5}\u{672c}\u{8a9e}\nplain\n\u{1f600} grin";
    assert_eq!(vec!["na\u{ef}ve caf\u{e9}"], search("\u{e9}", text));
    assert_eq!(vec!["\u{65e5}\u{672c}\u{8a9e}"], search("\u{672c}\u{8a9e}", text));
    assert_eq!(vec!["\u{1f600} grin"], search("\u{1f600}", text));
    assert_eq!(Vec::<&str>::new(), search("\u{e8}", text));
    assert_eq!(
        vec!["na\u{ef}ve caf\u{e9}", "\u{65e5}\u{672c}\u{8a9e}", "plain", "\u{1f600} grin"],
        search("", text)
    );
}

#[test]
fn case_insensitive_hits_keep_their_own_letters() {
    let found = search_case_insensitive("TAPE", POEM);
    assert_eq!(vec!["Duct tape."], found);
    assert_ne!(vec!["duct tape."], found);
}

#[test]
fn case_insensitive_lowers_both_sides() {
    assert_eq!(vec!["ABC", "abc", "xAbCx"], search_case_insensitive("aBc", "ABC\nabc\nxAbCx\nab c"));
    assert_eq!(vec!["abc"], search("abc", "ABC\nabc\nxAbCx\nab c"));
}

#[test]
fn case_insensitive_lowers_letters_beyond_ascii() {
    let text = "\u{c9}COLE\n\u{e9}cole\nschool";
    assert_eq!(vec!["\u{c9}COLE", "\u{e9}cole"], search_case_insensitive("\u{c9}Cole", text));
    assert_eq!(vec!["\u{c9}COLE", "\u{e9}cole"], search_case_insensitive("\u{e9}cole", text));
    assert_eq!(vec!["\u{e9}cole"], search("\u{e9}cole", text));
}

#[test]
fn case_insensitive_finds_what_case_sensitive_finds() {
    let text = "Rust:\nsafe, fast, productive.\nTrust me.\nRUST\nrust\ndust";
    for query in ["rust", "Rust", "RUST", "ust", "", "e", "zzz"] {
        let narrow = search(query, text);
        let wide = search_case_insensitive(query, text);
        let kept: Vec<&str> = wide.iter().copied().filter(|line| line.contains(query)).collect();
        assert_eq!(narrow, kept);
        for line in &narrow {
            assert!(wide.contains(line));
        }
    }
}

#[test]
fn final_sigma_lowers_apart_from_lone_sigma() {
    let word = "\u{391}\u{3a3}";
    assert_eq!(vec![word], search("\u{3a3}", word));
    assert_eq!(Vec::<&str>::new(), search_case_insensitive("\u{3a3}", word));
    assert_eq!(vec![word], search_case_insensitive("\u{3c2}", word));
}

#[test]
fn searching_again_gives_the_same_answer() {
    assert_eq!(search("t", POEM), search("t", POEM));
    assert_eq!(search_case_insensitive("T", POEM), search_case_insensitive("T", POEM));
    assert_eq!(run(&settings("T", true), POEM), run(&settings("T", true), POEM));
}

#[test]
fn hits_are_parts_of_the_text() {
    let text = String::from("alpha\nbeta\r\ngamma");
    let whole = text.as_bytes().as_ptr_range();
    for line in search("a", &text) {
        let part = line.as_bytes().as_ptr_range();
        assert!(whole.start <= part.start && part.end <= whole.end);
    }
}

#[test]
fn search_agrees_with_the_standard_lines_and_contains() {
    let texts = [
        "",
        "\n",
        "\r",
        "\r\n",
        "a",
        "a\n",
        "a\r\n",
        "a\r",
        "a\n\rb",
        "a\r\r\nb\n\n",
        "one\ntwo\r\nthree\rfour\n\r\nfive",
        "\u{e9}\n\u{65e5}\u{672c}\r\n\u{1f600}\r",
        "ab\nba\naab\nabab\nb",
    ];
    let queries = ["", "a", "b", "ab", "ba", "\r", "\n", "\u{e9}", "\u{672c}", "three\r", "abab"];
    for text in texts {
        for query in queries {
            let expected: Vec<&str> = text.lines().filter(|line| line.contains(query)).collect();
            assert_eq!(expected, search(query, text));
            let folded = query.to_lowercase();
            let expected: Vec<&str> = text
                .lines()
                .filter(|line| line.to_lowercase().contains(&folded))
                .collect();
            assert_eq!(expected, search_case_insensitive(query, text));
        }
    }
}
