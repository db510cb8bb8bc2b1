use minigrep::{search, search_case_insensitive, Config};

#[test]
fn one_result() {
    let query = "duct";
    let contents = "Rust:\nsafe, fast, productive.\nPick three.";
    assert_eq!(vec!["safe, fast, productive."], search(query, contents));
}

#[test]
fn case_insensitive() {
    let query = "rUsT";
    let contents = "Rust:\nsafe, fast, productive.\nPick three.\nTrust me.";
    assert_eq!(
        vec!["Rust:", "Trust me."],
        search_case_insensitive(query, contents)
    );
}

#[test]
fn empty_query_returns_every_line() {
    let contents = "Rust:\nsafe, fast, productive.\nPick three.";
    let all = vec!["Rust:", "safe, fast, productive.", "Pick three."];
    assert_eq!(all, search("", contents));
    assert_eq!(all, search_case_insensitive("", contents));
}

#[test]
fn no_match_returns_nothing() {
    let contents = "Rust:\nsafe, fast, productive.";
    assert_eq!(Vec::<&str>::new(), search("python", contents));
    assert_eq!(Vec::<&str>::new(), search_case_insensitive("python", contents));
}

#[test]
fn search_is_case_sensitive() {
    let contents = "Rust:\nTrust me.";
    assert_eq!(
        vec!["rust is here", "Trust me."],
        search("rust", "rust is here\nTrust me.\nRust")
    );
    assert_eq!(Vec::<&str>::new(), search("rUsT", contents));
}

#[test]
fn case_insensitive_lowers_the_text_too() {
    let contents = "TRUST ME\nnothing here";
    assert_eq!(vec!["TRUST ME"], search_case_insensitive("trust", contents));
}

#[test]
fn matching_lines_keep_their_order() {
    let contents = "one a\ntwo\nthree a\nfour\nfive a";
    assert_eq!(vec!["one a", "three a", "five a"], search("a", contents));
}

#[test]
fn crlf_line_breaks_lose_their_carriage_return() {
    let contents = "alpha\r\nbeta\r\ngamma";
    assert_eq!(vec!["alpha", "beta", "gamma"], search("", contents));
    assert_eq!(vec!["beta"], search("beta", contents));
}

#[test]
fn trailing_newline_adds_no_empty_line() {
    assert_eq!(vec!["alpha"], search("", "alpha\n"));
}

#[test]
fn final_line_needs_no_newline() {
    assert_eq!(vec!["beta"], search("bet", "alpha\nbeta"));
}

#[test]
fn lone_carriage_return_splits_no_line() {
    assert_eq!(vec!["alpha\rbeta"], search("", "alpha\rbeta"));
}

#[test]
fn run_selects_the_exact_search() {
    let config = Config {
        query: String::from("rUsT"),
        filename: String::from("unused.txt"),
        case_sensitive: true,
    };
    let contents = "Rust:\nTrust me.";
    assert_eq!(Vec::<&str>::new(), minigrep::run(&config, contents));
}

#[test]
fn run_selects_the_case_insensitive_search() {
    let config = Config {
        query: String::from("rUsT"),
        filename: String::from("unused.txt"),
        case_sensitive: false,
    };
    let contents = "Rust:\nTrust me.";
    assert_eq!(vec!["Rust:", "Trust me."], minigrep::run(&config, contents));
}
