use workbench::minigrep::{run, search, search_case_insensitive, select_by_key, Config};

#[test]
fn one_result() {
    let query = "duct";
    let contents = "\
Rust:
safe, fast, productive.
Pick three.";

    assert_eq!(vec!["safe, fast, productive."], search(query, contents));
}

#[test]
fn case_insensitive() {
    let query = "rUsT";
    let contents = "\
Rust:
safe, fast, productive.
Pick three.
Trust me.";

    assert_eq!(
        vec!["Rust:", "Trust me."],
        search_case_insensitive(query, contents)
    );
}

#[test]
fn search_is_case_sensitive() {
    let content = "Rust:\nsafe, fast, productive.\nPick three.\nrust is great";
    assert_eq!(search("Rust", content), vec!["Rust:"]);
    assert_eq!(search("rust", content), vec!["rust is great"]);
    assert_eq!(search("RUST", content), Vec::<&str>::new());
}

#[test]
fn search_keeps_line_order_and_strips_line_endings() {
    let content = "one fish\r\ntwo fish\nred\r\nblue fish\n";
    assert_eq!(search("fish", content), vec!["one fish", "two fish", "blue fish"]);
    assert_eq!(search("", "a\n\nb"), vec!["a", "", "b"]);
    assert_eq!(search("", "a\n"), vec!["a"]);
    assert_eq!(search("x", ""), Vec::<&str>::new());
    assert_eq!(search("\r", "tail\r"), vec!["tail\r"]);
    assert_eq!(search("\r", "mid\rdle\nend\r\n"), vec!["mid\rdle"]);
}

#[test]
fn search_case_insensitive_returns_lines_as_written() {
    let content = "Rust:\nsafe, fast, productive.\nPick three.\nTrust me.";
    assert_eq!(search_case_insensitive("TRUST", content), vec!["Trust me."]);
    assert_eq!(search_case_insensitive("pick", content), vec!["Pick three."]);
    assert_eq!(search_case_insensitive("ÉCOLE", "une école\nUNE ÉCOLE\nrien"), vec![
        "une école",
        "UNE ÉCOLE"
    ]);
}

#[test]
fn select_by_key_tests_the_key_and_returns_the_line() {
    let lines = vec!["Alpha", "Beta", "Gamma"];
    let keys = vec!["x1", "y2", "x3"];
    assert_eq!(select_by_key(&lines, &keys, "x"), vec!["Alpha", "Gamma"]);
    assert_eq!(select_by_key(&lines, &keys, "2"), vec!["Beta"]);
    assert_eq!(select_by_key(&lines, &keys, "Alpha"), Vec::<&str>::new());
}

fn args(values: &[&str]) -> Vec<String> {
    values.iter().map(|value| value.to_string()).collect()
}

#[test]
fn build_reads_query_and_path() {
    let config = Config::build(args(&["minigrep", "rust", "example.txt"]), false).unwrap();
    assert_eq!(config.query, "rust");
    assert_eq!(config.file_path, "example.txt");
    assert!(!config.ignore_case);
    let config = Config::build(args(&["minigrep", "rust", "example.txt"]), true).unwrap();
    assert!(config.ignore_case);
}

#[test]
fn build_flag_counts_when_it_reads_as_a_boolean() {
    let with = |flag: &str, variable: bool| {
        Config::build(args(&["minigrep", "rust", "example.txt", flag]), variable)
            .unwrap()
            .ignore_case
    };
    assert!(with("true", false));
    assert!(with("false", false));
    assert!(!with("yes", true));
    assert!(!with("TRUE", true));
    assert!(!with("", true));
}

#[test]
fn build_reports_missing_arguments() {
    assert_eq!(
        Config::build(args(&[]), false).err(),
        Some(String::from("Didn't get a query string"))
    );
    assert_eq!(
        Config::build(args(&["minigrep"]), true).err(),
        Some(String::from("Didn't get a query string"))
    );
    assert_eq!(
        Config::build(args(&["minigrep", "rust"]), false).err(),
        Some(String::from("Didn't get a file path string"))
    );
}

#[test]
fn run_chooses_the_search_by_configuration() {
    let contents = "Rust:\nsafe, fast, productive.\nTrust me.";
    let exact = Config::build(args(&["minigrep", "rust", "poem.txt"]), false).unwrap();
    assert_eq!(run(&exact, contents), vec!["Trust me."]);
    let loose = Config::build(args(&["minigrep", "rust", "poem.txt"]), true).unwrap();
    assert_eq!(run(&loose, contents), vec!["Rust:", "Trust me."]);
}
