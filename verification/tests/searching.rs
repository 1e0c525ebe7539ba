use minigrep::search;
use minigrep::search_insensitive;
use minigrep::search_sensitive;
use minigrep::Config;

#[test]
fn search_success() {
    let contents = "\
            Cat eat milk.
            Dogs eat meat.
            Cat playes with balls.
        ";
    assert_eq!(
        vec!["Cat eat milk.", "Cat playes with balls."],
        search_insensitive("cat", contents)
    );
    assert_eq!(
        vec!["Cat eat milk.", "Cat playes with balls."],
        search_sensitive("Cat", contents)
    );
}

#[test]
fn search_example_content() {
    let contents = "Cat eat milk.\nDogs eat meat.\nCat playes with balls.\n";
    assert_eq!(
        vec!["Cat eat milk.", "Cat playes with balls."],
        search_insensitive("cat", contents)
    );
    assert_eq!(
        vec!["Cat eat milk.", "Cat playes with balls."],
        search_sensitive("Cat", contents)
    );
    assert!(search_sensitive("cat", contents).is_empty());
}

#[test]
fn search_empty_content() {
    assert!(search_sensitive("a", "").is_empty());
    assert!(search_insensitive("a", "").is_empty());
}

#[test]
fn search_empty_term_matches_every_line() {
    assert_eq!(vec!["x", "y"], search_sensitive("", "x\ny\n"));
    assert_eq!(vec!["x", "y"], search_insensitive("", "x\ny\n"));
}

#[test]
fn search_handles_crlf_line_endings() {
    let contents = "alpha\r\nbeta\r\ngamma";
    assert_eq!(vec!["alpha"], search_sensitive("alpha", contents));
    assert_eq!(vec!["beta"], search_sensitive("beta", contents));
    assert_eq!(vec!["gamma"], search_sensitive("gamma", contents));
}

#[test]
fn search_trims_matching_lines() {
    let contents = "  hit here  \n\tanother hit\t\nmiss\n";
    assert_eq!(
        vec!["hit here", "another hit"],
        search_sensitive("hit", contents)
    );
}

#[test]
fn search_keeps_duplicates_in_order() {
    let contents = "one match\nno luck\none match\n";
    assert_eq!(
        vec!["one match", "one match"],
        search_sensitive("match", contents)
    );
}

#[test]
fn search_insensitive_lowercases_both_sides() {
    assert_eq!(vec!["cat"], search_insensitive("CAT", "cat\n"));
    assert_eq!(vec!["CAT"], search_insensitive("cat", "CAT\n"));
    assert!(search_sensitive("CAT", "cat\n").is_empty());
}

#[test]
fn search_sensitive_results_within_insensitive() {
    let contents = "Cat eat milk.\nDogs eat meat.\nCat playes with balls.\ncat nap\n";
    let sens = search_sensitive("Cat", contents);
    let insens = search_insensitive("Cat", contents);
    for line in &sens {
        assert!(insens.contains(line));
    }
}

#[test]
fn search_same_config_twice_identical() {
    let config = Config::new(String::from("unused.txt"), String::from("eat"), true);
    let contents = "Cat eat milk.\nDogs eat meat.\nCat playes with balls.\n";
    let first = search(&config, contents);
    let second = search(&config, contents);
    assert_eq!(first, second);
    assert_eq!(vec!["Cat eat milk.", "Dogs eat meat."], first);
}

#[test]
fn search_selects_mode_from_config() {
    let contents = "Cat eat milk.\n";
    let sensitive = Config::new(String::from("u.txt"), String::from("cat"), false);
    let insensitive = Config::new(String::from("u.txt"), String::from("cat"), true);
    assert!(search(&sensitive, contents).is_empty());
    assert_eq!(vec!["Cat eat milk."], search(&insensitive, contents));
}

#[test]
fn search_trims_unicode_whitespace() {
    let contents = "\u{00A0}wide gap\u{3000}\n";
    assert_eq!(vec!["wide gap"], search_sensitive("wide", contents));
}
