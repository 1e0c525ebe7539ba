use minigrep::Config;
use minigrep::ParseError;

#[test]
fn init_config() {
    let params = Config::new(String::from("test.txt"), String::from("test"), false);
    assert_eq!(params.filename, "test.txt");
    assert_eq!(params.word, "test");
}

#[test]
fn parse_full_args() {
    let args = vec![
        String::from("--ignore_case"),
        String::from("--file"),
        String::from("test.txt"),
        String::from("--word"),
        String::from("test"),
    ];
    let params = Config::build(&args).unwrap();
    assert_eq!(params.filename, "test.txt");
    assert_eq!(params.word, "test");
    assert_eq!(params.ignore_case, true);
}

#[test]
fn parse_short_args() {
    let args = vec![
        String::from("-f"),
        String::from("test.txt"),
        String::from("-w"),
        String::from("test"),
        String::from("-ic"),
    ];
    let params = Config::build(&args).unwrap();
    assert_eq!(params.filename, "test.txt");
    assert_eq!(params.word, "test");
    assert_eq!(params.ignore_case, true);
}

#[test]
fn parse_missing() {
    let args = vec![
        String::from("test.txt"),
        String::from("--word"),
        String::from("test"),
        String::from("--file"),
    ];
    let params = Config::build(&args);
    assert!(params.is_err());
}

#[test]
fn parse_not_enough() {
    let args = vec![String::from("--file"), String::from("test.txt")];
    let params = Config::build(&args);
    assert!(params.is_err());
}

#[test]
fn parse_short_args_getters() {
    let args = vec![
        String::from("-f"),
        String::from("test.txt"),
        String::from("-w"),
        String::from("test"),
        String::from("-ic"),
    ];
    let params = Config::build(&args).unwrap();
    assert_eq!(params.filename(), "test.txt");
    assert_eq!(params.word(), "test");
    assert!(params.ignore_case());
}

#[test]
fn parse_long_flags_either_order() {
    let args1 = vec![
        String::from("--file"),
        String::from("f.txt"),
        String::from("--word"),
        String::from("term"),
    ];
    let c1 = Config::build(&args1).unwrap();
    assert_eq!(c1.filename, "f.txt");
    assert_eq!(c1.word, "term");
    assert_eq!(c1.ignore_case, false);

    let args2 = vec![
        String::from("--word"),
        String::from("term"),
        String::from("--file"),
        String::from("f.txt"),
    ];
    let c2 = Config::build(&args2).unwrap();
    assert_eq!(c2.filename, "f.txt");
    assert_eq!(c2.word, "term");
    assert_eq!(c2.ignore_case, false);
}

#[test]
fn parse_not_enough_variant() {
    let args = vec![
        String::from("--file"),
        String::from("a.txt"),
        String::from("--word"),
    ];
    assert!(matches!(
        Config::build(&args),
        Err(ParseError::NotEnoughArguments)
    ));
    let none: Vec<String> = Vec::new();
    assert!(matches!(
        Config::build(&none),
        Err(ParseError::NotEnoughArguments)
    ));
}

#[test]
fn parse_missing_value_variant() {
    let args = vec![
        String::from("a"),
        String::from("b"),
        String::from("c"),
        String::from("--word"),
    ];
    assert!(matches!(Config::build(&args), Err(ParseError::MissingValue)));
    let args2 = vec![
        String::from("x"),
        String::from("y"),
        String::from("z"),
        String::from("-f"),
    ];
    assert!(matches!(Config::build(&args2), Err(ParseError::MissingValue)));
}

#[test]
fn parse_missing_required_variant() {
    let args = vec![
        String::from("-f"),
        String::from("a.txt"),
        String::from("stray"),
        String::from("-ic"),
    ];
    assert!(matches!(
        Config::build(&args),
        Err(ParseError::MissingRequiredArgument)
    ));
    let args2 = vec![
        String::from("a"),
        String::from("b"),
        String::from("c"),
        String::from("d"),
    ];
    assert!(matches!(
        Config::build(&args2),
        Err(ParseError::MissingRequiredArgument)
    ));
}

#[test]
fn parse_last_occurrence_wins() {
    let args = vec![
        String::from("-f"),
        String::from("first.txt"),
        String::from("-f"),
        String::from("second.txt"),
        String::from("-w"),
        String::from("term"),
    ];
    let c = Config::build(&args).unwrap();
    assert_eq!(c.filename, "second.txt");
    assert_eq!(c.word, "term");
}

#[test]
fn parse_ignores_unrecognized_tokens() {
    let args = vec![
        String::from("junk"),
        String::from("-f"),
        String::from("a.txt"),
        String::from("-w"),
        String::from("b"),
        String::from("more-junk"),
    ];
    let c = Config::build(&args).unwrap();
    assert_eq!(c.filename, "a.txt");
    assert_eq!(c.word, "b");
    assert_eq!(c.ignore_case, false);
}

#[test]
fn parse_flag_like_value_is_consumed() {
    let args = vec![
        String::from("-f"),
        String::from("x.txt"),
        String::from("-w"),
        String::from("-f"),
    ];
    let c = Config::build(&args).unwrap();
    assert_eq!(c.filename, "x.txt");
    assert_eq!(c.word, "-f");
}
