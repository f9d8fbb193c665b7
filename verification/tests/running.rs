use minigrep::config::parse_style;
use minigrep::{read_file, run, Config, FileUnreadable, MissingArgument, Warning};

fn args(list: &[&str]) -> Vec<String> {
    list.iter().map(|arg| arg.to_string()).collect()
}

fn config(query: &str, style: u8, case_sensitive: bool) -> Config {
    Config {
        query: query.to_string(),
        filename: "poem.txt".to_string(),
        style,
        case_sensitive,
    }
}

const POEM: &str = "Rust:\nsafe, fast, productive.\nPick three.\n‘Ductape’ is a typo";

#[test]
fn config_without_a_filename_fails() {
    assert_eq!(Config::new(&args(&["prog", "hello"]), false), Err(MissingArgument::Filename));
    assert_eq!(Config::new(&args(&["prog", "hello"]), true), Err(MissingArgument::Filename));
}

#[test]
fn config_without_a_query_fails() {
    assert_eq!(Config::new(&args(&["prog"]), false), Err(MissingArgument::Query));
    assert_eq!(Config::new(&args(&[]), false), Err(MissingArgument::Query));
}

#[test]
fn config_with_an_unparseable_style_warns() {
    let built = Config::new(&args(&["prog", "q", "f", "notanumber"]), false);
    let (config, warnings) = built.unwrap();
    assert_eq!(config.style, 0);
    assert_eq!(config.query, "q");
    assert_eq!(config.filename, "f");
    assert!(config.case_sensitive);
    assert_eq!(warnings, vec![Warning::UnparseableStyle]);
}

#[test]
fn config_from_two_arguments() {
    let (config, warnings) = Config::new(&args(&["prog", "you", "poem.txt"]), false).unwrap();
    assert_eq!(
        config,
        Config {
            query: "you".to_string(),
            filename: "poem.txt".to_string(),
            style: 0,
            case_sensitive: true,
        }
    );
    assert!(warnings.is_empty());
}

#[test]
fn config_with_a_style() {
    let (config, warnings) = Config::new(&args(&["prog", "you", "poem.txt", "1"]), false).unwrap();
    assert_eq!(config.style, 1);
    assert!(warnings.is_empty());
    let (config, warnings) = Config::new(&args(&["prog", "you", "poem.txt", "255"]), false).unwrap();
    assert_eq!(config.style, 255);
    assert!(warnings.is_empty());
}

#[test]
fn config_with_extra_arguments_warns() {
    let built = Config::new(&args(&["prog", "q", "f", "3", "more", "and more"]), false);
    let (config, warnings) = built.unwrap();
    assert_eq!(config.style, 3);
    assert_eq!(warnings, vec![Warning::ExtraArguments]);
}

#[test]
fn config_can_give_both_warnings() {
    let built = Config::new(&args(&["prog", "q", "f", "256", "more"]), false);
    let (config, warnings) = built.unwrap();
    assert_eq!(config.style, 0);
    assert_eq!(warnings, vec![Warning::UnparseableStyle, Warning::ExtraArguments]);
}

#[test]
fn config_follows_the_toggle() {
    let (config, _) = Config::new(&args(&["prog", "q", "f"]), true).unwrap();
    assert!(!config.case_sensitive);
    let (config, _) = Config::new(&args(&["prog", "q", "f"]), false).unwrap();
    assert!(config.case_sensitive);
}

#[test]
fn config_takes_an_empty_query() {
    let (config, warnings) = Config::new(&args(&["prog", "", ""]), false).unwrap();
    assert_eq!(config.query, "");
    assert_eq!(config.filename, "");
    assert!(warnings.is_empty());
}

#[test]
fn parse_style_agrees_with_the_standard_library() {
    let samples = [
        "", "0", "7", "9", "10", "99", "100", "255", "256", "260", "300", "999", "1000", "65536",
        "+", "+0", "+5", "+255", "+256", "++1", "-", "-0", "-1", "1-", "1+", " 1", "1 ", "1_0",
        "0x10", "a", "1a", "a1", "007", "0000000000000000000000255", "0000000000000000000000256",
        "99999999999999999999999999", "٣", "1.0", "notanumber", "+a", "2 5",
    ];
    for sample in samples {
        assert_eq!(parse_style(sample), sample.parse::<u8>().ok(), "sample {:?}", sample);
    }
    for n in 0..=300u32 {
        let written = n.to_string();
        assert_eq!(parse_style(&written), written.parse::<u8>().ok());
    }
}

#[test]
fn parse_style_reads_decimal() {
    assert_eq!(parse_style("0"), Some(0));
    assert_eq!(parse_style("42"), Some(42));
    assert_eq!(parse_style("+42"), Some(42));
    assert_eq!(parse_style("0042"), Some(42));
    assert_eq!(parse_style("255"), Some(255));
    assert_eq!(parse_style("256"), None);
    assert_eq!(parse_style(""), None);
    assert_eq!(parse_style("+"), None);
    assert_eq!(parse_style("-1"), None);
    assert_eq!(parse_style("4 2"), None);
}

#[test]
fn messages_are_coloured() {
    assert_eq!(
        MissingArgument::Query.message(),
        "\x1b[38;2;255;0;0;1mMissing the first argument (query)\x1b[0m"
    );
    assert_eq!(
        MissingArgument::Filename.message(),
        "\x1b[38;2;255;0;0;1mMissing the second argument (filename)\x1b[0m"
    );
    assert_eq!(
        Warning::UnparseableStyle.message(),
        "\x1b[38;2;255;255;0;1mWARNING: Could not parse the third argument (style) as a u8\x1b[0m"
    );
    assert_eq!(
        Warning::ExtraArguments.message(),
        "\x1b[38;2;255;255;0;1mWARNING: Too many arguments; the 4th one and up will be discarded\x1b[0m"
    );
}

#[test]
fn read_file_cuts_what_was_read() {
    assert_eq!(read_file("empty.txt", Ok(String::new())), Ok(vec![String::new()]));
    assert_eq!(
        read_file("poem.txt", Ok("a\nb\r\n".to_string())),
        Ok(vec!["a".to_string(), "b\r".to_string(), String::new()])
    );
    assert_eq!(read_file("poem.txt", Ok(POEM.to_string())).unwrap().len(), 4);
}

#[test]
fn read_file_reports_an_unreadable_file() {
    let failure = read_file("nowhere.txt", Err("No such file or directory".to_string()));
    assert_eq!(
        failure,
        Err(FileUnreadable {
            filename: "nowhere.txt".to_string(),
            reason: "No such file or directory".to_string(),
        })
    );
    let failure = read_file("", Err(String::new())).unwrap_err();
    assert_eq!(failure.filename, "");
    assert_eq!(failure.reason, "");
}

#[test]
fn read_file_keeps_each_reason() {
    let denied = read_file("secret.txt", Err("Permission denied".to_string())).unwrap_err();
    let binary = read_file("secret.txt", Err("stream did not contain valid UTF-8".to_string()))
        .unwrap_err();
    assert_eq!(denied.reason, "Permission denied");
    assert_eq!(binary.reason, "stream did not contain valid UTF-8");
    assert_ne!(denied, binary);
}

#[test]
fn unreadable_message_names_the_file() {
    let failure = FileUnreadable {
        filename: "nowhere.txt".to_string(),
        reason: "No such file or directory".to_string(),
    };
    assert_eq!(
        failure.message(),
        "\x1b[38;2;255;0;0;1mCould not open the file nowhere.txt\x1b[0m"
    );
    let failure = FileUnreadable { filename: String::new(), reason: String::new() };
    assert_eq!(failure.message(), "\x1b[38;2;255;0;0;1mCould not open the file \x1b[0m");
}

#[test]
fn run_prints_matching_lines_as_they_are() {
    let printed = run(&config("duct", 0, true), Ok(POEM.to_string()));
    assert_eq!(printed, Ok(vec!["safe, fast, productive.".to_string()]));
    let printed = run(&config("duct", 0, false), Ok(POEM.to_string()));
    assert_eq!(
        printed,
        Ok(vec!["safe, fast, productive.".to_string(), "‘Ductape’ is a typo".to_string()])
    );
}

#[test]
fn run_highlights_with_a_style() {
    let printed = run(&config("duct", 1, true), Ok(POEM.to_string()));
    assert_eq!(printed, Ok(vec!["safe, fast, pro\x1b[1;1mduct\x1b[0mive.".to_string()]));
}

#[test]
fn run_highlights_only_what_is_written_alike() {
    let printed = run(&config("duct", 1, false), Ok(POEM.to_string()));
    assert_eq!(
        printed,
        Ok(vec![
            "safe, fast, pro\x1b[1;1mduct\x1b[0mive.".to_string(),
            "‘Ductape’ is a typo".to_string(),
        ])
    );
}

#[test]
fn run_with_a_code_above_nine_prints_lines_as_they_are() {
    let printed = run(&config("duct", 10, true), Ok(POEM.to_string()));
    assert_eq!(printed, Ok(vec!["safe, fast, productive.".to_string()]));
}

#[test]
fn run_keeps_the_order_of_the_lines() {
    let printed = run(&config("a", 0, true), Ok("b\na1\nc\na2\na3\n".to_string()));
    assert_eq!(printed, Ok(vec!["a1".to_string(), "a2".to_string(), "a3".to_string()]));
}

#[test]
fn run_without_a_hit_prints_nothing() {
    let printed = run(&config("python", 3, true), Ok(POEM.to_string()));
    assert_eq!(printed, Ok(Vec::new()));
}

#[test]
fn run_on_an_empty_file() {
    assert_eq!(run(&config("x", 0, true), Ok(String::new())), Ok(Vec::new()));
    assert_eq!(run(&config("", 0, true), Ok(String::new())), Ok(vec![String::new()]));
}

#[test]
fn run_reports_an_unreadable_file() {
    let printed = run(&config("duct", 1, true), Err("Permission denied".to_string()));
    assert_eq!(
        printed,
        Err(FileUnreadable {
            filename: "poem.txt".to_string(),
            reason: "Permission denied".to_string(),
        })
    );
    assert_eq!(
        printed.unwrap_err().message(),
        "\x1b[38;2;255;0;0;1mCould not open the file poem.txt\x1b[0m"
    );
}
