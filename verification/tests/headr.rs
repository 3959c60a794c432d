use textutils::headr::{get_args, head, header, parse_positive_int, run};
use textutils::source::{Source, SourceError};

#[test]
fn test_parse_positive_int() {
    let res_positive = parse_positive_int("3");
    assert!(res_positive.is_ok());
    assert_eq!(res_positive.unwrap(), 3);

    let res_string = parse_positive_int("foo");
    assert!(res_string.is_err());
    assert_eq!(res_string.unwrap_err().to_string(), "foo".to_string());

    let res_zero = parse_positive_int("0");
    assert!(res_zero.is_err());
    assert_eq!(res_zero.unwrap_err().to_string(), "0".to_string());
}

#[test]
fn parse_positive_int_takes_a_plus_sign_and_leading_zeros() {
    assert_eq!(parse_positive_int("+3"), Ok(3));
    assert_eq!(parse_positive_int("007"), Ok(7));
    assert_eq!(parse_positive_int("+010"), Ok(10));
}

#[test]
fn parse_positive_int_refuses_what_is_no_number() {
    for text in ["", "+", "-1", "-0", "++1", "1+", "3 ", " 3", "1_000", "0x10", "1.5", "\u{661}", "+0", "000"] {
        assert_eq!(parse_positive_int(text), Err(text.to_string()));
    }
}

#[test]
fn parse_positive_int_stops_at_the_largest_usize() {
    let largest = usize::MAX.to_string();
    assert_eq!(parse_positive_int(&largest), Ok(usize::MAX));
    let mut beyond = largest.clone();
    beyond.push('0');
    assert_eq!(parse_positive_int(&beyond), Err(beyond.clone()));
    let next = (usize::MAX as u128 + 1).to_string();
    assert_eq!(parse_positive_int(&next), Err(next.clone()));
}

#[test]
fn parse_positive_int_agrees_with_std() {
    for text in ["1", "42", "+42", "0042", "x", "4x2", "", "+", "99999999999999999999999", "18446744073709551615"] {
        let expected: Option<usize> = text.parse::<usize>().ok().filter(|n| *n > 0);
        assert_eq!(parse_positive_int(text).ok(), expected);
    }
}

#[test]
fn head_takes_the_first_lines() {
    let text = "one\ntwo\nthree\nfour\n";
    assert_eq!(head(text, 0), "");
    assert_eq!(head(text, 1), "one\n");
    assert_eq!(head(text, 2), "one\ntwo\n");
    assert_eq!(head(text, 4), text);
    assert_eq!(head(text, 10), text);
}

#[test]
fn head_keeps_an_unterminated_last_line() {
    assert_eq!(head("one\ntwo", 1), "one\n");
    assert_eq!(head("one\ntwo", 2), "one\ntwo");
    assert_eq!(head("one\ntwo", 3), "one\ntwo");
    assert_eq!(head("one", 1), "one");
}

#[test]
fn head_of_empty_text_and_blank_lines() {
    assert_eq!(head("", 3), "");
    assert_eq!(head("\n\n\n", 2), "\n\n");
}

#[test]
fn head_cuts_multibyte_text_between_characters() {
    assert_eq!(head("\u{e9}t\u{e9}\n\u{65e5}\u{672c}\nz", 1), "\u{e9}t\u{e9}\n");
    assert_eq!(head("\u{e9}t\u{e9}\n\u{65e5}\u{672c}\nz", 2), "\u{e9}t\u{e9}\n\u{65e5}\u{672c}\n");
}

#[test]
fn header_of_a_single_input_is_empty() {
    assert_eq!(header("a.txt", true, false), "");
}

#[test]
fn header_names_each_of_several_inputs() {
    assert_eq!(header("a.txt", true, true), "==> a.txt <==\n");
    assert_eq!(header("b.txt", false, true), "\n==> b.txt <==\n");
    assert_eq!(header("b.txt", false, false), "\n");
}

#[test]
fn head_args_are_kept() {
    let config = get_args(vec!["a".to_string(), "b".to_string()], 10, None);
    assert_eq!(config.files, vec!["a".to_string(), "b".to_string()]);
    assert_eq!(config.lines, 10);
    assert_eq!(config.bytes, None);
    let config = get_args(Vec::new(), 3, Some(7));
    assert_eq!(config.files, vec!["-".to_string()]);
    assert_eq!(config.lines, 3);
    assert_eq!(config.bytes, Some(7));
}

fn read(name: &str, text: &str) -> Source {
    Source { name: name.to_string(), content: Ok(text.as_bytes().to_vec()) }
}

fn missing(name: &str) -> Source {
    Source {
        name: name.to_string(),
        content: Err(SourceError::Open { name: name.to_string(), cause: "not found".to_string() }),
    }
}

#[test]
fn run_shows_one_input_without_a_header() {
    let config = get_args(vec!["a".to_string()], 2, None);
    let printed = run(&config, &vec![read("a", "1\n2\n3\n")]);
    assert_eq!(printed.out, "1\n2\n");
    assert_eq!(printed.err, "");
}

#[test]
fn run_names_each_of_several_inputs() {
    let config = get_args(vec!["a".to_string(), "b".to_string()], 1, None);
    let printed = run(&config, &vec![read("a", "1\n2\n"), read("b", "x\ny\n")]);
    assert_eq!(printed.out, "==> a <==\n1\n\n==> b <==\nx\n");
    assert_eq!(printed.err, "");
}

#[test]
fn run_passes_over_an_input_that_failed() {
    let config = get_args(vec!["gone".to_string(), "a".to_string(), "b".to_string()], 10, None);
    let sources = vec![missing("gone"), read("a", "1\n"), Source { name: "c".to_string(), content: Ok(vec![0xff]) }, read("b", "x")];
    let printed = run(&config, &sources);
    assert_eq!(printed.out, "==> a <==\n1\n\n==> b <==\nx");
    assert_eq!(printed.err, "gone: not found\nc: stream did not contain valid UTF-8\n");
}
