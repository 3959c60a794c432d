use textutils::catr::{get_args, number_prefix_text, open_failure_text, run, strip_terminator, Config};
use textutils::source::{Source, SourceError};

fn config(number: bool, number_nonblank: bool) -> Config {
    get_args(vec!["a.txt".to_string()], number, number_nonblank)
}

#[test]
fn cat_args_are_kept() {
    let config = get_args(vec!["a".to_string(), "b".to_string()], true, false);
    assert_eq!(config.files, vec!["a".to_string(), "b".to_string()]);
    assert!(config.number_lines);
    assert!(!config.number_nonblank_lines);
    let config = get_args(Vec::new(), false, true);
    assert_eq!(config.files, vec!["-".to_string()]);
    assert!(!config.number_lines);
    assert!(config.number_nonblank_lines);
}

#[test]
fn plain_lines_are_shown_as_they_are() {
    let plain = config(false, false);
    assert_eq!(plain.number_line(1, "hello"), ("hello".to_string(), 2));
    assert_eq!(plain.number_line(2, ""), ("".to_string(), 3));
}

#[test]
fn every_line_is_numbered() {
    let numbered = config(true, false);
    assert_eq!(numbered.number_line(1, "hello"), ("     1\thello".to_string(), 2));
    assert_eq!(numbered.number_line(2, ""), ("     2\t".to_string(), 3));
    assert_eq!(numbered.number_line(12, "  x"), ("    12\t  x".to_string(), 13));
}

#[test]
fn empty_lines_are_passed_over() {
    let nonblank = config(false, true);
    assert_eq!(nonblank.number_line(1, "hello"), ("     1\thello".to_string(), 2));
    assert_eq!(nonblank.number_line(2, ""), ("".to_string(), 2));
    assert_eq!(nonblank.number_line(2, " "), ("     2\t ".to_string(), 3));
    let both = config(true, true);
    assert_eq!(both.number_line(5, ""), ("".to_string(), 5));
    assert_eq!(both.number_line(5, "x"), ("     5\tx".to_string(), 6));
}

#[test]
fn numbers_are_filled_up_to_six_characters() {
    assert_eq!(number_prefix_text(0), "     0\t");
    assert_eq!(number_prefix_text(99999), " 99999\t");
    assert_eq!(number_prefix_text(999999), "999999\t");
    assert_eq!(number_prefix_text(1234567), "1234567\t");
    for n in [1usize, 10, 987, 100000, 123456789] {
        assert_eq!(number_prefix_text(n), format!("{0: >6}\t", n));
    }
}

fn lines(parts: &[&str]) -> Vec<String> {
    parts.iter().map(|part| part.to_string()).collect()
}

#[test]
fn numbers_run_through_an_input() {
    let text = lines(&["a", "", "b", "", "", "c"]);
    assert_eq!(config(false, false).number_lines(&text), text);
    assert_eq!(
        config(true, false).number_lines(&text),
        lines(&["     1\ta", "     2\t", "     3\tb", "     4\t", "     5\t", "     6\tc"])
    );
    assert_eq!(
        config(false, true).number_lines(&text),
        lines(&["     1\ta", "", "     2\tb", "", "", "     3\tc"])
    );
    assert_eq!(config(true, false).number_lines(&Vec::new()), Vec::<String>::new());
}

#[test]
fn an_input_that_cannot_be_opened_is_reported() {
    let failure = SourceError::Open {
        name: "missing.txt".to_string(),
        cause: "No such file or directory (os error 2)".to_string(),
    };
    assert_eq!(
        open_failure_text(&failure),
        "Failed to open! missing.txt: No such file or directory (os error 2)"
    );
}

#[test]
fn a_line_is_shown_under_any_number() {
    assert_eq!(config(true, false).show_line(usize::MAX, "x"), format!("{}\tx", usize::MAX));
    assert_eq!(config(false, true).show_line(3, ""), "");
    assert!(config(false, true).is_passed_over(""));
    assert!(!config(false, true).is_passed_over(" "));
    assert!(!config(true, false).is_passed_over(""));
}

#[test]
fn a_line_loses_what_ends_it() {
    assert_eq!(strip_terminator("abc\n"), "abc");
    assert_eq!(strip_terminator("abc\r\n"), "abc");
    assert_eq!(strip_terminator("abc"), "abc");
    assert_eq!(strip_terminator("abc\r"), "abc\r");
    assert_eq!(strip_terminator("\n"), "");
    assert_eq!(strip_terminator("\r\n"), "");
    assert_eq!(strip_terminator(""), "");
    assert_eq!(strip_terminator("a\r\r\n"), "a\r");
    assert_eq!(strip_terminator("\u{e9}\n"), "\u{e9}");
}

#[test]
fn a_text_is_shown_line_by_line() {
    let text = "a\n\nb\r\nc";
    assert_eq!(config(false, false).show_text(text), "a\n\nb\nc\n");
    assert_eq!(config(true, false).show_text(text), "     1\ta\n     2\t\n     3\tb\n     4\tc\n");
    assert_eq!(config(false, true).show_text(text), "     1\ta\n\n     2\tb\n     3\tc\n");
    assert_eq!(config(true, true).show_text(""), "");
}

#[test]
fn a_text_is_shown_as_std_reads_its_lines() {
    for text in ["", "x", "x\n", "a\r\nb\n\n", "\r", "one\ntwo\r"] {
        let expected: String = text.lines().map(|line| format!("{}\n", line)).collect();
        assert_eq!(config(false, false).show_text(text), expected);
    }
}

#[test]
fn run_numbers_each_input_from_one() {
    let sources = vec![
        Source { name: "a".to_string(), content: Ok(b"x\ny\n".to_vec()) },
        Source { name: "b".to_string(), content: Ok(b"z\n".to_vec()) },
    ];
    let printed = run(&config(true, false), &sources);
    assert_eq!(printed.out, "     1\tx\n     2\ty\n     1\tz\n");
    assert_eq!(printed.err, "");
}

#[test]
fn run_reports_what_cannot_be_shown() {
    let sources = vec![
        Source {
            name: "gone".to_string(),
            content: Err(SourceError::Open { name: "gone".to_string(), cause: "not found".to_string() }),
        },
        Source { name: "a".to_string(), content: Ok(b"x".to_vec()) },
        Source { name: "bin".to_string(), content: Ok(vec![0xc3]) },
        Source {
            name: "dir".to_string(),
            content: Err(SourceError::Read { name: "dir".to_string(), cause: "is a directory".to_string() }),
        },
    ];
    let printed = run(&config(false, false), &sources);
    assert_eq!(printed.out, "x\n");
    assert_eq!(
        printed.err,
        "Failed to open! gone: not found\nbin: stream did not contain valid UTF-8\ndir: is a directory\n"
    );
}
