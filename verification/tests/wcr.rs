use textutils::source::{Printed, Source, SourceError};
use textutils::wcr::{
    count, count_str, get_args, is_whitespace, report, run, Config, ConfigError, CountError,
    FileInfo,
};

fn generate_info(text: &str) -> FileInfo {
    let info = count(text.as_bytes());
    assert!(info.is_ok());
    info.unwrap()
}

fn info(num_lines: usize, num_words: usize, num_bytes: usize, num_chars: usize) -> FileInfo {
    FileInfo { num_lines, num_words, num_bytes, num_chars }
}

#[test]
fn test_count() {
    let info = generate_info("I don't want the world. I just want your half.\r\n");
    let expected = FileInfo {
        num_lines: 1,
        num_words: 10,
        num_chars: 48,
        num_bytes: 48,
    };
    assert_eq!(info, expected);
}

#[test]
fn test_count_empty() {
    let info = generate_info("");
    let expected = FileInfo {
        num_lines: 0,
        num_words: 0,
        num_chars: 0,
        num_bytes: 0,
    };
    assert_eq!(info, expected);
}

#[test]
fn test_count_single_line() {
    let info = generate_info("aaa");
    let expected = FileInfo {
        num_lines: 1,
        num_words: 1,
        num_chars: 3,
        num_bytes: 3,
    };
    assert_eq!(info, expected);
}

#[test]
fn test_count_fox() {
    let info = generate_info(
        r"The  quick brown fox	jumps over   the lazy dog.
",
    );
    let expected = FileInfo {
        num_lines: 1,
        num_words: 9,
        num_chars: 48,
        num_bytes: 48,
    };
    assert_eq!(info, expected);
}

#[test]
fn count_unterminated_last_line() {
    assert_eq!(generate_info("one\ntwo"), info(2, 2, 7, 7));
    assert_eq!(generate_info("one\ntwo\n"), info(2, 2, 8, 8));
}

#[test]
fn count_blank_lines() {
    assert_eq!(generate_info("  \t \n"), info(1, 0, 5, 5));
    assert_eq!(generate_info("\n\n\n"), info(3, 0, 3, 3));
    assert_eq!(generate_info(" "), info(1, 0, 1, 1));
}

#[test]
fn count_runs_of_white_space() {
    assert_eq!(generate_info("a   b\t\tc \n d"), info(2, 4, 12, 12));
}

#[test]
fn count_multibyte_text() {
    assert_eq!(generate_info("h\u{e9}llo w\u{f6}rld\n"), info(1, 2, 14, 12));
    assert_eq!(generate_info("\u{65e5}\u{672c}\u{8a9e} \u{1f600}"), info(1, 2, 14, 5));
}

#[test]
fn count_unicode_white_space() {
    assert_eq!(generate_info("a\u{3000}b").num_words, 2);
    assert_eq!(generate_info("a\u{a0}b\u{2003}c").num_words, 3);
    assert_eq!(generate_info("a\u{200b}b").num_words, 1);
    assert_eq!(generate_info("a\u{180e}b").num_words, 1);
}

#[test]
fn count_refuses_invalid_utf8() {
    assert_eq!(count(&[0x61, 0xff, 0x0a]), Err(CountError::InvalidEncoding));
    assert_eq!(count(&[0x61, 0x0a, 0xc3]), Err(CountError::InvalidEncoding));
    assert_eq!(count(&[0xed, 0xa0, 0x80]), Err(CountError::InvalidEncoding));
    assert_eq!(count(&[0xc3, 0xa9]), Ok(info(1, 1, 2, 1)));
}

#[test]
fn count_str_agrees_with_count() {
    for text in ["", "aaa", "a b\nc", "\u{e9}\n\n x"] {
        assert_eq!(Ok(count_str(text)), count(text.as_bytes()));
    }
}

#[test]
fn count_agrees_with_std() {
    for text in ["", "x", "a b  c\n", "\n", "tab\tsep\r\nnext line \u{2028} end", " \u{85}lead", "\u{1680}\u{205f}"] {
        let got = count_str(text);
        assert_eq!(got.num_bytes, text.len());
        assert_eq!(got.num_chars, text.chars().count());
        assert_eq!(got.num_words, text.split_whitespace().count());
        assert_eq!(got.num_lines, text.split_inclusive('\n').count());
    }
}

#[test]
fn count_twice_is_the_same() {
    let text = "to be\nor not to be\n";
    assert_eq!(count_str(text), count_str(text));
    assert_eq!(count(text.as_bytes()), count(text.as_bytes()));
}

#[test]
fn count_of_joined_texts() {
    let pairs = [("ab", "cd"), ("ab\n", "cd"), ("ab ", "cd\n"), ("", "x y"), ("x y", ""), ("a\nb", "\nc")];
    for (a, b) in pairs {
        let whole = count_str(&format!("{}{}", a, b));
        let left = count_str(a);
        let right = count_str(b);
        assert!(whole.num_lines >= left.num_lines && whole.num_lines >= right.num_lines);
        assert!(whole.num_words >= left.num_words && whole.num_words >= right.num_words);
        assert_eq!(whole.num_bytes, left.num_bytes + right.num_bytes);
        assert_eq!(whole.num_chars, left.num_chars + right.num_chars);
    }
    assert_eq!(count_str("abcd"), info(1, 1, 4, 4));
    assert_eq!(count_str("ab\ncd"), info(2, 2, 5, 5));
    let whole = count_str("ab\ncd ef\n");
    let left = count_str("ab\n");
    let right = count_str("cd ef\n");
    assert_eq!(whole.num_lines, left.num_lines + right.num_lines);
    assert_eq!(whole.num_words, left.num_words + right.num_words);
}

#[test]
fn white_space_agrees_with_std() {
    for code in 0u32..=0x10ffff {
        if let Some(c) = char::from_u32(code) {
            assert_eq!(is_whitespace(c), c.is_whitespace(), "U+{:04X}", code);
        }
    }
}

#[test]
fn wc_args_default_to_lines_words_bytes() {
    let config = get_args(vec!["a.txt".to_string()], false, false, false, false).unwrap();
    assert_eq!(config.files, vec!["a.txt".to_string()]);
    assert_eq!((config.lines, config.words, config.bytes, config.chars), (true, true, true, false));
}

#[test]
fn wc_args_keep_what_is_asked_for() {
    let config = get_args(vec!["a".to_string(), "b".to_string()], false, true, false, true).unwrap();
    assert_eq!(config.files, vec!["a".to_string(), "b".to_string()]);
    assert_eq!((config.lines, config.words, config.bytes, config.chars), (false, true, false, true));
    let config = get_args(vec!["a".to_string()], true, false, false, false).unwrap();
    assert_eq!((config.lines, config.words, config.bytes, config.chars), (true, false, false, false));
}

#[test]
fn wc_args_without_files_read_stdin() {
    let config = get_args(Vec::new(), false, false, true, false).unwrap();
    assert_eq!(config.files, vec!["-".to_string()]);
}

#[test]
fn wc_args_refuse_bytes_with_chars() {
    let refused = get_args(vec!["a".to_string()], true, false, true, true);
    assert_eq!(refused.unwrap_err(), ConfigError::BytesWithChars);
}

fn config(chars: bool) -> Config {
    get_args(vec!["f".to_string()], true, true, !chars, chars).unwrap()
}

#[test]
fn report_shows_bytes_or_chars() {
    let counted = info(3, 12, 70, 65);
    assert_eq!(report(&config(false), &counted, "notes.txt"), "3\t12\t70 notes.txt");
    assert_eq!(report(&config(true), &counted, "notes.txt"), "3\t12\t65 notes.txt");
    assert_eq!(report(&config(false), &info(0, 0, 0, 0), "-"), "0\t0\t0 -");
}

#[test]
fn nothing_read_counts_nothing() {
    assert_eq!(FileInfo::new(), info(0, 0, 0, 0));
    assert_eq!(FileInfo::new(), count_str(""));
}

#[test]
fn add_line_adds_one_line() {
    let first = FileInfo::new().add_line("to be\n").unwrap();
    assert_eq!(first, info(1, 2, 6, 6));
    let second = first.add_line("or n\u{f6}t\n").unwrap();
    assert_eq!(second, info(2, 4, 14, 13));
    let last = second.add_line("to be").unwrap();
    assert_eq!(last, info(3, 6, 19, 18));
    assert_eq!(last, count_str("to be\nor n\u{f6}t\nto be"));
}

#[test]
fn add_line_of_nothing_changes_nothing() {
    let counted = info(4, 5, 6, 6);
    assert_eq!(counted.add_line(""), Some(counted));
}

#[test]
fn add_line_stops_where_a_count_would_not_fit() {
    assert_eq!(info(usize::MAX, 0, 0, 0).add_line("x"), None);
    assert_eq!(info(0, usize::MAX, 0, 0).add_line("x"), None);
    assert_eq!(info(0, usize::MAX, 0, 0).add_line(" "), Some(info(1, usize::MAX, 1, 1)));
    assert_eq!(info(0, 0, usize::MAX - 1, 0).add_line("\u{e9}"), None);
    assert_eq!(info(0, 0, 0, usize::MAX).add_line("\n"), None);
    assert_eq!(info(0, 0, usize::MAX - 2, usize::MAX - 1).add_line("\u{e9}"), Some(info(1, 1, usize::MAX, usize::MAX)));
}

fn read(name: &str, bytes: &[u8]) -> Source {
    Source { name: name.to_string(), content: Ok(bytes.to_vec()) }
}

fn missing(name: &str) -> Source {
    Source {
        name: name.to_string(),
        content: Err(SourceError::Open {
            name: name.to_string(),
            cause: "No such file or directory (os error 2)".to_string(),
        }),
    }
}

#[test]
fn run_reports_each_input_on_a_line() {
    let sources = vec![read("a.txt", b"one two\n"), read("-", "d\u{e9}j\u{e0} vu\nx".as_bytes())];
    let printed = run(&config(false), &sources);
    assert_eq!(printed.out, "1\t2\t8 a.txt\n2\t3\t11 -\n");
    assert_eq!(printed.err, "");
    let printed = run(&config(true), &sources);
    assert_eq!(printed.out, "1\t2\t8 a.txt\n2\t3\t9 -\n");
}

#[test]
fn run_reports_failures_and_goes_on() {
    let sources = vec![
        missing("gone.txt"),
        read("a.txt", b"one two\n"),
        read("data.bin", &[0x66, 0xfe]),
        Source {
            name: "dir".to_string(),
            content: Err(SourceError::Read {
                name: "dir".to_string(),
                cause: "Is a directory (os error 21)".to_string(),
            }),
        },
        read("empty", b""),
    ];
    let printed = run(&config(false), &sources);
    assert_eq!(printed.out, "1\t2\t8 a.txt\n0\t0\t0 empty\n");
    assert_eq!(
        printed.err,
        "gone.txt: No such file or directory (os error 2)\n\
         data.bin: stream did not contain valid UTF-8\n\
         dir: Is a directory (os error 21)\n"
    );
}

#[test]
fn run_of_no_input_writes_nothing() {
    assert_eq!(
        run(&config(false), &Vec::new()),
        Printed { out: String::new(), err: String::new() }
    );
}

#[test]
fn errors_say_what_went_wrong() {
    assert_eq!(CountError::InvalidEncoding.message(), "stream did not contain valid UTF-8");
    assert_eq!(
        ConfigError::BytesWithChars.message(),
        "the byte count and the character count cannot be shown together"
    );
}
