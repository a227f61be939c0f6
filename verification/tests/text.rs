use session_reader::commands::tools::{
    console_argument, replace_char, resume_command, shell_command, terminal_script, ResumeConfig,
};
use session_reader::text::{decimal_text, is_blank, join_lines, split_lines, split_words, text_before};

fn lines(text: &str) -> Vec<String> {
    split_lines(text)
}

#[test]
fn lines_are_split_as_std_splits_them() {
    for text in [
        "",
        "a",
        "a\n",
        "a\nb",
        "a\r\nb\r\n",
        "\n",
        "\n\n",
        "\r\n",
        "\r",
        "a\r",
        "a\rb\n",
        "a\r\r\nb",
        "\r\r",
        "x\n\r",
        "é\nü\r\n∑",
        "a\n\nb\n",
    ] {
        let expected: Vec<String> = text.lines().map(|l| l.to_string()).collect();
        assert_eq!(lines(text), expected, "lines of {text:?}");
    }
    assert_eq!(lines("a\r\nb\n\nc"), vec!["a", "b", "", "c"]);
}

#[test]
fn words_are_split_as_std_splits_them() {
    for text in ["", " ", "a", " a", "a ", "a b", "  a \t b\n c  ", "\u{3000}x\u{a0}y", "--flag=1 -v"] {
        let expected: Vec<String> = text.split_whitespace().map(|w| w.to_string()).collect();
        assert_eq!(split_words(text), expected, "words of {text:?}");
    }
    assert_eq!(split_words(" --a  b "), vec!["--a", "b"]);
}

#[test]
fn numbers_in_decimal() {
    assert_eq!(decimal_text(0), "0");
    assert_eq!(decimal_text(9), "9");
    assert_eq!(decimal_text(10), "10");
    assert_eq!(decimal_text(1234567890), "1234567890");
    assert_eq!(decimal_text(u64::MAX), "18446744073709551615");
}

#[test]
fn joining_and_cutting() {
    assert_eq!(join_lines(&vec![], ", "), "");
    assert_eq!(join_lines(&vec!["a".to_string()], ", "), "a");
    assert_eq!(join_lines(&vec!["a".to_string(), "".to_string(), "b".to_string()], ", "), "a, , b");
    assert_eq!(text_before("a--b--c", "--"), Some("a"));
    assert_eq!(text_before("--b", "--"), Some(""));
    assert_eq!(text_before("abc", "--"), None);
    assert_eq!(text_before("aaab", "ab"), Some("aa"));
    assert!(is_blank(" \t"));
    assert!(!is_blank(" a"));
}

#[test]
fn command_that_takes_a_session_up() {
    let config = ResumeConfig {
        flags: vec!["--verbose".to_string(), "--model x".to_string()],
        custom_args: "  --a   b\t".to_string(),
    };
    assert_eq!(
        resume_command("tool", "id-1", &config),
        "tool --resume id-1 --verbose --model x --a b"
    );
    assert_eq!(resume_command("tool", "id-1", &ResumeConfig::default()), "tool --resume id-1");
}

#[test]
fn commands_for_a_terminal() {
    assert_eq!(shell_command("/p/x", "run it"), "cd '/p/x' && run it ; exec $SHELL");
    assert_eq!(console_argument("run it"), "/k run it");
    assert_eq!(
        terminal_script("/it's", "say \"a\\b\""),
        "tell application \"Terminal\"\nactivate\ndo script \"cd '/it'\\''s' && say \\\"a\\\\b\\\"\"\nend tell"
    );
    for (text, from, with) in [("a'b''", '\'', "'\\''"), ("", 'x', "y"), ("xxx", 'x', ""), ("aé", 'é', "e")] {
        assert_eq!(replace_char(text, from, with), text.replace(from, with));
    }
}

#[test]
fn white_space_is_the_fixed_set_of_code_points() {
    let listed = |c: char| {
        matches!(
            c,
            '\u{9}'..='\u{d}'
                | ' '
                | '\u{85}'
                | '\u{a0}'
                | '\u{1680}'
                | '\u{2000}'..='\u{200a}'
                | '\u{2028}'
                | '\u{2029}'
                | '\u{202f}'
                | '\u{205f}'
                | '\u{3000}'
        )
    };
    let mut text = String::new();
    for code in 0..=0x10ffffu32 {
        if let Some(c) = char::from_u32(code) {
            text.clear();
            text.push(c);
            assert_eq!(is_blank(&text), listed(c), "code point {code:#x}");
        }
    }
}
