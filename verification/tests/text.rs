use cpu_monitor::text::{clean_cmdline, contains_text, first_line};

#[test]
fn first_line_ends_at_the_line_feed() {
    assert_eq!(first_line("0::/a\n1::/b\n"), "0::/a");
    assert_eq!(first_line("0::/a\r\n1::/b"), "0::/a");
    assert_eq!(first_line("a\r\r\nb"), "a\r");
    assert_eq!(first_line("\nb"), "");
    assert_eq!(first_line("\r\nb"), "");
}

#[test]
fn text_without_a_line_feed_is_its_own_first_line() {
    assert_eq!(first_line(""), "");
    assert_eq!(first_line("0::/a"), "0::/a");
    assert_eq!(first_line("a\rb\r"), "a\rb\r");
}

#[test]
fn first_line_agrees_with_the_lines_of_the_text() {
    for text in ["", "a", "a\n", "\n", "a\r\nb", "a\rb\nc", "ä\nö", "a\r", "\r\n\r\n"] {
        assert_eq!(first_line(text), text.lines().next().unwrap_or(""));
    }
}

#[test]
fn command_line_is_joined_by_spaces() {
    assert_eq!(clean_cmdline("/bin/a\0-b\0c\0"), "/bin/a -b c");
    assert_eq!(clean_cmdline("\0\0a\0\0b\0"), "a  b");
    assert_eq!(clean_cmdline(""), "");
    assert_eq!(clean_cmdline("\0 \0\t\n"), "");
}

#[test]
fn command_line_loses_all_white_space_around_it() {
    for space in [
        '\u{9}', '\u{a}', '\u{b}', '\u{c}', '\u{d}', ' ', '\u{85}', '\u{a0}', '\u{1680}', '\u{2000}',
        '\u{200a}', '\u{2028}', '\u{2029}', '\u{202f}', '\u{205f}', '\u{3000}',
    ] {
        assert_eq!(clean_cmdline(&format!("{space}a{space}b{space}")), format!("a{space}b"));
    }
    for other in ['\u{8}', '\u{e}', '\u{1f}', '\u{180e}', '\u{200b}', '\u{2060}', '\u{feff}'] {
        assert_eq!(clean_cmdline(&format!("{other}a{other}")), format!("{other}a{other}"));
    }
}

#[test]
fn white_space_is_that_of_the_standard_library() {
    for code in 0..=0x10ffffu32 {
        if let Some(c) = char::from_u32(code) {
            if c != '\0' {
                let kept = !clean_cmdline(&c.to_string()).is_empty();
                assert_eq!(kept, !c.is_whitespace());
            }
        }
    }
}

#[test]
fn parts_are_found_wherever_they_stand() {
    assert!(contains_text("abcabd", "abd"));
    assert!(contains_text("abc", ""));
    assert!(contains_text("", ""));
    assert!(contains_text("aab", "ab"));
    assert!(contains_text("größe", "öß"));
    assert!(!contains_text("abcabd", "abe"));
    assert!(!contains_text("ab", "abc"));
    assert!(!contains_text("", "a"));
}
