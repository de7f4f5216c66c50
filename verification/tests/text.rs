use mailviewer_kde::text::{chars_of, lines_of, parse_u32_of, split_chars, trimmed, words_of};

fn strings(vs: Vec<Vec<char>>) -> Vec<String> {
    vs.into_iter().map(|v| v.into_iter().collect()).collect()
}

#[test]
fn cuts_lines_as_the_standard_library_does() {
    for text in ["", "a", "a\n", "a\n\n", "\n", "a\r\nb", "a\r", "a\rb\n", "a\r\r\n", "x\ny\r\nz"] {
        let expected: Vec<String> = text.lines().map(|l| l.to_string()).collect();
        assert_eq!(strings(lines_of(&chars_of(text))), expected, "{text:?}");
    }
}

#[test]
fn cuts_fields_as_the_standard_library_does() {
    for text in ["", ":", "a:b", "a::b:", "pub:u:255"] {
        let expected: Vec<String> = text.split(':').map(|l| l.to_string()).collect();
        assert_eq!(strings(split_chars(&chars_of(text), ':')), expected, "{text:?}");
    }
}

#[test]
fn cuts_words_and_trims_as_the_standard_library_does() {
    for text in ["", "  ", "a b", " a\t\tb \n", "a\u{3000}b\u{85}", "x\u{a0}"] {
        let expected: Vec<String> = text.split_whitespace().map(|l| l.to_string()).collect();
        assert_eq!(strings(words_of(&chars_of(text))), expected, "{text:?}");
        let t: String = trimmed(&chars_of(text)).into_iter().collect();
        assert_eq!(t, text.trim(), "{text:?}");
    }
}

#[test]
fn reads_numbers_as_the_standard_library_does() {
    for text in ["0", "17", "+17", "-17", "", "+", "4294967295", "4294967296", "00000000000000000000042", "1 ", "99999999999999999999"] {
        assert_eq!(parse_u32_of(&chars_of(text)), text.parse::<u32>().ok(), "{text:?}");
    }
}
