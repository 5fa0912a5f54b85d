use public_logs::text::{
    contains, is_white_space, join_strings, split, split_lines, split_once, to_chars, to_decimal,
    to_string, trim_prefixes, trim_range, trim_start,
};

fn strings(parts: Vec<&[char]>) -> Vec<String> {
    parts.into_iter().map(to_string).collect()
}

const SAMPLES: [&str; 16] = [
    "",
    " ",
    "a",
    "a b",
    " a  b ",
    "\u{2003}x\u{85}",
    "a\nb",
    "a\r\nb\r\n",
    "\n",
    "\r",
    "a\r",
    "a\n\nb\n",
    "\r\n\r\n",
    "GAME-GAME-x",
    "GAME",
    "\u{e9} \u{1F4C1} \u{e9}",
];

#[test]
fn white_space_is_that_of_unicode() {
    for code in 0..=0x10ffffu32 {
        if let Some(c) = char::from_u32(code) {
            assert_eq!(is_white_space(c), c.is_whitespace(), "code point {code:x}");
        }
    }
}

#[test]
fn trimming() {
    for sample in SAMPLES {
        let chars = to_chars(sample);
        let (from, to) = trim_range(&chars);
        assert_eq!(to_string(&chars[from..to]), sample.trim());
        assert_eq!(to_string(trim_start(&chars)), sample.trim_start());
        assert_eq!(to_string(trim_prefixes(&chars, "GAME-")), sample.trim_start_matches("GAME-"));
        assert_eq!(to_string(trim_prefixes(&chars, "")), sample);
    }
}

#[test]
fn cutting_and_joining() {
    for sample in SAMPLES {
        let chars = to_chars(sample);
        let wanted: Vec<String> = sample.split(' ').map(String::from).collect();
        let parts = strings(split(&chars, ' '));
        assert_eq!(parts, wanted);
        assert_eq!(join_strings(&parts, " "), sample);
        let halves = split_once(&chars, 'b').map(|(a, b)| (to_string(a), to_string(b)));
        assert_eq!(halves, sample.split_once('b').map(|(a, b)| (a.to_string(), b.to_string())));
    }
}

#[test]
fn lines_of_a_text() {
    for sample in SAMPLES {
        let chars = to_chars(sample);
        let wanted: Vec<String> = sample.lines().map(String::from).collect();
        assert_eq!(strings(split_lines(&chars)), wanted, "sample: {sample:?}");
    }
}

#[test]
fn searching() {
    for sample in SAMPLES {
        let chars = to_chars(sample);
        for part in ["", "a", "b ", "\r\n", "GAME-x", "\u{e9}"] {
            assert_eq!(contains(&chars, part), sample.contains(part));
        }
    }
}

#[test]
fn decimals() {
    for n in [0usize, 1, 9, 10, 11, 99, 100, 65535, usize::MAX] {
        assert_eq!(to_decimal(n), n.to_string());
    }
}
