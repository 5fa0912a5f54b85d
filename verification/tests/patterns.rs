use public_logs::patterns::{ADDRESS_PATTERN, ADMIN_PATTERNS, TIMESTAMP_PATTERN};
use regex::{Regex, RegexSet};

/// A small generator of numbers.
struct Numbers(u64);

impl Numbers {
    fn below(&mut self, n: usize) -> usize {
        self.0 = self.0.wrapping_mul(6364136223846793005).wrapping_add(1442695040888963407);
        ((self.0 >> 33) as usize) % n
    }

    fn text(&mut self, parts: &[&str], most: usize) -> String {
        let count = self.below(most + 1);
        (0..count).map(|_| parts[self.below(parts.len())]).collect()
    }
}

fn digits(s: &str, low: usize, high: usize) -> bool {
    low <= s.len() && s.len() <= high && s.chars().all(|c| c.is_ascii_digit())
}

fn clock(s: &str) -> bool {
    let parts: Vec<&str> = s.split(':').collect();
    parts.len() == 3 && parts.iter().all(|part| digits(part, 2, 2))
}

fn timestamp(s: &str) -> bool {
    if clock(s) {
        return true;
    }
    let Some((day, time)) = s.split_once(' ') else {
        return false;
    };
    let day: Vec<&str> = day.split('-').collect();
    let time: Vec<char> = time.chars().collect();
    if day.len() != 3 || !day.iter().all(|part| digits(part, 2, 4)) || time.len() <= 8 {
        return false;
    }
    let (second, fractions): (String, String) =
        (time[..8].iter().collect(), time[8..].iter().collect());
    let parts: Vec<&str> = fractions.split('.').collect();
    clock(&second)
        && parts.len() >= 2
        && parts[0].is_empty()
        && parts[1..].iter().all(|part| digits(part, 1, 3))
}

#[test]
fn timestamp_pattern_accepts_time_stamps() {
    let pattern = Regex::new(TIMESTAMP_PATTERN).unwrap();
    let mut numbers = Numbers(1);
    let bases = ["12:34:56", "2026-04-30 16:20:42.301", "26-04-3030 16:20:42.3.33"];
    let marks = ["0", "9", "-", ":", ".", " ", "\n", "x", "\u{663}", ""];
    let mut accepted = 0;
    for _ in 0..40000 {
        let mut chars: Vec<char> = bases[numbers.below(bases.len())].chars().collect();
        for _ in 0..numbers.below(4) {
            let at = numbers.below(chars.len() + 1);
            let mark = marks[numbers.below(marks.len())];
            if numbers.below(2) == 0 && at < chars.len() {
                chars.remove(at);
            }
            if let Some(c) = mark.chars().next() {
                chars.insert(at.min(chars.len()), c);
            }
        }
        let s: String = chars.into_iter().collect();
        assert_eq!(pattern.is_match(&s), timestamp(&s), "text: {s:?}");
        accepted += timestamp(&s) as usize;
    }
    assert!(accepted > 1000);
}

fn acts(s: &[char], then: &str) -> bool {
    let then: Vec<char> = then.chars().collect();
    (0..s.len()).any(|i| {
        s[i..].starts_with(&['/', '('])
            && (i + 2..=s.len()).any(|j| !s[..j].contains(&'\n') && s[j..].starts_with(&then))
    })
}

fn quotes(s: &[char]) -> bool {
    (0..s.len()).any(|i| {
        s[i..].starts_with(&['/', '('])
            && !s[..i].contains(&':')
            && (i + 2..=s.len()).any(|j| {
                !s[i + 2..j].contains(&'\n')
                    && s[j..].starts_with(&[')', ' ', '"'])
                    && (j + 3..s.len()).any(|k| !s[j + 3..k].contains(&'\n') && s[k] == '"')
            })
    })
}

fn admin_only(s: &str) -> bool {
    let chars: Vec<char> = s.chars().collect();
    let actions =
        [") : ", ") added note ", ") removed a note ", ") has added ", ") has edited "];
    ["HELP:", "PM:", "ASAY:", "<a"].iter().any(|word| s.starts_with(word))
        || actions.iter().any(|then| acts(&chars, then))
        || quotes(&chars)
}

#[test]
fn admin_patterns_accept_what_is_not_for_the_public() {
    let set = RegexSet::new(ADMIN_PATTERNS).unwrap();
    let mut numbers = Numbers(2);
    let parts = [
        "a", "/(", ")", ") : ", ") added note ", ") removed a note ", ") has added ",
        ") has edited ", ":", "\n", "\"", " ", "/", "(", "HELP:", "PM:", "ASAY:", "<a", ") \"",
        "\u{e9}", "\r",
    ];
    let mut accepted = 0;
    for _ in 0..40000 {
        let s = numbers.text(&parts, 8);
        assert_eq!(set.is_match(&s), admin_only(&s), "text: {s:?}");
        accepted += admin_only(&s) as usize;
    }
    assert!(accepted > 1000);
}

fn groups_len(s: &[char], groups: usize) -> usize {
    let count = s.iter().take_while(|c| c.is_ascii_digit()).count();
    if groups == 0 {
        count.min(3)
    } else if (1..=3).contains(&count) && s.get(count) == Some(&'.') {
        match groups_len(&s[count + 1..], groups - 1) {
            0 => 0,
            rest => count + 1 + rest,
        }
    } else {
        0
    }
}

fn without_addresses(s: &str) -> String {
    let chars: Vec<char> = s.chars().collect();
    let mut out = String::new();
    let mut i = 0;
    while i < chars.len() {
        match groups_len(&chars[i..], 3) {
            0 => {
                out.push(chars[i]);
                i += 1;
            }
            len => i += len,
        }
    }
    out
}

#[test]
fn address_pattern_finds_addresses() {
    let pattern = Regex::new(ADDRESS_PATTERN).unwrap();
    let mut numbers = Numbers(3);
    let parts = ["1", "12", "255", ".", ".", ".", "1.2.", "x", "\n", "\u{663}", "-"];
    let mut changed = 0;
    for _ in 0..40000 {
        let s = numbers.text(&parts, 14);
        let left = without_addresses(&s);
        assert_eq!(pattern.replace_all(&s, ""), left, "text: {s:?}");
        changed += (left != s) as usize;
    }
    assert!(changed > 1000);
}
