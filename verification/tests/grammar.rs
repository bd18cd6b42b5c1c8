use logsync::grammar::find_timestamp_prefix;
use regex::Regex;

fn prefix_pattern() -> Regex {
    let pattern = [
        r"^(?:",
        r"\d{4}[-/.]\d{2}[-/.]\d{2}[Tt ]\d{2}:\d{2}:\d{2}",
        r"(?:[.,]\d{1,9})?(?:[ \t]*(?:[Zz]|UTC|GMT|[+-]\d{2}:?\d{2}))?",
        r"|(?:Mon|Tue|Wed|Thu|Fri|Sat|Sun), \d{1,2} [A-Z][a-z]{2} \d{4} ",
        r"\d{2}:\d{2}:\d{2} (?:[+-]\d{4}|GMT|UTC|UT)",
        r"|\d{2}/[A-Z][a-z]{2}/\d{4}:\d{2}:\d{2}:\d{2} [+-]\d{4}",
        r"|-?(?:\d{19}|\d{16}|\d{13}|\d{10})",
        r")",
    ]
    .concat();
    Regex::new(&pattern)
    .unwrap()
}

fn bare_year_first_pattern() -> Regex {
    Regex::new(r"^\d{4}[-/.]\d{2}[-/.]\d{2}[Tt ]\d{2}:\d{2}:\d{2}(?:[.,]\d{1,9})?").unwrap()
}

/// The pattern's match, except that a year-first match whose zone is not closed
/// (by the end or whitespace, or by `]` inside brackets) falls back to the match
/// without its blanks and zone.
fn regex_prefix(re: &Regex, bare: &Regex, line: &str, bracketed: bool) -> Option<usize> {
    let m = re.find(line)?;
    let closed = match line[m.end()..].chars().next() {
        None => !bracketed,
        Some(c) => {
            if bracketed {
                c == ']'
            } else {
                c.is_whitespace()
            }
        }
    };
    let end = match bare.find(line) {
        Some(b) if !closed => b.end(),
        _ => m.end(),
    };
    Some(line[..end].chars().count())
}

fn ours(line: &str, bracketed: bool) -> Option<usize> {
    find_timestamp_prefix(&line.chars().collect(), bracketed)
}

#[test]
fn grammar_agrees_with_the_timestamp_pattern_on_samples() {
    let re = prefix_pattern();
    let bare = bare_year_first_pattern();
    for line in [
        "2026-09-12 10:20:30",
        "2026-09-12T10:20:30.123456789+02:00 x",
        "2026-09-12 10:20:30.1234567890",
        "2026-09-12 10:20:30 \t UTC",
        "2026-09-12 10:20:30 +02",
        "2026-09-12 10:20:30 +02:0",
        "2026-09-12 10:20:30 +02:00",
        "2026-09-12 10:20:30 +0200",
        "2026-09-12 10:20:30 GMTx",
        "2026-09-12 10:20:30,5Z",
        "2026-09-12 10:20:30.",
        "Sat, 12 Sep 2026 10:20:30 UT",
        "Sat, 1 Sep 2026 10:20:30 UTC",
        "Sat, 123 Sep 2026 10:20:30 UTC",
        "Sat, 12 Sep 2026 10:20:30 +00",
        "12/Sep/2026:12:20:30 +0200",
        "12/sep/2026:12:20:30 +0200",
        "-1700000000123",
        "-170000000",
        "17000000001234567890",
        "1700000000123456",
        "170000000012345",
        "",
        "-",
        "x2026-09-12 10:20:30",
        "\u{662}\u{660}\u{662}\u{666}-09-12 10:20:30",
        "2026-09-12 10:20:30 +\u{660}\u{662}\u{660}\u{660} x",
        "2026-09-12 10:20:30.\u{967}\u{968}",
        "\u{FF11}\u{FF17}00000000",
        "1700000000\u{1D7CE}\u{1D7CF}\u{1D7D0}",
        "Sat, \u{1040} Sep 2026 10:20:30 GMT",
        "12/Sep/2026:12:20:30 +\u{1E950}200",
        "2026-09-12 10:00:00 zookeeper started",
        "2026-09-12 10:00:00 UTCnews",
        "2026-09-12 10:00:00 +0200x",
        "2026-09-12T10:20:30Zbroken",
        "2026-09-12T10:20:30Z]",
        "2026-09-12 10:20:30 UTC] x",
    ] {
        for bracketed in [false, true] {
            assert_eq!(
                ours(line, bracketed),
                regex_prefix(&re, &bare, line, bracketed),
                "{line:?} {bracketed}"
            );
        }
    }
}

#[test]
fn grammar_agrees_with_the_timestamp_pattern_on_generated_lines() {
    let re = prefix_pattern();
    let bare = bare_year_first_pattern();
    let pieces = [
        "2026", "-", "/", ".", "09", "12", " ", "T", "t", "10", ":", "20", "30", ",", "1",
        "123456789", "Z", "z", "UTC", "GMT", "UT", "+", "02", "00", "\t", "Sat", ", ", "Sep",
        "sep", "]", "zoo", "1700000000", "123", "x", "0", "\u{663}", "\u{FF10}\u{FF12}", "\u{116D5}",
        "\u{BE7}",
    ];
    let templates: [&[&str]; 6] = [
        &["2026", "-", "09", "-", "12", " ", "10", ":", "20", ":", "30"],
        &["Sat", ", ", "12", " ", "Sep", " ", "2026", " ", "10", ":", "20", ":", "30", " "],
        &["12", "/", "Sep", "/", "2026", ":", "10", ":", "20", ":", "30", " ", "+", "0200"],
        &["1700000000"],
        &["-", "1700000000", "123"],
        &["2026", "/", "09", ".", "12", "T", "10", ":", "20", ":", "30", ".", "123456789"],
    ];
    let mut seed: u64 = 0x2545_F491_4F6C_DD1D;
    let mut next = move |bound: usize| {
        seed ^= seed << 13;
        seed ^= seed >> 7;
        seed ^= seed << 17;
        (seed % bound as u64) as usize
    };
    for _ in 0..20_000 {
        let mut parts: Vec<&str> = templates[next(templates.len())].to_vec();
        for _ in 0..next(4) {
            let at = next(parts.len() + 1);
            match next(3) {
                0 => parts.insert(at, pieces[next(pieces.len())]),
                1 if at < parts.len() => {
                    parts.remove(at);
                }
                _ if at < parts.len() => parts[at] = pieces[next(pieces.len())],
                _ => {}
            }
        }
        for _ in 0..next(3) {
            parts.push(pieces[next(pieces.len())]);
        }
        let line: String = parts.concat();
        for bracketed in [false, true] {
            assert_eq!(
                ours(&line, bracketed),
                regex_prefix(&re, &bare, &line, bracketed),
                "{line:?} {bracketed}"
            );
        }
    }
}
