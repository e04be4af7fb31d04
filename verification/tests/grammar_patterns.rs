use regex::Regex;
use remindme::date_utils::{parse_date, RemindMeDateTypes};

struct Patterns {
    date: Regex,
    time: Regex,
    span: Regex,
}

fn patterns() -> Patterns {
    Patterns {
        date: Regex::new(r"^(?<day>[0-9]{1,2})(?<month>[A-Za-z]{3})(?<year>[0-9]{2,4})$").unwrap(),
        time: Regex::new(r"^(?<hour>[0-2][0-3])(?<minute>[0-5][0-9])$").unwrap(),
        span: Regex::new(
            r"^((?<year>[0-9]+)y)?((?<month>[0-9]+)M)?((?<day>[0-9]+)d)?((?<hour>[0-9]+)h)?((?<minute>[0-9]+)m)?$",
        )
        .unwrap(),
    }
}

fn month(name: &str) -> Option<u32> {
    let names = [
        "jan", "feb", "mar", "apr", "may", "jun", "jul", "aug", "sep", "oct", "nov", "dec",
    ];
    let lower = name.to_ascii_lowercase();
    names.iter().position(|n| *n == lower).map(|i| i as u32 + 1)
}

fn by_patterns(p: &Patterns, token: &str) -> RemindMeDateTypes {
    if token.is_empty() {
        return RemindMeDateTypes::Invalid;
    }
    if let Some(c) = p.date.captures(token) {
        return match month(&c["month"]) {
            Some(mon) => RemindMeDateTypes::ThreeLetterMonth {
                d: c["day"].parse().unwrap(),
                mon,
                y: c["year"].parse().unwrap(),
            },
            None => RemindMeDateTypes::Invalid,
        };
    }
    if let Some(c) = p.time.captures(token) {
        return RemindMeDateTypes::SpecifiedTime {
            h: c["hour"].parse().unwrap(),
            min: c["minute"].parse().unwrap(),
        };
    }
    if let Some(c) = p.span.captures(token) {
        let text = |name: &str| c.name(name).map_or("", |m| m.as_str());
        return RemindMeDateTypes::AddedTime {
            y: text("year").parse().unwrap_or_default(),
            mon: text("month").parse().unwrap_or_default(),
            d: text("day").parse().unwrap_or_default(),
            h: text("hour").parse().unwrap_or_default(),
            min: text("minute").parse().unwrap_or_default(),
        };
    }
    RemindMeDateTypes::Invalid
}

fn extend(prefixes: &[String], choices: &[&str]) -> Vec<String> {
    let mut out = Vec::new();
    for p in prefixes {
        for c in choices {
            out.push(format!("{}{}", p, c));
        }
    }
    out
}

#[test]
fn short_tokens_read_as_the_patterns_say() {
    let p = patterns();
    let alphabet = ['0', '2', '3', '4', '6', 'y', 'M', 'd', 'h', 'm', 'a', 'Y'];
    let mut tokens = vec![String::new()];
    let mut last = vec![String::new()];
    for _ in 0..5 {
        let mut next = Vec::new();
        for t in &last {
            for c in alphabet {
                let mut longer = t.clone();
                longer.push(c);
                next.push(longer);
            }
        }
        tokens.extend(next.iter().cloned());
        last = next;
    }
    assert_eq!(tokens.len(), 271_453);
    for t in &tokens {
        assert_eq!(parse_date(t), by_patterns(&p, t), "token {:?}", t);
    }
}

#[test]
fn date_like_tokens_read_as_the_patterns_say() {
    let p = patterns();
    let days = ["", "0", "1", "13", "31", "99", "123", "1a", "a"];
    let months = [
        "jan", "FEB", "Mar", "aPr", "maY", "JUn", "jul", "aug", "sep", "oct", "nov", "dec", "xxx",
        "ja", "janu", "j4n", "123", "a_b", "y", "M", "3d", "jän", "",
    ];
    let years = ["", "2", "26", "026", "2026", "20266", "26a", "2y", "٢٠٢٦"];
    let tokens = extend(&extend(&extend(&[String::new()], &days), &months), &years);
    assert_eq!(tokens.len(), days.len() * months.len() * years.len());
    for t in &tokens {
        assert_eq!(parse_date(t), by_patterns(&p, t), "token {:?}", t);
    }
}

#[test]
fn duration_like_tokens_read_as_the_patterns_say() {
    let p = patterns();
    let numbers = ["", "0", "7", "12", "4294967295", "4294967296", "2147483648"];
    let mut tokens = vec![String::new()];
    for units in [["y", "Y", ""], ["M", "m", ""], ["d", "D", ""], ["h", "y", ""], ["m", "M", ""]] {
        let mut parts = Vec::new();
        for n in numbers {
            for u in units {
                parts.push(format!("{}{}", n, u));
            }
        }
        parts.sort();
        parts.dedup();
        let choices: Vec<&str> = parts.iter().map(|s| s.as_str()).collect();
        tokens = extend(&tokens, &choices);
        tokens.sort();
        tokens.dedup();
        if tokens.len() > 40_000 {
            tokens = tokens.into_iter().step_by(7).collect();
        }
    }
    assert!(tokens.len() > 10_000);
    for t in &tokens {
        assert_eq!(parse_date(t), by_patterns(&p, t), "token {:?}", t);
    }
}
