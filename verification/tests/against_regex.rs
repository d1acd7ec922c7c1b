use drum_remap::load_file_to_map;
use regex::Regex;

/// What a line says when it is matched with a regular expression and the
/// number is parsed by std: `None` where the line fails the load.
fn by_regex(re: &Regex, line: &str) -> Option<Vec<(String, u8)>> {
    let Some(capture) = re.captures(line) else {
        return Some(vec![]);
    };
    let name = capture["name"].trim();
    if name == "-" {
        return Some(vec![]);
    }
    let value = capture["val"].parse::<u8>().ok()?;
    if value > 127 {
        return None;
    }
    Some(vec![(name.to_string(), value)])
}

fn by_library(line: &str) -> Option<Vec<(String, u8)>> {
    let map = load_file_to_map(line).ok()?;
    Some((0..map.len()).map(|i| (map.name(i).clone(), map.number(i))).collect())
}

#[test]
fn lines_read_as_the_pattern_reads_them() {
    let re = Regex::new(r"^\s*(?<val>\d+)\s(?<name>.*)").unwrap();
    let lines = [
        "36 Kick",
        "  36   Kick  ",
        "36\tKick",
        "36Kick",
        "Kick 36",
        "Kick 36 ",
        "x36 y",
        "12a 34 b",
        "1 2 3",
        "12 34",
        "a1b2 c3 d",
        "-",
        "- Unused",
        "5 -",
        "5  - ",
        "5 --",
        "500 -",
        "128 x",
        "127 x",
        "0 x",
        "00000 x",
        "00128 x",
        "256 x",
        "99999999999999999999 x",
        "9x 300 y",
        "300x 9 y",
        "",
        " ",
        "7 ",
        "7  ",
        "7",
        "# 35 Acoustic Bass Drum",
        "36\u{00A0}Kick",
        "36 \u{3000}Kick\u{2003}",
        "36\rKick",
        "\u{0663} x",
        "1\u{0663} x",
        "\u{0663}6 -",
        "x \u{0663} y",
        " \t 5\tfive",
        "# 36 Kick",
        "x 200 y",
    ];
    for line in lines {
        assert_eq!(by_library(line), by_regex(&re, line), "{:?}", line);
    }
}

#[test]
fn generated_lines_read_as_the_pattern_reads_them() {
    let re = Regex::new(r"^\s*(?<val>\d+)\s(?<name>.*)").unwrap();
    let alphabet = ['1', '9', ' ', '\t', 'a', '-', '0'];
    let mut count = 0;
    for length in 0..=5u32 {
        for mut code in 0..alphabet.len().pow(length) {
            let mut line = String::new();
            for _ in 0..length {
                line.push(alphabet[code % alphabet.len()]);
                code /= alphabet.len();
            }
            assert_eq!(by_library(&line), by_regex(&re, &line), "{:?}", line);
            count += 1;
        }
    }
    assert_eq!(count, 1 + 7 + 49 + 343 + 2401 + 16807);
}

#[test]
fn texts_fall_into_lines_as_std_splits_them() {
    let re = Regex::new(r"^\s*(?<val>\d+)\s(?<name>.*)").unwrap();
    let texts = [
        "36 Kick\n38 Snare\n",
        "36 Kick\r\n38 Snare\r\n",
        "36 Kick\r\n38 Snare\r",
        "36\r\n",
        "36\r",
        "36\r\r\n",
        "\n\n36 a\n\n",
        "\r\n36 a",
        "36 a\n37 b\n36 c\n37 a\n",
        "1 a\n2 b\n1 b\n",
    ];
    for text in texts {
        let mut expected: Vec<(String, u8)> = vec![];
        for line in text.lines() {
            for (name, number) in by_regex(&re, line).unwrap() {
                match expected.iter_mut().find(|(known, _)| *known == name) {
                    Some(entry) => entry.1 = number,
                    None => expected.push((name, number)),
                }
            }
        }
        assert_eq!(by_library(text), Some(expected), "{:?}", text);
    }
}

#[test]
fn decimal_digits_are_what_the_pattern_calls_digits() {
    let digit = Regex::new(r"^\d$").unwrap();
    let mut digits = 0;
    for code in 0x80u32..0x20000 {
        let Some(c) = char::from_u32(code) else { continue };
        let is_digit = digit.is_match(&c.to_string());
        if is_digit {
            digits += 1;
        } else if code % 97 != 0 {
            continue;
        }
        let loaded = load_file_to_map(&format!("{} x", c));
        if is_digit {
            assert!(loaded.is_err(), "U+{:04X}", code);
        } else {
            assert_eq!(loaded.unwrap().len(), 0, "U+{:04X}", code);
        }
    }
    assert!(digits >= 500);
}

