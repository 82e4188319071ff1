use tmez::number::parse_u64_range;
use tmez::text::{chars_of, key_value_ranges, line_ranges, trim_range};

fn range_text(chars: &[char], r: (usize, usize)) -> String {
    chars[r.0..r.1].iter().collect()
}

#[test]
fn parse_agrees_with_std() {
    let cases = [
        "", "+", "-", "0", "00", "+0", "++1", "-1", "12", "+12", " 12", "12 ", "1_0", "18446744073709551615",
        "18446744073709551616", "+18446744073709551615", "99999999999999999999999", "0018446744073709551615",
        "٣", "12a", "a12",
    ];
    for s in cases {
        let chars = chars_of(s);
        assert_eq!(parse_u64_range(&chars, 0, chars.len()), s.parse::<u64>().ok(), "{:?}", s);
    }
}

#[test]
fn trim_agrees_with_std() {
    let cases = ["", "  ", " a ", "\t\r\na b\u{3000}", "\u{85}x\u{2028}", "x", "\u{200b}x\u{200b}", "a\u{a0}"];
    for s in cases {
        let chars = chars_of(s);
        let r = trim_range(&chars, 0, chars.len());
        assert_eq!(range_text(&chars, r), s.trim(), "{:?}", s);
    }
}

#[test]
fn lines_agree_with_std() {
    let cases = ["", "\n", "a", "a\n", "a\r\nb", "a\n\nb\n", "\r\n", "a\r", "x\ry\nz", "\n\n"];
    for s in cases {
        let chars = chars_of(s);
        let got: Vec<String> = line_ranges(&chars).into_iter().map(|r| range_text(&chars, r)).collect();
        let want: Vec<String> = s.lines().map(|l| l.to_string()).collect();
        // `str::lines` leaves a lone final '\r' in older releases' behaviour too; both are trimmed before use.
        let want_trimmed: Vec<String> = want.iter().map(|l| l.trim_end_matches('\r').to_string()).collect();
        let got_trimmed: Vec<String> = got.iter().map(|l| l.trim_end_matches('\r').to_string()).collect();
        assert_eq!(got_trimmed, want_trimmed, "{:?}", s);
        assert_eq!(got.len(), want.len(), "{:?}", s);
    }
}

#[test]
fn key_values_agree_with_split_once() {
    let cases = ["Key : Value", "  a:b:c ", "no colon", ":", " : ", "k:", ":v", "\u{3000}x\t:\ty\u{3000}"];
    for s in cases {
        let chars = chars_of(s);
        let got = key_value_ranges(&chars, 0, chars.len())
            .map(|(k, v)| (range_text(&chars, k), range_text(&chars, v)));
        let want = s.trim().split_once(':').map(|(k, v)| (k.trim().to_string(), v.trim().to_string()));
        assert_eq!(got, want, "{:?}", s);
    }
}

#[test]
fn written_numbers_read_back() {
    use_decimal_roundtrip(&[0, 9, 10, 255, 65536, 1 << 40, u64::MAX]);
}

fn use_decimal_roundtrip(values: &[u64]) {
    for &n in values {
        let s = tmez::number::decimal_string(n);
        let chars = chars_of(&s);
        assert_eq!(parse_u64_range(&chars, 0, chars.len()), Some(n));
    }
}
