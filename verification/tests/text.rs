use ccline::text::{
    chars_of, decimal_string, lines_chars, parse_u32_chars, parse_u64_chars, split_chars,
    trim_chars, words_chars,
};

fn s(v: &[char]) -> String {
    v.iter().collect()
}

#[test]
fn lines_follow_str_lines() {
    for input in ["", "a", "a\n", "a\r\n", "a\nb", "a\r\nb\r\n", "\n\n", "x\r", "a\rb\n", "\r\n"] {
        let got: Vec<String> = lines_chars(&chars_of(input)).iter().map(|l| s(l)).collect();
        let want: Vec<String> = input.lines().map(String::from).collect();
        assert_eq!(got, want, "input {input:?}");
    }
}

#[test]
fn words_follow_split_whitespace() {
    for input in ["", "  ", "a b", " a\t\tb \u{a0}c\u{2028}", "HTTP/2 429 ", "x\u{85}y"] {
        let got: Vec<String> = words_chars(&chars_of(input)).iter().map(|l| s(l)).collect();
        let want: Vec<String> = input.split_whitespace().map(String::from).collect();
        assert_eq!(got, want, "input {input:?}");
    }
}

#[test]
fn trim_follows_str_trim() {
    for input in ["", " ", " a ", "\u{3000}a b\u{205f}", "\u{200b}a"] {
        assert_eq!(s(&trim_chars(&chars_of(input))), input.trim(), "input {input:?}");
    }
}

#[test]
fn split_follows_str_split() {
    for input in ["", ".", "1.2.10", "..a."] {
        let got: Vec<String> = split_chars(&chars_of(input), '.').iter().map(|l| s(l)).collect();
        let want: Vec<String> = input.split('.').map(String::from).collect();
        assert_eq!(got, want, "input {input:?}");
    }
}

#[test]
fn parse_follows_str_parse() {
    for input in [
        "", "+", "-", "-1", "+0", "007", "18446744073709551615", "18446744073709551616", "1 ",
        " 1", "12a", "４", "4294967295", "4294967296",
    ] {
        let v = chars_of(input);
        assert_eq!(parse_u64_chars(&v), input.parse::<u64>().ok(), "input {input:?}");
        assert_eq!(parse_u32_chars(&v), input.parse::<u32>().ok(), "input {input:?}");
    }
}

#[test]
fn decimal_follows_display() {
    for n in [0u64, 7, 10, 99, 100, 12345, u64::MAX] {
        assert_eq!(decimal_string(n), n.to_string());
    }
}

fn pseudo_random_strings() -> Vec<String> {
    let alphabet = ['a', '7', '0', '+', '-', ' ', '\t', '\r', '\n', '.', ':', '\u{a0}', '\u{3000}', 'é', '\u{200b}'];
    let mut state: u64 = 0x2545_f491_4f6c_dd1d;
    let mut out = Vec::new();
    for _ in 0..400 {
        state = state.wrapping_mul(6364136223846793005).wrapping_add(1442695040888963407);
        let len = (state >> 59) as usize;
        let mut s = String::new();
        for _ in 0..len {
            state = state.wrapping_mul(6364136223846793005).wrapping_add(1442695040888963407);
            s.push(alphabet[(state >> 60) as usize % alphabet.len()]);
        }
        out.push(s);
    }
    out
}

#[test]
fn primitives_agree_with_str_on_many_inputs() {
    for input in pseudo_random_strings() {
        let v = chars_of(&input);
        let lines: Vec<String> = lines_chars(&v).iter().map(|l| s(l)).collect();
        assert_eq!(lines, input.lines().map(String::from).collect::<Vec<_>>(), "{input:?}");
        let words: Vec<String> = words_chars(&v).iter().map(|l| s(l)).collect();
        assert_eq!(words, input.split_whitespace().map(String::from).collect::<Vec<_>>(), "{input:?}");
        assert_eq!(s(&trim_chars(&v)), input.trim(), "{input:?}");
        let parts: Vec<String> = split_chars(&v, ':').iter().map(|l| s(l)).collect();
        assert_eq!(parts, input.split(':').map(String::from).collect::<Vec<_>>(), "{input:?}");
        assert_eq!(parse_u64_chars(&v), input.parse::<u64>().ok(), "{input:?}");
    }
}
