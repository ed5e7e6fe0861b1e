use datadriver::size::kib_string;
use datadriver::text::{decimal_string, parse_u64, parse_usize, split_words};

fn float_kib(n: u64) -> String {
    format!("{:.1}", n as f64 / 1024.0)
}

#[test]
fn kib_string_matches_float_formatting_small() {
    for n in 0u64..200_000 {
        assert_eq!(kib_string(n), float_kib(n), "size {}", n);
    }
}

#[test]
fn kib_string_matches_float_formatting_ties() {
    assert_eq!(kib_string(256), "0.2");
    assert_eq!(kib_string(768), "0.8");
    assert_eq!(kib_string(1280), "1.2");
    assert_eq!(kib_string(1024), "1.0");
    for n in [256u64, 768, 1280, 1792, 2304, 2816] {
        assert_eq!(kib_string(n), float_kib(n));
    }
}

#[test]
fn kib_string_matches_float_formatting_large() {
    let mut x: u64 = 1;
    for _ in 0..64 {
        for delta in 0u64..5000 {
            for base in [x, x.wrapping_mul(3), x.wrapping_mul(7) / 5] {
                let n = base.wrapping_add(delta);
                assert_eq!(kib_string(n), float_kib(n), "size {}", n);
                let m = base.wrapping_sub(delta);
                assert_eq!(kib_string(m), float_kib(m), "size {}", m);
            }
        }
        x = x.wrapping_mul(2);
    }
    for n in [u64::MAX, u64::MAX - 1, u64::MAX - 1024, 1u64 << 53, (1u64 << 53) + 1, (1u64 << 54) + 3] {
        assert_eq!(kib_string(n), float_kib(n), "size {}", n);
    }
}

#[test]
fn decimal_string_matches_display() {
    for n in [0u64, 1, 9, 10, 99, 100, 12345, u64::MAX] {
        assert_eq!(decimal_string(n), n.to_string());
    }
}

#[test]
fn parse_matches_std() {
    for s in ["", "+", "-", "0", "+0", "007", "+12", "-12", "12a", " 12", "18446744073709551615", "18446744073709551616", "١٢"] {
        assert_eq!(parse_u64(s), s.parse::<u64>().ok(), "{:?}", s);
        assert_eq!(parse_usize(s), s.parse::<usize>().ok(), "{:?}", s);
    }
}

#[test]
fn split_words_matches_std() {
    for s in ["", "  ", "ls", "  p 5  10 ", "a\tb\nc", "x\u{3000}y\u{85}z", "\u{a0}q\u{2028}"] {
        let ours = split_words(s);
        let theirs: Vec<String> = s.split_whitespace().map(|t| t.to_string()).collect();
        assert_eq!(ours, theirs, "{:?}", s);
    }
}
