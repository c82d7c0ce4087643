use pianorium::encoder::{classify_receive, parse_opts, ReceiveOutcome};
use pianorium::text::{
    is_float_literal, parse_bool, parse_unsigned, push_decimal, push_zero_padded, split_on,
    str_eq,
};

#[test]
fn split_keeps_empty_pieces() {
    assert_eq!(split_on("a,b,,c", ','), vec!["a", "b", "", "c"]);
    assert_eq!(split_on("", ','), vec![""]);
    assert_eq!(split_on(",", ','), vec!["", ""]);
    assert_eq!(split_on("héllo=wörld", '='), vec!["héllo", "wörld"]);
}

#[test]
fn split_agrees_with_std() {
    for s in ["a=b", "==", "x", "", "k=v=w", "=v"] {
        let ours = split_on(s, '=');
        let std_: Vec<String> = s.split('=').map(|p| p.to_string()).collect();
        assert_eq!(ours, std_);
        assert_eq!(ours.join("="), s);
    }
}

#[test]
fn unsigned_numbers_read_like_std() {
    assert_eq!(parse_unsigned("1920", u64::MAX), Some(1920));
    assert_eq!(parse_unsigned("+5", 255), Some(5));
    assert_eq!(parse_unsigned("007", 255), Some(7));
    assert_eq!(parse_unsigned("255", 255), Some(255));
    assert_eq!(parse_unsigned("256", 255), None);
    assert_eq!(parse_unsigned("", 255), None);
    assert_eq!(parse_unsigned("+", 255), None);
    assert_eq!(parse_unsigned("-1", 255), None);
    assert_eq!(parse_unsigned("12a", 255), None);
    assert_eq!(parse_unsigned(" 1", 255), None);
    assert_eq!(parse_unsigned("18446744073709551615", u64::MAX), Some(u64::MAX));
    assert_eq!(parse_unsigned("18446744073709551616", u64::MAX), None);
    for s in ["0", "+0", "255", "256", "", "+", "x", "99999999999999999999"] {
        assert_eq!(parse_unsigned(s, 255).map(|v| v as u8), s.parse::<u8>().ok());
    }
}

#[test]
fn booleans_read_like_std() {
    assert_eq!(parse_bool("true"), Some(true));
    assert_eq!(parse_bool("false"), Some(false));
    assert_eq!(parse_bool("True"), None);
    assert_eq!(parse_bool(""), None);
}

#[test]
fn decimal_and_padding() {
    let mut s = String::from("n=");
    push_decimal(&mut s, 0);
    push_decimal(&mut s, 1234567890);
    assert_eq!(s, "n=01234567890");
    let mut p = String::new();
    push_zero_padded(&mut p, 42, 10);
    assert_eq!(p, "0000000042");
    let mut q = String::new();
    push_zero_padded(&mut q, 12345678901, 10);
    assert_eq!(q, "12345678901");
    assert_eq!(p.parse::<u64>().unwrap(), 42);
}

#[test]
fn string_equality() {
    assert!(str_eq("mp4", "mp4"));
    assert!(!str_eq("mp4", "mp3"));
    assert!(!str_eq("mp4", "mp41"));
}

fn pairs(v: &[(&str, &str)]) -> Vec<(String, String)> {
    v.iter().map(|(k, v)| (k.to_string(), v.to_string())).collect()
}

#[test]
fn options_parse_into_pairs() {
    assert_eq!(parse_opts("preset=medium".to_string()), Some(pairs(&[("preset", "medium")])));
    assert_eq!(
        parse_opts("preset=slow,crf=18,".to_string()),
        Some(pairs(&[("preset", "slow"), ("crf", "18")]))
    );
    assert_eq!(parse_opts(String::new()), Some(vec![]));
    assert_eq!(parse_opts("=x".to_string()), Some(pairs(&[("", "x")])));
    assert_eq!(parse_opts("preset".to_string()), None);
    assert_eq!(parse_opts("a=b=c".to_string()), None);
    assert_eq!(parse_opts(",a=b".to_string()), None);
    assert_eq!(parse_opts("a=b,,".to_string()), None);
}

#[test]
fn options_read_back_what_was_written() {
    let p = pairs(&[("preset", "medium"), ("tune", "film"), ("crf", "")]);
    let s: Vec<String> = p.iter().map(|(k, v)| format!("{}={}", k, v)).collect();
    assert_eq!(parse_opts(s.join(",")), Some(p));
}

#[test]
fn receive_codes() {
    let eagain = -11;
    let eof = -541478725;
    assert_eq!(classify_receive(0, eagain, eof), ReceiveOutcome::Packet);
    assert_eq!(classify_receive(5, eagain, eof), ReceiveOutcome::Packet);
    assert_eq!(classify_receive(eagain, eagain, eof), ReceiveOutcome::Drained);
    assert_eq!(classify_receive(eof, eagain, eof), ReceiveOutcome::Drained);
    assert_eq!(classify_receive(-22, eagain, eof), ReceiveOutcome::Failed);
}

#[test]
fn float_literals_read_like_std() {
    let cases = [
        "60", "29.97", "+1", "-1", "1.", ".5", ".", "", "+", "-", "1e5", "1E5", "1e+5", "1e-5",
        "1.5e3", ".5e3", "5.e3", "e3", "1e", "1e+", "1ee3", "1.2.3", "inf", "INF", "-Inf",
        "infinity", "+Infinity", "infinit", "nan", "NaN", "-nan", "nana", " 1", "1 ", "1_0",
        "0x10", "١", "1e٣", "30fps", "++1", "+-1", "1e--3", "00012.500", "1e400", "İnf",
    ];
    for c in cases {
        assert_eq!(is_float_literal(c), c.parse::<f32>().is_ok(), "{:?}", c);
    }
}

#[test]
fn frame_rates_are_float_literals() {
    assert!(is_float_literal("30"));
    assert!(is_float_literal("23.976"));
    assert!(!is_float_literal("30fps"));
    assert!(!is_float_literal(""));
}
