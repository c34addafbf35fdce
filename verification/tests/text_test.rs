use pick_up_sound_text::json::{parse_json, write_json, Json};
use pick_up_sound_text::subtitle::{generate_srt, generate_vtt, SubtitleEntry, SubtitleStatus};
use pick_up_sound_text::text::{
    contains, i64_to_decimal, join, lines, parse_i32, parse_u32, split, strip_prefix,
    strip_suffix, text_eq, to_ascii_lower, trim, u64_to_decimal, write_numeral,
};

#[test]
fn numerals() {
    for n in [0u64, 7, 10, 99, 12345, u64::MAX] {
        assert_eq!(u64_to_decimal(n), format!("{}", n));
        assert_eq!(write_numeral(n, 16), format!("{:x}", n));
    }
    for n in [0i64, -1, 42, i64::MIN, i64::MAX] {
        assert_eq!(i64_to_decimal(n), format!("{}", n));
    }
}

#[test]
fn numbers_are_read_as_the_standard_library_does() {
    for s in ["0", "-0", "+5", "", "-", "+", "12a", "007", "2147483647", "2147483648",
        "-2147483648", "-2147483649", "4294967295", "4294967296", "99999999999999999999", "１"]
    {
        assert_eq!(parse_i32(s), s.parse::<i32>().ok(), "{}", s);
        assert_eq!(parse_u32(s), s.parse::<u32>().ok(), "{}", s);
    }
}

#[test]
fn texts_are_taken_apart_as_the_standard_library_does() {
    for s in ["", "a", "a,b", ",a,,", "a\nb\r\n\r\nc\r", "\n", "x\r\n", "你,好\n"] {
        let pieces: Vec<&str> = s.split(',').collect();
        assert_eq!(split(s, ','), pieces);
        let expected: Vec<&str> = s.lines().collect();
        assert_eq!(lines(s), expected);
    }
    for s in ["", "  ", " a b\t\n", "\u{3000}x\u{a0}", "\u{200b}y"] {
        assert_eq!(trim(s), s.trim());
    }
    assert_eq!(join(&vec!["a".to_string(), "b".to_string()], ", "), "a, b");
    assert!(contains("hello", "ell") && contains("x", "") && !contains("", "x"));
    assert_eq!(strip_prefix("mic:a", "mic:").as_deref(), Some("a"));
    assert_eq!(strip_prefix("mi", "mic:"), None);
    assert_eq!(strip_suffix("a.exe", ".exe").as_deref(), Some("a"));
    assert_eq!(strip_suffix("exe", ".exe"), None);
    assert_eq!(to_ascii_lower("AbÉZ"), "abÉz");
    assert!(text_eq("é", "é") && !text_eq("e", "é") && !text_eq("a", "ab"));
}

#[test]
fn documents_are_read_and_written() {
    let j = parse_json("{\"b\":[1,2.5,-3e2],\"a\":\"\\u4f60\",\"c\":null,\"d\":true}").unwrap();
    assert_eq!(j.get("a").unwrap().as_str().as_deref(), Some("你"));
    assert_eq!(j.get("b").unwrap().array_len(), Some(3));
    assert_eq!(j.get("b").unwrap().at(1).unwrap().as_number().as_deref(), Some("2.5"));
    assert!(j.get("b").unwrap().at(3).is_none());
    assert_eq!(j.get("d").unwrap().as_bool(), Some(true));
    assert!(matches!(j.get("c"), Some(Json::Null)));
    assert!(j.get("e").is_none());
    assert!(j.is_object());
    assert_eq!(write_json(&j), "{\"a\":\"你\",\"b\":[1,2.5,-300.0],\"c\":null,\"d\":true}");
    assert!(parse_json("{").is_err());
    assert_eq!(
        parse_json("").unwrap_err(),
        "EOF while parsing a value at line 1 column 0"
    );
    let nested = Json::Arr(vec![Json::Bool(false), Json::Number("0.3".to_string())]);
    assert_eq!(write_json(&nested), "[false,0.3]");
    assert_eq!(write_json(&Json::Str("a\"b\n".to_string())), "\"a\\\"b\\n\"");
}

fn entry(start: i64, end: i64, source: &str, translated: &str) -> SubtitleEntry<f64> {
    SubtitleEntry {
        content_start: start as f64 / 1000.0,
        content_end: end as f64 / 1000.0,
        wall_start: start,
        wall_end: end,
        source: source.to_string(),
        translated: translated.to_string(),
        status: SubtitleStatus::Final,
    }
}

#[test]
fn subtitles_are_written_with_both_texts() {
    let entries = vec![entry(0, 1500, "hello", "你好"), entry(3_723_004, 3_725_999, "bye", "")];
    assert_eq!(
        generate_srt(&entries),
        "1\n00:00:00,000 --> 00:00:01,500\nhello\n你好\n\n2\n01:02:03,004 --> 01:02:05,999\nbye\n\n"
    );
    assert_eq!(
        generate_vtt(&entries),
        "WEBVTT\n\n00:00:00.000 --> 00:00:01.500\nhello\n你好\n\n01:02:03.004 --> 01:02:05.999\nbye\n\n"
    );
    let none: Vec<SubtitleEntry<f64>> = vec![];
    assert_eq!(generate_srt(&none), "");
    assert_eq!(generate_vtt(&none), "WEBVTT\n\n");
    assert_eq!(
        generate_srt(&vec![entry(-5, 360_000_000, "x", "y")]),
        "1\n00:00:00,000 --> 100:00:00,000\nx\ny\n\n"
    );
}
