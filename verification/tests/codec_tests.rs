use momo_core::codec::{
    extract_segments, extract_text, make_row, needs_upload, payload_field, CodecWarning,
    ExternalInterp, MessagePart,
};
use momo_core::text::{i64_to_dec, parse_i64, u64_to_dec};

fn part(kind: &str, payload: Option<&str>) -> MessagePart {
    MessagePart {
        kind: kind.to_string(),
        payload: payload.map(|p| p.to_string()),
    }
}

#[test]
fn at_with_integer_target_is_emitted() {
    let parts = vec![part("at", Some("99"))];
    let (segs, warns) = extract_segments(&parts);
    assert_eq!(segs, vec![("at".to_string(), "99".to_string())]);
    assert!(warns.is_empty());
}

#[test]
fn at_with_bad_target_is_dropped_with_one_warning() {
    let parts = vec![part("at", Some("abc"))];
    let (segs, warns) = extract_segments(&parts);
    assert!(segs.is_empty());
    assert_eq!(warns, vec![CodecWarning::AtTargetNotInteger { index: 0 }]);
}

#[test]
fn at_target_is_canonicalized() {
    let parts = vec![part("at", Some("+0099"))];
    let (segs, _) = extract_segments(&parts);
    assert_eq!(segs, vec![("at".to_string(), "99".to_string())]);
}

#[test]
fn one_bad_part_never_discards_the_rest() {
    let parts = vec![
        part("text", Some("hello")),
        part("sticker", Some("x")),
        part("at", Some("oops")),
        part("share", Some("https://example.com")),
        part("image", None),
    ];
    let (segs, warns) = extract_segments(&parts);
    assert_eq!(
        segs,
        vec![
            ("text".to_string(), "hello".to_string()),
            ("share".to_string(), "https://example.com".to_string()),
        ]
    );
    assert_eq!(
        warns,
        vec![
            CodecWarning::Skipped { index: 1 },
            CodecWarning::AtTargetNotInteger { index: 2 },
            CodecWarning::Skipped { index: 4 },
        ]
    );
}

#[test]
fn payload_fields_match_the_layout() {
    assert_eq!(payload_field("text"), Some("text"));
    assert_eq!(payload_field("image"), Some("file"));
    assert_eq!(payload_field("record"), Some("file"));
    assert_eq!(payload_field("video"), Some("file"));
    assert_eq!(payload_field("at"), Some("qq"));
    assert_eq!(payload_field("share"), Some("url"));
    assert_eq!(payload_field("contact"), Some("id"));
    assert_eq!(payload_field("reply"), Some("id"));
    assert_eq!(payload_field("forward"), Some("id"));
    assert_eq!(payload_field("node"), Some("id"));
    assert_eq!(payload_field("sticker"), None);
}

#[test]
fn extract_text_joins_lines_and_stops_on_missing_payload() {
    let parts = vec![
        part("text", Some("a")),
        part("image", Some("f.png")),
        part("text", Some("b")),
    ];
    assert_eq!(extract_text(&parts), "a\nb\n");

    let broken = vec![part("text", Some("a")), part("text", None), part("text", Some("c"))];
    assert_eq!(extract_text(&broken), "a\n");
}

#[test]
fn parse_i64_handles_signs_digits_and_range() {
    assert_eq!(parse_i64("0"), Some(0));
    assert_eq!(parse_i64("+5"), Some(5));
    assert_eq!(parse_i64("-17"), Some(-17));
    assert_eq!(parse_i64("9223372036854775807"), Some(i64::MAX));
    assert_eq!(parse_i64("9223372036854775808"), None);
    assert_eq!(parse_i64("-9223372036854775808"), Some(i64::MIN));
    assert_eq!(parse_i64("-9223372036854775809"), None);
    assert_eq!(parse_i64(""), None);
    assert_eq!(parse_i64("-"), None);
    assert_eq!(parse_i64("12a"), None);
    assert_eq!(parse_i64(" 1"), None);
    assert_eq!(parse_i64("99999999999999999999999999"), None);
}

#[test]
fn decimal_formatting_is_exact() {
    assert_eq!(u64_to_dec(0), "0");
    assert_eq!(u64_to_dec(10), "10");
    assert_eq!(u64_to_dec(18446744073709551615), "18446744073709551615");
    assert_eq!(i64_to_dec(-123), "-123");
    assert_eq!(i64_to_dec(i64::MIN), "-9223372036854775808");
}

#[test]
fn make_row_interprets_each_kind() {
    let share = make_row(
        7,
        "2024-01-01 00:00:00",
        42,
        "alice",
        "share".to_string(),
        "https://example.com".to_string(),
        ExternalInterp::NotNeeded,
    );
    assert_eq!(share.content, "https://example.com");
    assert_eq!(share.interpret, "url");
    assert_eq!(share.seg_type, "share");
    assert_eq!(share.message_id, 7);

    let video = make_row(
        7,
        "t",
        42,
        "alice",
        "video".to_string(),
        "v.mp4".to_string(),
        ExternalInterp::NotNeeded,
    );
    assert_eq!(video.interpret, "not supported");

    let rec = make_row(
        7,
        "t",
        42,
        "alice",
        "record".to_string(),
        "key".to_string(),
        ExternalInterp::MediaPath { path: "/audio.mp3".to_string(), upload: "https://cdn/x".to_string() },
    );
    assert_eq!(rec.content, "/audio.mp3");
    assert_eq!(rec.interpret, "https://cdn/x");

    let rec_err = make_row(
        7,
        "t",
        42,
        "alice",
        "record".to_string(),
        "key".to_string(),
        ExternalInterp::MediaPath { path: "not a path".to_string(), upload: "ignored".to_string() },
    );
    assert_eq!(rec_err.content, "not a path");
    assert_eq!(rec_err.interpret, "");

    let at = make_row(
        7,
        "t",
        42,
        "alice",
        "at".to_string(),
        "99".to_string(),
        ExternalInterp::AtName("bob".to_string()),
    );
    assert_eq!(at.content, "99");
    assert_eq!(at.interpret, "bob");

    let reply = make_row(
        7,
        "t",
        42,
        "alice",
        "reply".to_string(),
        "123".to_string(),
        ExternalInterp::NotNeeded,
    );
    assert_eq!(reply.interpret, "message_id");

    let text = make_row(
        7,
        "t",
        42,
        "alice",
        "text".to_string(),
        "hi".to_string(),
        ExternalInterp::NotNeeded,
    );
    assert_eq!(text.interpret, "text");

    let node = make_row(
        7,
        "t",
        42,
        "alice",
        "node".to_string(),
        "n1".to_string(),
        ExternalInterp::NotNeeded,
    );
    assert_eq!(node.content, "");
    assert_eq!(node.interpret, "");
}

#[test]
fn needs_upload_checks_leading_separator() {
    assert!(needs_upload("/tmp/a.mp3"));
    assert!(!needs_upload("error text"));
    assert!(!needs_upload(""));
}
