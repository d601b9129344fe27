use dbtools::timestamp::{decode, encode, parse_date, parse_timestamp};
use regex::Regex;

#[test]
fn decode_keeps_a_canonical_timestamp() {
    assert_eq!(decode("2016-01-01T10:20:30.123"), "2016-01-01T10:20:30.123");
}

#[test]
fn decode_takes_either_separator() {
    assert_eq!(decode("2016-01-01 10:20:30"), "2016-01-01T10:20:30.000");
    assert_eq!(decode("2016-01-01T10:20:30"), "2016-01-01T10:20:30.000");
}

#[test]
fn decode_takes_either_suffix() {
    assert_eq!(decode("2016-01-01T10:20:30.123Z"), "2016-01-01T10:20:30.123");
    assert_eq!(decode("2016-01-01T10:20:30.123+0000"), "2016-01-01T10:20:30.123");
    assert_eq!(decode("2016-01-01 10:20:30Z"), "2016-01-01T10:20:30.000");
    assert_eq!(decode("2016-01-01 10:20:30+0000"), "2016-01-01T10:20:30.000");
}

#[test]
fn decode_cuts_and_pads_the_milliseconds() {
    assert_eq!(decode("2016-01-01T10:20:30.123456"), "2016-01-01T10:20:30.123");
    assert_eq!(decode("2016-01-01T10:20:30.12"), "2016-01-01T10:20:30.120");
    assert_eq!(decode("2016-01-01T10:20:30.1Z"), "2016-01-01T10:20:30.100");
    assert_eq!(decode("2016-01-01T10:20:30."), "2016-01-01T10:20:30.000");
    assert_eq!(decode("2016-01-01T10:20:30.x12"), "2016-01-01T10:20:30.000");
    assert_eq!(decode("2016-01-01T10:20:30.1x2"), "2016-01-01T10:20:30.100");
}

#[test]
fn decode_of_a_malformed_timestamp_is_empty() {
    assert_eq!(decode(""), "");
    assert_eq!(decode("2016-01-01"), "");
    assert_eq!(decode("2016-01-01 notes"), "");
    assert_eq!(decode("2016-01-01T10:20"), "");
    assert_eq!(decode("2016-01-01_10:20:30"), "");
    assert_eq!(decode("at 2016-01-01T10:20:30"), "");
    assert_eq!(decode("2016-01-01T10-20-30"), "");
}

#[test]
fn encode_appends_one_suffix() {
    assert_eq!(encode("2016-01-01T10:20:30.123", true), "2016-01-01T10:20:30.123Z");
    assert_eq!(encode("2016-01-01T10:20:30.123", false), "2016-01-01T10:20:30.123+0000");
}

#[test]
fn decode_inverts_encode() {
    let stamps = [
        "2016-01-01T00:00:00.000",
        "1999-12-31T23:59:59.999",
        "0000-00-00T00:00:00.000",
        "2024-02-29T12:34:56.789",
    ];
    for t in stamps {
        for tz in [true, false] {
            assert_eq!(decode(&encode(t, tz)), t);
        }
    }
}

#[test]
fn parse_timestamp_is_decode_then_encode() {
    assert_eq!(parse_timestamp("2016-01-01 10:20:30", true), "2016-01-01T10:20:30.000Z");
    assert_eq!(parse_timestamp("2016-01-01T10:20:30.5Z", false), "2016-01-01T10:20:30.500+0000");
}

#[test]
fn parse_timestamp_of_a_malformed_value_is_the_suffix_alone() {
    assert_eq!(parse_timestamp("2016-01-01", true), "Z");
    assert_eq!(parse_timestamp("2016-01-01", false), "+0000");
}

#[test]
fn parse_date_gives_the_dump_literal() {
    assert_eq!(parse_date("2016-01-01T00:00:00.000Z"), "2016-01-01 00:00:00");
    assert_eq!(parse_date("2016-01-01T10:20:30.123+0000"), "2016-01-01 10:20:30");
    assert_eq!(parse_date("2016-01-01 10:20:30"), "2016-01-01 10:20:30");
    assert_eq!(parse_date("2016-01-01"), "");
}

#[test]
fn decode_agrees_with_the_pattern() {
    let re = Regex::new(
        r"^([0-9]{4}-[0-9]{2}-[0-9]{2})[T ]([0-9]{2}:[0-9]{2}:[0-9]{2})(?:\.([0-9]*))?",
    )
    .unwrap();
    let samples = [
        "2016-01-01T10:20:30.123Z", "2016-01-01 10:20:30", "2016-01-01T10:20:30.1", "2016-01-01",
        "2016-01-01T10:20:30.12345+0000", "x", "", "2016-01-01T10:20:3", "2016-01-01T10:20:30.",
        "2016-01-01  10:20:30", "2016-01-01t10:20:30",
    ];
    for s in samples {
        let expected = match re.captures(s) {
            Some(c) => {
                let mut ms: String = c.get(3).map_or("", |m| m.as_str()).chars().take(3).collect();
                while ms.len() < 3 {
                    ms.push('0');
                }
                format!("{}T{}.{}", &c[1], &c[2], ms)
            }
            None => String::new(),
        };
        assert_eq!(decode(s), expected, "{:?}", s);
    }
}
