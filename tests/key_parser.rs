use plan_scheduler::key_error::{IdError, KeyError};
use plan_scheduler::key_helper::{decode_id, unescape};
use plan_scheduler::key_parser::KeyParser;

#[test]
fn test_key_parser_new_prefixed() -> Result<(), KeyError> {
    {
        let s = "_foo/bar%20-/123";
        let mut kp = KeyParser::new_prefixed(s, "_foo")?;
        assert_eq!(Ok("bar%20-"), kp.next_raw());
    }

    {
        let s = "_foo/bar%20-/123";
        let kp = KeyParser::new_prefixed(s, "bar");
        assert!(kp.is_err());
    }

    Ok(())
}

#[test]
fn test_key_parser_next() -> Result<(), KeyError> {
    let s = "_foo/bar%20-/123";

    let mut kp = KeyParser::new(s);
    assert_eq!(Ok("_foo"), kp.next_raw());
    assert_eq!(Ok("bar%20-"), kp.next_raw());
    assert_eq!(Ok("123"), kp.next_raw());
    assert!(kp.next_raw().is_err());

    Ok(())
}

#[test]
fn test_key_parser_next_str() -> Result<(), KeyError> {
    let s = "_foo/bar%21-/123";

    let mut kp = KeyParser::new(s);
    assert_eq!(Ok("_foo".to_string()), kp.next_str());
    assert_eq!(Ok("bar!-".to_string()), kp.next_str());

    Ok(())
}

#[test]
fn test_key_parser_next_u64() -> Result<(), KeyError> {
    let s = "_foo/bar%20-/123";

    let mut kp = KeyParser::new(s);
    assert!(kp.next_u64().is_err());
    assert!(kp.next_u64().is_err());
    assert_eq!(Ok(123), kp.next_u64());

    Ok(())
}

#[test]
fn test_key_parser_next_literal() -> Result<(), KeyError> {
    let s = "_foo/bar%20-/123";

    let mut kp = KeyParser::new(s);
    assert!(kp.next_literal("_foo").is_ok());
    assert!(kp.next_literal("bar%20-").is_ok());
    assert!(kp.next_literal("foo").is_err());
    assert!(kp.next_literal("123").is_err(), "already consumed");

    Ok(())
}

#[test]
fn test_key_parser_tail() -> Result<(), KeyError> {
    let s = "_foo/bar%20-/123";

    {
        let mut kp = KeyParser::new(s);
        assert_eq!(Ok(s), kp.tail_raw());
    }
    {
        let mut kp = KeyParser::new(s);
        kp.next_raw()?;
        assert_eq!(Ok("bar%20-/123"), kp.tail_raw());
    }
    {
        let mut kp = KeyParser::new(s);
        kp.next_raw()?;
        kp.next_raw()?;
        assert_eq!(Ok("123"), kp.tail_raw());
    }
    {
        let mut kp = KeyParser::new(s);
        kp.next_raw()?;
        kp.next_raw()?;
        kp.next_raw()?;
        assert!(kp.tail_raw().is_err());
    }

    Ok(())
}

#[test]
fn test_key_parser_done() -> Result<(), KeyError> {
    let s = "_foo/bar%20-/123";

    let mut kp = KeyParser::new(s);
    assert!(kp.done().is_err());
    assert!(kp.next_literal("bar%20-").is_ok());
    assert!(kp.next_literal("123").is_ok());
    assert!(kp.done().is_ok());

    Ok(())
}

#[test]
fn wrong_number_of_segments_names_the_count() {
    let mut kp = KeyParser::new("a/b");
    assert_eq!(Ok("a"), kp.next_raw());
    assert_eq!(Ok("b"), kp.next_raw());
    assert_eq!(
        Err(KeyError::WrongNumberOfSegments { expect: 3, got: "a/b".to_string() }),
        kp.next_raw()
    );
    // a failed pop leaves the parser where it was
    assert_eq!(
        Err(KeyError::WrongNumberOfSegments { expect: 3, got: "a/b".to_string() }),
        kp.next_str()
    );
    assert_eq!(Ok(()), kp.done());
}

#[test]
fn done_with_segments_left_reports_segments_read() {
    let mut kp = KeyParser::new("a/b/c");
    assert_eq!(Ok("a"), kp.next_raw());
    assert_eq!(
        Err(KeyError::WrongNumberOfSegments { expect: 1, got: "a/b/c".to_string() }),
        kp.done()
    );
}

#[test]
fn invalid_segment_reports_position_and_values() {
    let mut kp = KeyParser::new("x/y/z");
    assert_eq!(Ok(()), kp.next_literal("x"));
    assert_eq!(
        Err(KeyError::InvalidSegment { i: 1, expect: "q".to_string(), got: "y".to_string() }),
        kp.next_literal("q")
    );
    assert_eq!(Ok("z"), kp.next_raw());
}

#[test]
fn new_prefixed_reports_first_segment() {
    let r = KeyParser::new_prefixed("_foo/bar", "_fo");
    assert_eq!(
        Err(KeyError::InvalidSegment { i: 0, expect: "_fo".to_string(), got: "_foo".to_string() }),
        r.map(|_| ())
    );
}

#[test]
fn empty_key_has_one_empty_segment() {
    let mut kp = KeyParser::new("");
    assert_eq!(Ok(""), kp.next_raw());
    assert!(kp.next_raw().is_err());

    let mut kp = KeyParser::new("a//");
    assert_eq!(Ok("a"), kp.next_raw());
    assert_eq!(Ok(""), kp.next_raw());
    assert_eq!(Ok(""), kp.next_raw());
    assert_eq!(Ok(()), kp.done());
}

#[test]
fn tail_raw_on_multibyte_key() {
    let mut kp = KeyParser::new("é/中文/z");
    assert_eq!(Ok("é"), kp.next_raw());
    assert_eq!(Ok("中文/z"), kp.tail_raw());
    // the tail is returned, but only its first segment is consumed
    assert_eq!(Ok("z"), kp.next_raw());
    assert_eq!(Ok(()), kp.done());
}

#[test]
fn next_str_decodes_multibyte_escapes() {
    let mut kp = KeyParser::new("%E4%b8%AD/plain");
    assert_eq!(Ok("中".to_string()), kp.next_str());
    assert_eq!(Ok("plain".to_string()), kp.next_str());
}

#[test]
fn unescape_rejects_bad_escapes() {
    assert_eq!(Ok("a b".to_string()), unescape("a%20b"));
    assert_eq!(Err(KeyError::InvalidEscape { s: "a%2".to_string() }), unescape("a%2"));
    assert_eq!(Err(KeyError::InvalidEscape { s: "%zz".to_string() }), unescape("%zz"));
    assert_eq!(Err(KeyError::InvalidUtf8 { s: "%FF".to_string() }), unescape("%FF"));
}

#[test]
fn decode_id_values_and_errors() {
    assert_eq!(Ok(0), decode_id("0"));
    assert_eq!(Ok(5), decode_id("+5"));
    assert_eq!(Ok(18446744073709551615), decode_id("18446744073709551615"));
    assert_eq!(
        Err(KeyError::InvalidId { s: "18446744073709551616".to_string(), reason: IdError::TooLarge }),
        decode_id("18446744073709551616")
    );
    assert_eq!(
        Err(KeyError::InvalidId { s: "".to_string(), reason: IdError::Empty }),
        decode_id("")
    );
    assert_eq!(
        Err(KeyError::InvalidId { s: "+".to_string(), reason: IdError::InvalidDigit }),
        decode_id("+")
    );
    assert_eq!(
        Err(KeyError::InvalidId { s: "12a".to_string(), reason: IdError::InvalidDigit }),
        decode_id("12a")
    );
    assert_eq!(
        Err(KeyError::InvalidId { s: "-1".to_string(), reason: IdError::InvalidDigit }),
        decode_id("-1")
    );
}

#[test]
fn next_u64_reports_segment() {
    let mut kp = KeyParser::new("7/x");
    assert_eq!(Ok(7), kp.next_u64());
    assert_eq!(
        Err(KeyError::InvalidId { s: "x".to_string(), reason: IdError::InvalidDigit }),
        kp.next_u64()
    );
}

#[test]
fn failed_done_drops_segment_without_counting_it() {
    let mut kp = KeyParser::new("a/b/c");
    assert_eq!(
        Err(KeyError::WrongNumberOfSegments { expect: 0, got: "a/b/c".to_string() }),
        kp.done()
    );
    // "a" was dropped, but the count of segments read is still 0
    assert_eq!(
        Err(KeyError::InvalidSegment { i: 0, expect: "x".to_string(), got: "b".to_string() }),
        kp.next_literal("x")
    );
    assert_eq!(Ok("c"), kp.next_raw());
    // "b" and "c" were counted
    assert_eq!(
        Err(KeyError::WrongNumberOfSegments { expect: 3, got: "a/b/c".to_string() }),
        kp.next_raw()
    );
}
