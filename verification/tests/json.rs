use launcher_core::json::error::{ErrorKind, ParseError};
use launcher_core::json::object::{find_member, get_member, insert_member};
use launcher_core::json::parser::JsonParser;
use launcher_core::json::render::escape_string;
use launcher_core::json::value::JsonValue;
use launcher_core::json::wellformed::is_number_text;
use launcher_core::text::chars_of;

fn number(literal: &str) -> JsonValue {
    JsonValue::Number(literal.to_string())
}

fn string(text: &str) -> JsonValue {
    JsonValue::String(text.to_string())
}

fn member(key: &str, value: JsonValue) -> (String, JsonValue) {
    (key.to_string(), value)
}

#[test]
fn parse_object_with_nested_array() {
    let parsed = JsonValue::parse("{\"a\":1,\"b\":[true,false,null]}");
    let expected = JsonValue::Object(vec![
        member("a", number("1")),
        member(
            "b",
            JsonValue::Array(vec![
                JsonValue::Boolean(true),
                JsonValue::Boolean(false),
                JsonValue::Null,
            ]),
        ),
    ]);
    assert_eq!(parsed, Ok(expected));
}

#[test]
fn parse_empty_text_is_unexpected_end() {
    let error = JsonValue::parse("").unwrap_err();
    assert_eq!(error, ParseError::UnexpectedEnd);
    assert_eq!(error.kind(), ErrorKind::Syntax);
    assert_eq!(error.message(), "意外结束");
}

#[test]
fn parse_blank_text_is_unexpected_end() {
    assert_eq!(JsonValue::parse(" \t\r\n"), Err(ParseError::UnexpectedEnd));
}

#[test]
fn parse_missing_value_after_colon_fails() {
    assert_eq!(JsonValue::parse("{\"a\":}"), Err(ParseError::UnexpectedChar('}')));
}

#[test]
fn parse_trailing_comma_in_array_fails() {
    assert_eq!(JsonValue::parse("[1,2,]"), Err(ParseError::UnexpectedChar(']')));
}

#[test]
fn parse_trailing_comma_in_object_fails() {
    assert_eq!(JsonValue::parse("{\"a\":1,}"), Err(ParseError::UnexpectedChar('}')));
}

#[test]
fn parse_unicode_escape_fails() {
    let error = JsonValue::parse("\"\\u0041\"").unwrap_err();
    assert_eq!(error, ParseError::UnknownEscape('u'));
    assert_eq!(error.message(), "未知转义字符：\\u");
}

#[test]
fn parse_duplicate_key_keeps_last_value() {
    let parsed = JsonValue::parse("{\"a\":1,\"a\":2}");
    assert_eq!(parsed, Ok(JsonValue::Object(vec![member("a", number("2"))])));
}

#[test]
fn parse_duplicate_key_keeps_first_place() {
    let parsed = JsonValue::parse("{\"a\":1,\"b\":2,\"a\":3}").unwrap();
    assert_eq!(parsed.to_json_string(), "{\"a\":3,\"b\":2}");
}

#[test]
fn config_round_trips_through_text() {
    let config = JsonValue::Object(vec![
        member("username", string("Steve")),
        member("memory", number("2048")),
        member("fullscreen", JsonValue::Boolean(true)),
    ]);
    let text = config.to_json_string();
    assert_eq!(text, "{\"username\":\"Steve\",\"memory\":2048,\"fullscreen\":true}");
    assert_eq!(JsonValue::parse(&text), Ok(config));
}

#[test]
fn nested_value_round_trips() {
    let value = JsonValue::Object(vec![
        member("mods", JsonValue::Array(vec![string("fabric-api"), string("sodium")])),
        member("empty", JsonValue::Object(vec![])),
        member("none", JsonValue::Array(vec![])),
        member(
            "deep",
            JsonValue::Array(vec![
                JsonValue::Array(vec![JsonValue::Null]),
                JsonValue::Object(vec![member("x", number("-1.5e+3"))]),
            ]),
        ),
        member("quote\"key", string("line\nfeed\ttab\\slash\r")),
    ]);
    let text = value.to_json_string();
    assert_eq!(JsonValue::parse(&text), Ok(value));
}

#[test]
fn string_with_raw_control_character_round_trips() {
    let value = string("bell\u{7}and\u{0}nul and é and 字");
    let text = value.to_json_string();
    assert_eq!(text, "\"bell\u{7}and\u{0}nul and é and 字\"");
    assert_eq!(JsonValue::parse(&text), Ok(value));
}

#[test]
fn each_scalar_round_trips() {
    for value in [
        JsonValue::Null,
        JsonValue::Boolean(true),
        JsonValue::Boolean(false),
        number("0"),
        number("-0"),
        number("3.14"),
        number("1e10"),
        number("1E-2"),
        number("1."),
        number("-.5"),
        string(""),
    ] {
        let text = value.to_json_string();
        assert_eq!(JsonValue::parse(&text), Ok(value));
    }
}

#[test]
fn serialize_writes_exact_text() {
    let value = JsonValue::Object(vec![
        member("k", JsonValue::Array(vec![number("1"), string("x\ny"), JsonValue::Null])),
        member("b", JsonValue::Boolean(false)),
    ]);
    assert_eq!(value.to_json_string(), "{\"k\":[1,\"x\\ny\",null],\"b\":false}");
    assert_eq!(JsonValue::Object(vec![]).to_json_string(), "{}");
    assert_eq!(JsonValue::Array(vec![]).to_json_string(), "[]");
    assert_eq!(JsonValue::Array(vec![JsonValue::Null]).to_json_string(), "[null]");
    assert_eq!(number("-12.5").to_json_string(), "-12.5");
}

#[test]
fn escape_string_escapes_five_characters() {
    assert_eq!(escape_string("a\"b\\c\nd\re\tf"), "a\\\"b\\\\c\\nd\\re\\tf");
    assert_eq!(escape_string(""), "");
    assert_eq!(escape_string("plain / text"), "plain / text");
}

#[test]
fn parse_string_escapes() {
    assert_eq!(
        JsonValue::parse("\"a\\\"b\\\\c\\nd\\re\\tf\""),
        Ok(string("a\"b\\c\nd\re\tf"))
    );
}

#[test]
fn parse_skips_whitespace_around_tokens() {
    let parsed = JsonValue::parse(" \n{ \"a\" :\t[ 1 , 2 ] ,\r\n\"b\" : { } } \n");
    let expected = JsonValue::Object(vec![
        member("a", JsonValue::Array(vec![number("1"), number("2")])),
        member("b", JsonValue::Object(vec![])),
    ]);
    assert_eq!(parsed, Ok(expected));
    assert_eq!(JsonValue::parse("[ ]"), Ok(JsonValue::Array(vec![])));
}

#[test]
fn parse_keeps_number_literal() {
    assert_eq!(JsonValue::parse("-12.50e+3"), Ok(number("-12.50e+3")));
    assert_eq!(JsonValue::parse("007"), Ok(number("007")));
    assert_eq!(JsonValue::parse("1."), Ok(number("1.")));
    assert_eq!(JsonValue::parse("-.5"), Ok(number("-.5")));
    assert_eq!(JsonValue::parse("[1.e2]"), Ok(JsonValue::Array(vec![number("1.e2")])));
}

#[test]
fn parse_rejects_malformed_numbers() {
    for text in ["-", "-.", "1e", "1e+", "-e5", "1.5E-", "-.e1"] {
        let error = JsonValue::parse(text).unwrap_err();
        assert_eq!(error, ParseError::InvalidNumber);
        assert_eq!(error.message(), "无效数字：invalid float literal");
    }
}

#[test]
fn parse_number_stops_at_second_point() {
    assert_eq!(JsonValue::parse("1.2.3"), Err(ParseError::TrailingData));
    assert_eq!(JsonValue::parse("[1.2.3]"), Err(ParseError::MissingBracket));
}

#[test]
fn parse_reports_unterminated_string() {
    let error = JsonValue::parse("\"abc").unwrap_err();
    assert_eq!(error, ParseError::UnterminatedString);
    assert_eq!(error.message(), "字符串未结束");
    assert_eq!(JsonValue::parse("\"abc\\"), Err(ParseError::UnterminatedString));
    assert_eq!(JsonValue::parse("\""), Err(ParseError::UnterminatedString));
}

#[test]
fn parse_reports_key_that_is_no_string() {
    let error = JsonValue::parse("{1:2}").unwrap_err();
    assert_eq!(error, ParseError::KeyNotString);
    assert_eq!(error.kind(), ErrorKind::Type);
    assert_eq!(error.message(), "对象的键必须是字符串");
}

#[test]
fn parse_reports_missing_colon() {
    let error = JsonValue::parse("{\"a\" 1}").unwrap_err();
    assert_eq!(error, ParseError::MissingColon);
    assert_eq!(error.message(), "缺少冒号");
    assert_eq!(JsonValue::parse("{\"a\""), Err(ParseError::MissingColon));
}

#[test]
fn parse_reports_missing_brace() {
    let error = JsonValue::parse("{\"a\":1 \"b\":2}").unwrap_err();
    assert_eq!(error, ParseError::MissingBrace);
    assert_eq!(error.message(), "对象缺少 }");
    assert_eq!(JsonValue::parse("{\"a\":1"), Err(ParseError::MissingBrace));
}

#[test]
fn parse_reports_missing_bracket() {
    let error = JsonValue::parse("[1 2]").unwrap_err();
    assert_eq!(error, ParseError::MissingBracket);
    assert_eq!(error.message(), "数组缺少 ]");
    assert_eq!(JsonValue::parse("[1"), Err(ParseError::MissingBracket));
}

#[test]
fn parse_reports_unclosed_containers() {
    assert_eq!(JsonValue::parse("{"), Err(ParseError::UnexpectedEnd));
    assert_eq!(JsonValue::parse("["), Err(ParseError::UnexpectedEnd));
    assert_eq!(JsonValue::parse("[1,"), Err(ParseError::UnexpectedEnd));
}

#[test]
fn parse_reports_invalid_words() {
    let error = JsonValue::parse("tru").unwrap_err();
    assert_eq!(error, ParseError::InvalidBoolean);
    assert_eq!(error.message(), "无效布尔值");
    assert_eq!(JsonValue::parse("fals"), Err(ParseError::InvalidBoolean));
    assert_eq!(JsonValue::parse("True"), Err(ParseError::UnexpectedChar('T')));
    let error = JsonValue::parse("nul").unwrap_err();
    assert_eq!(error, ParseError::InvalidNull);
    assert_eq!(error.message(), "无效 null");
}

#[test]
fn parse_reports_trailing_data() {
    let error = JsonValue::parse("1 2").unwrap_err();
    assert_eq!(error, ParseError::TrailingData);
    assert_eq!(error.message(), "多余字符");
    assert_eq!(JsonValue::parse("truefalse"), Err(ParseError::TrailingData));
    assert_eq!(JsonValue::parse("null "), Ok(JsonValue::Null));
}

#[test]
fn parse_reports_unexpected_character() {
    let error = JsonValue::parse("?").unwrap_err();
    assert_eq!(error, ParseError::UnexpectedChar('?'));
    assert_eq!(error.kind(), ErrorKind::Syntax);
    assert_eq!(error.message(), "意外字符：?");
    assert_eq!(JsonValue::parse(".5"), Err(ParseError::UnexpectedChar('.')));
    assert_eq!(JsonValue::parse("+1"), Err(ParseError::UnexpectedChar('+')));
}

#[test]
fn parse_does_not_skip_other_unicode_spaces() {
    assert_eq!(JsonValue::parse("\u{a0}1"), Err(ParseError::UnexpectedChar('\u{a0}')));
}

#[test]
fn parser_cursor_moves_over_characters() {
    let mut parser = JsonParser::new("  é1");
    assert_eq!(parser.chars, vec![' ', ' ', 'é', '1']);
    assert_eq!(parser.index, 0);
    assert_eq!(parser.peek(), Some(' '));
    parser.skip_whitespace();
    assert_eq!(parser.index, 2);
    assert_eq!(parser.peek(), Some('é'));
    assert_eq!(parser.next_char(), Some('é'));
    assert_eq!(parser.next_char(), Some('1'));
    assert_eq!(parser.index, 4);
    assert_eq!(parser.peek(), None);
    assert_eq!(parser.next_char(), None);
    assert_eq!(parser.index, 4);
}

#[test]
fn parser_reads_string_and_stops_behind_it() {
    let mut parser = JsonParser::new("\"a\\tb\" rest");
    assert_eq!(parser.parse_string(), Ok("a\tb".to_string()));
    assert_eq!(parser.index, 6);
}

#[test]
fn parser_reads_value_and_stops_behind_it() {
    let mut parser = JsonParser::new(" [1, 2] tail");
    assert_eq!(
        parser.parse_value(),
        Ok(JsonValue::Array(vec![number("1"), number("2")]))
    );
    assert_eq!(parser.index, 7);
    let mut parser = JsonParser::new("12ab");
    assert_eq!(parser.parse_number(), Ok("12".to_string()));
    assert_eq!(parser.index, 2);
    let mut parser = JsonParser::new("nullx");
    assert_eq!(parser.parse_null(), Ok(JsonValue::Null));
    assert_eq!(parser.index, 4);
    let mut parser = JsonParser::new("false");
    assert_eq!(parser.parse_boolean(), Ok(JsonValue::Boolean(false)));
    assert_eq!(parser.index, 5);
}

#[test]
fn insert_member_replaces_in_place_or_appends() {
    let mut members = vec![member("a", number("1")), member("b", number("2"))];
    insert_member(&mut members, "a".to_string(), JsonValue::Null);
    assert_eq!(members, vec![member("a", JsonValue::Null), member("b", number("2"))]);
    insert_member(&mut members, "c".to_string(), JsonValue::Boolean(true));
    assert_eq!(
        members,
        vec![
            member("a", JsonValue::Null),
            member("b", number("2")),
            member("c", JsonValue::Boolean(true)),
        ]
    );
}

#[test]
fn chars_of_splits_by_character() {
    assert_eq!(chars_of("aé字"), vec!['a', 'é', '字']);
    assert_eq!(chars_of(""), Vec::<char>::new());
}

#[test]
fn find_member_gives_first_place_or_length() {
    let members = vec![member("a", number("1")), member("b", number("2")), member("a", number("3"))];
    assert_eq!(find_member(&members, &"a".to_string()), 0);
    assert_eq!(find_member(&members, &"b".to_string()), 1);
    assert_eq!(find_member(&members, &"c".to_string()), 3);
    assert_eq!(find_member(&Vec::new(), &"a".to_string()), 0);
}

#[test]
fn objects_are_equal_whatever_the_order_of_members() {
    let left = JsonValue::Object(vec![
        member("a", number("1")),
        member("b", JsonValue::Object(vec![member("x", string("1")), member("y", JsonValue::Null)])),
    ]);
    let right = JsonValue::Object(vec![
        member("b", JsonValue::Object(vec![member("y", JsonValue::Null), member("x", string("1"))])),
        member("a", number("1")),
    ]);
    assert_eq!(left, right);
    assert_eq!(right, left);
    assert_ne!(left.to_json_string(), right.to_json_string());
}

#[test]
fn values_differ_by_kind_length_key_or_content() {
    let object = JsonValue::Object(vec![member("a", number("1")), member("b", number("2"))]);
    assert_ne!(object, JsonValue::Object(vec![member("a", number("1"))]));
    assert_ne!(object, JsonValue::Object(vec![member("a", number("1")), member("c", number("2"))]));
    assert_ne!(object, JsonValue::Object(vec![member("a", number("1")), member("b", number("3"))]));
    assert_ne!(object, JsonValue::Array(vec![number("1"), number("2")]));
    assert_ne!(
        JsonValue::Array(vec![number("1"), number("2")]),
        JsonValue::Array(vec![number("2"), number("1")])
    );
    assert_ne!(JsonValue::Array(vec![]), JsonValue::Array(vec![JsonValue::Null]));
    assert_ne!(string("1"), number("1"));
    assert_ne!(number("1"), number("1.0"));
    assert_ne!(JsonValue::Boolean(true), JsonValue::Boolean(false));
    assert_ne!(JsonValue::Null, JsonValue::Boolean(false));
    assert_eq!(JsonValue::Null, JsonValue::Null);
    assert_eq!(string("a"), string("a"));
}

#[test]
fn clone_copies_the_whole_tree() {
    let value = JsonValue::Object(vec![
        member("list", JsonValue::Array(vec![number("1"), string("two"), JsonValue::Null])),
        member("inner", JsonValue::Object(vec![member("flag", JsonValue::Boolean(true))])),
    ]);
    let copy = value.clone();
    assert_eq!(copy, value);
    assert_eq!(copy.to_json_string(), value.to_json_string());
}

#[test]
fn number_texts_are_recognised() {
    for text in ["0", "-0", "12", "1.5", "1.", "-.5", "1e5", "1E+5", "2.5e-3", "007", "1.e2"] {
        assert!(is_number_text(text), "{}", text);
    }
    for text in [
        "", "-", ".", ".5", "+1", "-.", "1e", "1e+", "e5", "-e5", "1.2.3", "1 ", " 1", "1a", "NaN",
        "inf", "--1", "1e5.0", "0x10",
    ] {
        assert!(!is_number_text(text), "{}", text);
    }
}

#[test]
fn well_formed_values_have_distinct_keys_and_number_literals() {
    let good = JsonValue::Object(vec![
        member("a", number("1")),
        member("b", JsonValue::Array(vec![JsonValue::Object(vec![member("a", number("-2.5"))])])),
    ]);
    assert!(good.is_well_formed());
    assert!(JsonValue::Null.is_well_formed());
    assert!(string("NaN").is_well_formed());
    let twice = JsonValue::Object(vec![member("a", number("1")), member("a", number("2"))]);
    assert!(!twice.is_well_formed());
    let deep = JsonValue::Array(vec![JsonValue::Object(vec![member("x", twice)])]);
    assert!(!deep.is_well_formed());
    assert!(!number("NaN").is_well_formed());
    assert!(!JsonValue::Array(vec![number("1"), number("")]).is_well_formed());
}

#[test]
fn ill_formed_values_do_not_round_trip() {
    let twice = JsonValue::Object(vec![member("a", number("1")), member("a", number("2"))]);
    let text = twice.to_json_string();
    assert_eq!(text, "{\"a\":1,\"a\":2}");
    assert_eq!(
        JsonValue::parse(&text),
        Ok(JsonValue::Object(vec![member("a", number("2"))]))
    );
    assert_eq!(
        JsonValue::parse(&number("NaN").to_json_string()),
        Err(ParseError::UnexpectedChar('N'))
    );
}

#[test]
fn parsed_values_are_well_formed() {
    let parsed = JsonValue::parse("{\"a\":[1,{\"b\":2,\"b\":3}],\"a\":-0.5e1}").unwrap();
    assert!(parsed.is_well_formed());
    assert_eq!(parsed.to_json_string(), "{\"a\":-0.5e1}");
}

#[test]
fn get_member_finds_value_under_key() {
    let members = vec![member("a", number("1")), member("b", string("x")), member("a", number("3"))];
    assert_eq!(get_member(&members, "a"), Some(&number("1")));
    assert_eq!(get_member(&members, "b"), Some(&string("x")));
    assert_eq!(get_member(&members, "c"), None);
    let parsed = JsonValue::parse("{\"username\":\"Steve\",\"memory\":2048}").unwrap();
    match parsed {
        JsonValue::Object(members) => {
            assert_eq!(get_member(&members, "username"), Some(&string("Steve")));
            assert_eq!(get_member(&members, "memory"), Some(&number("2048")));
            assert_eq!(get_member(&members, "fullscreen"), None);
        }
        other => panic!("not an object: {:?}", other),
    }
}

#[test]
fn cursor_stays_where_a_word_is_not_read() {
    for text in ["tru", "trUe", "fals", "f", "x", ""] {
        let mut parser = JsonParser::new(text);
        assert_eq!(parser.parse_boolean(), Err(ParseError::InvalidBoolean));
        assert_eq!(parser.index, 0);
    }
    for text in ["nul", "nulL", "n", ""] {
        let mut parser = JsonParser::new(text);
        assert_eq!(parser.parse_null(), Err(ParseError::InvalidNull));
        assert_eq!(parser.index, 0);
    }
    let mut parser = JsonParser::new("[nul]");
    parser.index = 1;
    assert_eq!(parser.parse_null(), Err(ParseError::InvalidNull));
    assert_eq!(parser.index, 1);
    let mut parser = JsonParser::new("truex");
    assert_eq!(parser.parse_boolean(), Ok(JsonValue::Boolean(true)));
    assert_eq!(parser.index, 4);
}

#[test]
fn cursor_ends_behind_a_literal_that_is_no_number() {
    for (text, end) in [("-", 1), ("-.", 2), ("1e", 2), ("1e+x", 3), ("-e5,", 3), ("x", 0), ("", 0)] {
        let mut parser = JsonParser::new(text);
        assert_eq!(parser.parse_number(), Err(ParseError::InvalidNumber));
        assert_eq!(parser.index, end, "{}", text);
    }
    let mut parser = JsonParser::new("1.5e3,2");
    assert_eq!(parser.parse_number(), Ok("1.5e3".to_string()));
    assert_eq!(parser.index, 5);
    assert_eq!(parser.peek(), Some(','));
}

