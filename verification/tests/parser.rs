use docv_pdf::parser::boolean::{boolean, null};
use docv_pdf::parser::date::{string_date, Date};
use docv_pdf::parser::file::{read_startxref, read_trailer, read_xref, XrefObject, XrefTableEntry};
use docv_pdf::parser::name::name;
use docv_pdf::parser::numeric::numeric;
use docv_pdf::parser::object::{array, dictionary, indirect_object, indirect_reference, object, stream};
use docv_pdf::parser::object_stream::read_object_stream_header;
use docv_pdf::parser::process_stream_buffer::process_bytes;
use docv_pdf::parser::string::pdf_string;
use docv_pdf::parser::whitespace::{comment, eol, whitespace};
use docv_pdf::types::array::Array;
use docv_pdf::types::dictionary::Dictionary;
use docv_pdf::types::indirect_object::IndirectReference;
use docv_pdf::types::numeric::Numeric;
use docv_pdf::types::object::Object;
use docv_pdf::types::stream::Stream;
use docv_pdf::types::string::PdfString;

use chrono::{DateTime, FixedOffset, TimeZone};

fn dict_from<const N: usize>(entries: [(String, Object); N]) -> Dictionary {
    let mut d = Dictionary::new();
    for (k, v) in entries {
        d.insert(k, v);
    }
    d
}

fn real_text(x: f64) -> Numeric {
    Numeric::Real(format!("{}", x).into_bytes())
}

#[derive(Debug)]
enum Num {
    Integer(i64),
    Real(f64),
}

fn num_eq(actual: &Numeric, expected: &Num) -> bool {
    match (actual, expected) {
        (Numeric::Integer(a), Num::Integer(b)) => a == b,
        (Numeric::Real(t), Num::Real(b)) => {
            std::str::from_utf8(t).unwrap().parse::<f64>().unwrap() == *b
        }
        _ => false,
    }
}

fn to_chrono(d: &Date) -> DateTime<FixedOffset> {
    FixedOffset::east_opt(d.offset)
        .unwrap()
        .with_ymd_and_hms(d.year, d.month, d.day, d.hour, d.minute, d.second)
        .unwrap()
}

#[test]
fn test_whitespace_parser() {
    #[derive(Debug)]
    struct TestCase {
        name: &'static str,
        input: &'static [u8],
        expected: bool,
        expected_remainder: &'static [u8],
    }

    let test_cases = [
        TestCase {
            name: "empty input",
            input: b"",
            expected: false,
            expected_remainder: b"",
        },
        TestCase {
            name: "single space",
            input: b" ",
            expected: true,
            expected_remainder: b"",
        },
        TestCase {
            name: "multiple spaces",
            input: b"  ",
            expected: true,
            expected_remainder: b"",
        },
        TestCase {
            name: "whitespace followed by text",
            input: b"  abc",
            expected: true,
            expected_remainder: b"abc",
        },
        TestCase {
            name: "text with no whitespace",
            input: b"abc",
            expected: false,
            expected_remainder: b"abc",
        },
        TestCase {
            name: "text with different whitespace chars",
            input: b" \t\nabc",
            expected: true,
            expected_remainder: b"abc",
        },
        TestCase {
            name: "mixed whitespace and text",
            input: b" \r a b c",
            expected: true,
            expected_remainder: b"a b c",
        },
    ];

    for case in &test_cases {
        let result = whitespace(case.input);
        let success = result.is_ok();
        assert_eq!(
            success, case.expected,
            "Test '{}' failed: expected success: {}, got: {}",
            case.name, case.expected, success
        );

        if case.expected {
            let actual_remainder = match result {
                Ok((rem, _)) => rem,
                Err(e) => panic!(
                    "Parsing failed for test '{}', input: {:#?}, error: {e:?}",
                    case.name, case.input
                ),
            };

            assert_eq!(
                actual_remainder, case.expected_remainder,
                "Test '{}' failed: expected remainder: {:#?}, got: {:#?}",
                case.name, case.expected_remainder, actual_remainder
            );
        }
    }
}

#[test]
fn test_eol_parser() {
    #[derive(Debug)]
    struct TestCase {
        name: &'static str,
        input: &'static [u8],
        expected: bool,
        expected_remainder: &'static [u8],
    }

    let test_cases = [
        TestCase {
            name: "CRLF",
            input: b"\r\n",
            expected: true,
            expected_remainder: b"",
        },
        TestCase {
            name: "CR only",
            input: b"\r",
            expected: true,
            expected_remainder: b"",
        },
        TestCase {
            name: "LF only",
            input: b"\n",
            expected: true,
            expected_remainder: b"",
        },
        TestCase {
            name: "double CR",
            input: b"\r\r",
            expected: true,
            expected_remainder: b"\r",
        },
        TestCase {
            name: "LF followed by CR",
            input: b"\n\r",
            expected: true,
            expected_remainder: b"\r",
        },
        TestCase {
            name: "empty input",
            input: b"",
            expected: false,
            expected_remainder: b"",
        },
        TestCase {
            name: "CRLF followed by CR",
            input: b"\r\n\x0D",
            expected: true,
            expected_remainder: b"\x0D",
        },
        TestCase {
            name: "CR followed by CRLF",
            input: b"\r\x0D\x0A",
            expected: true,
            expected_remainder: b"\r\n",
        },
        TestCase {
            name: "CR followed by LF",
            input: b"\r\x0A",
            expected: true,
            expected_remainder: b"",
        },
        TestCase {
            name: "LF followed by CR",
            input: b"\x0A\r",
            expected: true,
            expected_remainder: b"\r",
        },
    ];

    for case in &test_cases {
        let result = eol(case.input);
        let success = result.is_ok();
        assert_eq!(
            success, case.expected,
            "Test '{}' failed: expected success: {}, got: {}",
            case.name, case.expected, success
        );

        if case.expected {
            let actual_remainder = match result {
                Ok((rem, _)) => rem,
                Err(e) => panic!(
                    "Parsing failed for test '{}', input: {:#?}, error: {e:?}",
                    case.name, case.input
                ),
            };
            assert_eq!(
                actual_remainder, case.expected_remainder,
                "Test '{}' failed: expected remainder: {:#?}, got: {:#?}",
                case.name, case.expected_remainder, actual_remainder
            );
        }
    }
}

#[test]
fn test_comment_parser() {
    #[derive(Debug)]
    struct TestCase {
        name: &'static str,
        input: &'static [u8],
        expected: bool,
        expected_remainder: &'static [u8],
    }

    let test_cases = [
        TestCase {
            name: "empty comment",
            input: b"",
            expected: false,
            expected_remainder: b"",
        },
        TestCase {
            name: "comment with text",
            input: b"% this is a comment\n",
            expected: true,
            expected_remainder: b"",
        },
        TestCase {
            name: "comment with trailing text",
            input: b"% comment abc123 \n",
            expected: true,
            expected_remainder: b"",
        },
        TestCase {
            name: "no comment character",
            input: b"this is not a comment",
            expected: false,
            expected_remainder: b"this is not a comment",
        },
        TestCase {
            name: "partial comment",
            input: b"%",
            expected: false,
            expected_remainder: b"%",
        },
        TestCase {
            name: "multiline comment",
            input: b"% line 1\n% line 2",
            expected: true,
            expected_remainder: b"% line 2",
        },
    ];

    for case in &test_cases {
        let result = comment(case.input);
        let success = result.is_ok();
        assert_eq!(
            success, case.expected,
            "Test '{}' failed: expected success: {}, got: {}",
            case.name, case.expected, success
        );

        if case.expected {
            let actual_remainder = match result {
                Ok((rem, _)) => rem,
                Err(e) => panic!(
                    "Parsing failed for test '{}', input: {:#?}, error: {e:?}",
                    case.name, case.input
                ),
            };
            assert_eq!(
                actual_remainder, case.expected_remainder,
                "Test '{}' failed: expected remainder: {:#?}, got: {:#?}",
                case.name, case.expected_remainder, actual_remainder
            );
        }
    }
}

#[test]
fn test_boolean_parser() {
    #[derive(Debug)]
    struct TestCase {
        name: &'static str,
        input: &'static [u8],
        expected: bool,
        expected_result: Option<bool>,
        expected_remainder: Option<&'static [u8]>,
    }

    let test_cases = [
        TestCase {
            name: "valid 'true'",
            input: b"true",
            expected: true,
            expected_result: Some(true),
            expected_remainder: Some(b""),
        },
        TestCase {
            name: "valid 'false'",
            input: b"false",
            expected: true,
            expected_result: Some(false),
            expected_remainder: Some(b""),
        },
        TestCase {
            name: "invalid 'True'",
            input: b"True",
            expected: false,
            expected_result: None,
            expected_remainder: None,
        },
        TestCase {
            name: "invalid empty input",
            input: b"",
            expected: false,
            expected_result: None,
            expected_remainder: None,
        },
        TestCase {
            name: "invalid 'Tr'",
            input: b"Tr",
            expected: false,
            expected_result: None,
            expected_remainder: None,
        },
        TestCase {
            name: "invalid 'FALSE'",
            input: b"FALSE",
            expected: false,
            expected_result: None,
            expected_remainder: None,
        },
        TestCase {
            name: "invalid 'truefalse'",
            input: b"truefalse",
            expected: true,
            expected_result: Some(true),
            expected_remainder: Some(b"false"),
        },
    ];

    for case in &test_cases {
        let result = boolean(case.input);
        let success = result.is_ok();
        assert_eq!(
            success, case.expected,
            "Test '{}' failed: expected success: {}, got: {}",
            case.name, case.expected, success
        );

        if case.expected {
            let (actual_remainder, result) = match result {
                Ok((rem, res)) => (rem, res),
                Err(e) => panic!(
                    "Parsing failed for test '{}', input: {:#?}, error: {e:?}",
                    case.name, case.input
                ),
            };
            assert_eq!(
                result,
                case.expected_result.unwrap(),
                "Test '{}' failed: expected result: {:?}, got: {:?}",
                case.name,
                case.expected_result,
                result
            );
            assert_eq!(
                actual_remainder,
                case.expected_remainder.unwrap(),
                "Test '{}' failed: expected remainder: {:?}, got: {:?}",
                case.name,
                case.expected_remainder,
                actual_remainder
            );
        }
    }
}

#[test]
fn test_null_parser() {
    #[derive(Debug)]
    struct TestCase {
        name: &'static str,
        input: &'static [u8],
        expected: bool,
        expected_remainder: Option<&'static [u8]>,
    }

    let test_cases = [
        TestCase {
            name: "valid 'null'",
            input: b"null",
            expected: true,
            expected_remainder: Some(b""),
        },
        TestCase {
            name: "valid 'null' with remainder",
            input: b"nullptr",
            expected: true,
            expected_remainder: Some(b"ptr"),
        },
        TestCase {
            name: "invalid 'nul'",
            input: b"nul",
            expected: false,
            expected_remainder: None,
        },
        TestCase {
            name: "invalid 'Null' (case-sensitive)",
            input: b"Null",
            expected: false,
            expected_remainder: None,
        },
        TestCase {
            name: "invalid empty input",
            input: b"",
            expected: false,
            expected_remainder: None,
        },
        TestCase {
            name: "invalid partial match",
            input: b"nulL",
            expected: false,
            expected_remainder: None,
        },
        TestCase {
            name: "valid null followed by delimiter",
            input: b"null(abc",
            expected: true,
            expected_remainder: Some(b"(abc"),
        },
    ];

    for case in &test_cases {
        let result = null(case.input);
        let success = result.is_ok();
        assert_eq!(
            success, case.expected,
            "Test '{}' failed: expected success: {}, got: {}",
            case.name, case.expected, success
        );

        if case.expected {
            let (actual_remainder, _) = result.unwrap_or_else(|_| {
                panic!("Parser failed unexpectedly for test case: {}", case.name)
            });
            assert_eq!(
                actual_remainder,
                case.expected_remainder.unwrap(),
                "Test '{}' failed: expected remainder: {:?}, got: {:?}",
                case.name,
                case.expected_remainder,
                actual_remainder
            );
        }
    }
}

#[test]
fn test_name_parser() {
    #[derive(Debug)]
    struct TestCase {
        name: &'static str,
        input: &'static [u8],
        expected: bool,
        expected_result: Option<String>,
        expected_remainder: Option<&'static [u8]>,
    }

    let test_cases = [
        TestCase {
            name: "valid name 'Name'",
            input: b"/Name",
            expected: true,
            expected_result: Some("Name".to_string()),
            expected_remainder: Some(b""),
        },
        TestCase {
            name: "valid name with escape 'A#B'",
            input: b"/A#23B",
            expected: true,
            expected_result: Some("A#B".to_string()),
            expected_remainder: Some(b""),
        },
        TestCase {
            name: "valid name with multiple escapes",
            input: b"/A#20#21",
            expected: true,
            expected_result: Some("A !".to_string()),
            expected_remainder: Some(b""),
        },
        TestCase {
            name: "valid name with multiple escapes without regular symbols",
            input: b"/#20#21",
            expected: true,
            expected_result: Some(" !".to_string()),
            expected_remainder: Some(b""),
        },
        TestCase {
            name: "standard invalid null escape",
            input: b"/#00",
            expected: true,
            expected_result: Some("\0".to_string()),
            expected_remainder: Some(b""),
        },
        TestCase {
            name: "empty name",
            input: b"/",
            expected: true,
            expected_result: Some("".to_string()),
            expected_remainder: Some(b""),
        },
        TestCase {
            name: "name with delimiter",
            input: b"/Test(ing",
            expected: true,
            expected_result: Some("Test".to_string()),
            expected_remainder: Some(b"(ing"),
        },
        TestCase {
            name: "name with escaped delimiter",
            input: b"/Test#28ing",
            expected: true,
            expected_result: Some("Test(ing".to_string()),
            expected_remainder: Some(b""),
        },
        TestCase {
            name: "name with whitespace",
            input: b"/Test ing",
            expected: true,
            expected_result: Some("Test".to_string()),
            expected_remainder: Some(b" ing"),
        },
        TestCase {
            name: "name with escaped whitespace",
            input: b"/Test#20ing",
            expected: true,
            expected_result: Some("Test ing".to_string()),
            expected_remainder: Some(b""),
        },
        TestCase {
            name: "name with residual text",
            input: b"/Name123abc",
            expected: true,
            expected_result: Some("Name123abc".to_string()),
            expected_remainder: Some(b""),
        },
        TestCase {
            name: "name with various characters",
            input: b"/A;Name_With-Various***Characters?",
            expected: true,
            expected_result: Some("A;Name_With-Various***Characters?".to_string()),
            expected_remainder: Some(b""),
        },
        TestCase {
            name: "name '1.2'",
            input: b"/1.2",
            expected: true,
            expected_result: Some("1.2".to_string()),
            expected_remainder: Some(b""),
        },
        TestCase {
            name: "name '$$'",
            input: b"/$$",
            expected: true,
            expected_result: Some("$$".to_string()),
            expected_remainder: Some(b""),
        },
        TestCase {
            name: "name '@pattern'",
            input: b"/@pattern",
            expected: true,
            expected_result: Some("@pattern".to_string()),
            expected_remainder: Some(b""),
        },
        TestCase {
            name: "name '.notdef'",
            input: b"/.notdef",
            expected: true,
            expected_result: Some(".notdef".to_string()),
            expected_remainder: Some(b""),
        },
        TestCase {
            name: "name with paired parentheses",
            input: b"/paired#28#29parentheses",
            expected: true,
            expected_result: Some("paired()parentheses".to_string()),
            expected_remainder: Some(b""),
        },
        TestCase {
            name: "name with '_' and code",
            input: b"/The_Key_of_F#23_Minor",
            expected: true,
            expected_result: Some("The_Key_of_F#_Minor".to_string()),
            expected_remainder: Some(b""),
        },
    ];

    for case in &test_cases {
        let result = name(case.input);
        assert_eq!(
            result.is_ok(),
            case.expected,
            "Test '{}' failed: expected success: {}, got: {:?}",
            case.name,
            case.expected,
            result
        );

        if case.expected {
            let (actual_remainder, result_str) = result.unwrap();
            let result_str = result_str.to_string();

            assert_eq!(
                &result_str,
                case.expected_result.as_ref().unwrap(),
                "Test '{}' failed: expected result: {:?}, got: {:?}",
                case.name,
                case.expected_result,
                result_str
            );
            assert_eq!(
                actual_remainder,
                case.expected_remainder.unwrap(),
                "Test '{}' failed: expected remainder: {:?}, got: {:?}",
                case.name,
                case.expected_remainder,
                actual_remainder
            );
        }
    }
}

#[test]
fn test_numeric_parser() {
    #[derive(Debug)]
    struct TestCase {
        name: &'static str,
        input: &'static [u8],
        expected: bool,
        expected_result: Option<Num>,
        expected_remainder: Option<&'static [u8]>,
    }

    let test_cases = [
        TestCase {
            name: "valid integer '123'",
            input: b"123",
            expected: true,
            expected_result: Some(Num::Integer(123)),
            expected_remainder: Some(b""),
        },
        TestCase {
            name: "valid negative integer '-456'",
            input: b"-456",
            expected: true,
            expected_result: Some(Num::Integer(-456)),
            expected_remainder: Some(b""),
        },
        TestCase {
            name: "valid positive integer '+789'",
            input: b"+789",
            expected: true,
            expected_result: Some(Num::Integer(789)),
            expected_remainder: Some(b""),
        },
        TestCase {
            name: "valid real number '123.45'",
            input: b"123.45",
            expected: true,
            expected_result: Some(Num::Real(123.45)),
            expected_remainder: Some(b""),
        },
        TestCase {
            name: "valid real number '.45'",
            input: b".45",
            expected: true,
            expected_result: Some(Num::Real(0.45)),
            expected_remainder: Some(b""),
        },
        TestCase {
            name: "valid negative real number '-678.90'",
            input: b"-678.90",
            expected: true,
            expected_result: Some(Num::Real(-678.9)),
            expected_remainder: Some(b""),
        },
        TestCase {
            name: "valid positive real number '+12.34'",
            input: b"+12.34",
            expected: true,
            expected_result: Some(Num::Real(12.34)),
            expected_remainder: Some(b""),
        },
        TestCase {
            name: "valid positive real number '+.34'",
            input: b"+.34",
            expected: true,
            expected_result: Some(Num::Real(0.34)),
            expected_remainder: Some(b""),
        },
        TestCase {
            name: "invalid 'abc'",
            input: b"abc",
            expected: false,
            expected_result: None,
            expected_remainder: None,
        },
        TestCase {
            name: "integer with some text '12a3'",
            input: b"12a3",
            expected: true,
            expected_result: Some(Num::Integer(12)),
            expected_remainder: Some(b"a3"),
        },
        TestCase {
            name: "invalid empty input",
            input: b"",
            expected: false,
            expected_result: None,
            expected_remainder: None,
        },
        TestCase {
            name: "invalid '12.' (no digits after decimal)",
            input: b"12.",
            expected: false,
            expected_result: None,
            expected_remainder: None,
        },
        TestCase {
            name: "valid with residual text '123.45a'",
            input: b"123.45a",
            expected: true,
            expected_result: Some(Num::Real(123.45)),
            expected_remainder: Some(b"a"),
        },
        TestCase {
            name: "valid with residual text '123.45.67' (extra decimal)",
            input: b"123.45.67",
            expected: true,
            expected_result: Some(Num::Real(123.45)),
            expected_remainder: Some(b".67"),
        },
    ];

    for case in &test_cases {
        let result = numeric(case.input);
        let success = result.is_ok();
        assert_eq!(
            success, case.expected,
            "Test '{}' failed: expected success: {}, got: {}",
            case.name, case.expected, success
        );

        if case.expected {
            let (actual_remainder, result) = match result {
                Ok((rem, res)) => (rem, res),
                Err(e) => panic!(
                    "Parsing failed for test '{}', input: {:#?}, error: {e:?}",
                    case.name, case.input
                ),
            };
            let expected_result = case.expected_result.as_ref().unwrap();
            assert!(
            num_eq(&result, expected_result),
                "Test '{}' failed: expected result: {:?}, got: {:?}",
                case.name, expected_result, result
            );
            assert_eq!(
                actual_remainder,
                case.expected_remainder.unwrap(),
                "Test '{}' failed: expected remainder: {:?}, got: {:?}",
                case.name,
                case.expected_remainder.unwrap(),
                actual_remainder
            );
        }
    }
}

#[test]
fn test_array_parser() {
    #[derive(Debug)]
    struct TestCase {
        name: &'static str,
        input: &'static [u8],
        expected: bool,
        expected_result: Option<Array>,
        expected_remainder: Option<&'static [u8]>,
    }

    let test_cases = [
        // Valid arrays
        TestCase {
            name: "valid empty array",
            input: b"[]",
            expected: true,
            expected_result: Some(vec![].into()),
            expected_remainder: Some(b""),
        },
        TestCase {
            name: "valid array with integers",
            input: b"[1 2 3]",
            expected: true,
            expected_result: Some(
                vec![
                    Object::Numeric(Numeric::Integer(1)),
                    Object::Numeric(Numeric::Integer(2)),
                    Object::Numeric(Numeric::Integer(3)),
                ]
                .into(),
            ),
            expected_remainder: Some(b""),
        },
        TestCase {
            name: "valid array with mixed types",
            input: b"[1 (two) /three]",
            expected: true,
            expected_result: Some(
                vec![
                    Object::Numeric(Numeric::Integer(1)),
                    Object::String(PdfString::Literal("two".to_string())),
                    Object::Name("three".into()),
                ]
                .into(),
            ),
            expected_remainder: Some(b""),
        },
        TestCase {
            name: "valid array with comments and whitespace",
            input: b"[ % comment\n1 % another\n (two) \t /three \n]",
            expected: true,
            expected_result: Some(
                vec![
                    Object::Numeric(Numeric::Integer(1)),
                    Object::String(PdfString::Literal("two".to_string())),
                    Object::Name("three".into()),
                ]
                .into(),
            ),
            expected_remainder: Some(b""),
        },
        TestCase {
            name: "valid array with nested arrays",
            input: b"[1 [2 3] (four)]",
            expected: true,
            expected_result: Some(
                vec![
                    Object::Numeric(Numeric::Integer(1)),
                    Object::Array(
                        vec![
                            Object::Numeric(Numeric::Integer(2)),
                            Object::Numeric(Numeric::Integer(3)),
                        ]
                        .into(),
                    ),
                    Object::String(PdfString::Literal("four".to_string())),
                ]
                .into(),
            ),
            expected_remainder: Some(b""),
        },
        // Valid with remainder
        TestCase {
            name: "array with remainder",
            input: b"[1 2 3]rest",
            expected: true,
            expected_result: Some(
                vec![
                    Object::Numeric(Numeric::Integer(1)),
                    Object::Numeric(Numeric::Integer(2)),
                    Object::Numeric(Numeric::Integer(3)),
                ]
                .into(),
            ),
            expected_remainder: Some(b"rest"),
        },
        // Invalid arrays
        TestCase {
            name: "invalid unclosed array",
            input: b"[1 2 3",
            expected: false,
            expected_result: None,
            expected_remainder: None,
        },
        TestCase {
            name: "invalid content before array",
            input: b"prefix[1]",
            expected: false,
            expected_result: None,
            expected_remainder: None,
        },
    ];

    for case in &test_cases {
        let result = array(case.input);
        assert_eq!(
            result.is_ok(),
            case.expected,
            "Test '{}' failed: expected success: {}, got: {:?}",
            case.name,
            case.expected,
            result
        );

        if case.expected {
            let (actual_remainder, result_array) = result.unwrap();
            assert_eq!(
                &result_array,
                case.expected_result.as_ref().unwrap(),
                "Test '{}' failed: expected result: {:?}, got: {:?}",
                case.name,
                case.expected_result,
                result_array
            );
            assert_eq!(
                actual_remainder,
                case.expected_remainder.unwrap(),
                "Test '{}' failed: expected remainder: {:?}, got: {:?}",
                case.name,
                case.expected_remainder,
                actual_remainder
            );
        }
    }
}

#[test]
fn test_dictionary_parser() {
    #[derive(Debug)]
    struct TestCase {
        name: &'static str,
        input: &'static [u8],
        expected: bool,
        expected_result: Option<Dictionary>,
        expected_remainder: Option<&'static [u8]>,
    }

    let test_cases = [
        // Valid dictionaries
        TestCase {
            name: "valid empty dictionary",
            input: b"<<>>",
            expected: true,
            expected_result: Some(dict_from([])),
            expected_remainder: Some(b""),
        },
        TestCase {
            name: "valid dictionary with one key-value pair",
            input: b"<< /Key 42 >>",
            expected: true,
            expected_result: Some(dict_from([(
                "Key".to_string(),
                Object::Numeric(Numeric::Integer(42)),
            )])),
            expected_remainder: Some(b""),
        },
        TestCase {
            name: "valid dictionary with multiple key-value pairs",
            input: b"<< /Key1 1 /Key2 (two) /Key3 /three >>",
            expected: true,
            expected_result: Some(dict_from([
                ("Key1".to_string(), Object::Numeric(Numeric::Integer(1))),
                (
                    "Key2".to_string(),
                    Object::String(PdfString::Literal("two".to_string())),
                ),
                ("Key3".to_string(), Object::Name("three".to_string())),
            ])),
            expected_remainder: Some(b""),
        },
        TestCase {
            name: "valid dictionary with comments and whitespace",
            input: b"<< % comment\n /Key1 1 % another\n /Key2 (two) \t /Key3 /three \n>>",
            expected: true,
            expected_result: Some(dict_from([
                ("Key1".to_string(), Object::Numeric(Numeric::Integer(1))),
                (
                    "Key2".to_string(),
                    Object::String(PdfString::Literal("two".to_string())),
                ),
                ("Key3".to_string(), Object::Name("three".to_string())),
            ])),
            expected_remainder: Some(b""),
        },
        TestCase {
            name: "valid dictionary with nested structures",
            input: b"<< /Array [1 2 3] /Nested << /SubKey true >> >>",
            expected: true,
            expected_result: Some(dict_from([
                (
                    "Array".to_string(),
                    Object::Array(
                        vec![
                            Object::Numeric(Numeric::Integer(1)),
                            Object::Numeric(Numeric::Integer(2)),
                            Object::Numeric(Numeric::Integer(3)),
                        ]
                        .into(),
                    ),
                ),
                (
                    "Nested".to_string(),
                    Object::Dictionary(dict_from([(
                        "SubKey".to_string(),
                        Object::Boolean(true),
                    )])),
                ),
            ])),
            expected_remainder: Some(b""),
        },
        TestCase {
            name: "dictionary with remainder",
            input: b"<< /Key 42 >>rest",
            expected: true,
            expected_result: Some(dict_from([(
                "Key".to_string(),
                Object::Numeric(Numeric::Integer(42)),
            )])),
            expected_remainder: Some(b"rest"),
        },
        TestCase {
            name: "partial xref dictionary",
            input: b"<</Type/XRef/Size 139>>",
            expected: true,
            expected_result: Some(dict_from([
                ("Type".to_string(), Object::Name(String::from("XRef"))),
                ("Size".to_string(), Object::Numeric(Numeric::Integer(139))),
            ])),
            expected_remainder: Some(b""),
        },
        TestCase {
            name: "partial info dictionary",
            input: b"<<
                % XML Metadata
                /CreationDate (D:20211230134641+11'00')
                /Creator      (By hand)
                /ModDate      (D:20211230134824+11'00')
                /Producer     (By hand)
                /Subject      (test file)
                >>",
            expected: true,
            expected_result: Some(dict_from([
                (
                    "CreationDate".to_string(),
                    Object::String(PdfString::Literal("D:20211230134641+11'00'".to_string())),
                ),
                (
                    "Creator".to_string(),
                    Object::String(PdfString::Literal("By hand".to_string())),
                ),
                (
                    "ModDate".to_string(),
                    Object::String(PdfString::Literal("D:20211230134824+11'00'".to_string())),
                ),
                (
                    "Producer".to_string(),
                    Object::String(PdfString::Literal("By hand".to_string())),
                ),
                (
                    "Subject".to_string(),
                    Object::String(PdfString::Literal("test file".to_string())),
                ),
            ])),
            expected_remainder: Some(b""),
        },
        // Invalid dictionaries
        TestCase {
            name: "invalid unclosed dictionary",
            input: b"<< /Key 42",
            expected: false,
            expected_result: None,
            expected_remainder: None,
        },
        TestCase {
            name: "invalid content before dictionary",
            input: b"prefix<< /Key 42 >>",
            expected: false,
            expected_result: None,
            expected_remainder: None,
        },
        TestCase {
            name: "invalid missing value",
            input: b"<< /Key >>",
            expected: false,
            expected_result: None,
            expected_remainder: None,
        },
    ];

    for case in &test_cases {
        let result = dictionary(case.input);
        assert_eq!(
            result.is_ok(),
            case.expected,
            "Test '{}' failed: expected success: {}",
            case.name,
            case.expected,
        );

        if case.expected {
            let (actual_remainder, actual_dict) = result.unwrap();
            assert_eq!(
                actual_dict,
                *case.expected_result.as_ref().unwrap(),
                "Test '{}' failed: expected result: {:?}, got: {:?}",
                case.name,
                case.expected_result,
                actual_dict
            );
            assert_eq!(
                actual_remainder,
                case.expected_remainder.unwrap(),
                "Test '{}' failed: expected remainder: {:?}, got: {:?}",
                case.name,
                case.expected_remainder,
                actual_remainder
            );
        }
    }
}

#[test]
fn test_indirect_object_parser() {
    #[derive(Debug)]
    struct TestCase {
        name: &'static str,
        input: &'static [u8],
        expected: bool,
        expected_id: Option<usize>,
        expected_gen_id: Option<usize>,
        expected_object: Option<Object>,
        expected_remainder: Option<&'static [u8]>,
    }

    let test_cases = [
        // Valid indirect objects
        TestCase {
            name: "minimal valid indirect object",
            input: b"1 0 obj true endobj",
            expected: true,
            expected_id: Some(1),
            expected_gen_id: Some(0),
            expected_object: Some(Object::Boolean(true)),
            expected_remainder: Some(b""),
        },
        TestCase {
            name: "indirect object with string content",
            input: b"2 0 obj (Hello) endobj",
            expected: true,
            expected_id: Some(2),
            expected_gen_id: Some(0),
            expected_object: Some(Object::String(PdfString::Literal(
                String::from_utf8(b"Hello".to_vec()).unwrap(),
            ))),
            expected_remainder: Some(b""),
        },
        TestCase {
            name: "indirect object with numeric content",
            input: b"3 1 obj 42 endobj",
            expected: true,
            expected_id: Some(3),
            expected_gen_id: Some(1),
            expected_object: Some(Object::Numeric(Numeric::Integer(42))),
            expected_remainder: Some(b""),
        },
        TestCase {
            name: "indirect object with comments and whitespace",
            input: b"4\t0%comment\nobj%comment\n[1 2 3]%comment\nendobj",
            expected: true,
            expected_id: Some(4),
            expected_gen_id: Some(0),
            expected_object: Some(Object::Array(
                vec![
                    Object::Numeric(Numeric::Integer(1)),
                    Object::Numeric(Numeric::Integer(2)),
                    Object::Numeric(Numeric::Integer(3)),
                ]
                .into(),
            )),
            expected_remainder: Some(b""),
        },
        TestCase {
            name: "indirect object with trailing content",
            input: b"5 0 obj null endobjrest",
            expected: true,
            expected_id: Some(5),
            expected_gen_id: Some(0),
            expected_object: Some(Object::Null),
            expected_remainder: Some(b"rest"),
        },
        // Invalid indirect objects
        TestCase {
            name: "missing endobj",
            input: b"6 0 obj true",
            expected: false,
            expected_id: None,
            expected_gen_id: None,
            expected_object: None,
            expected_remainder: None,
        },
        TestCase {
            name: "invalid generation number",
            input: b"7 x obj true endobj",
            expected: false,
            expected_id: None,
            expected_gen_id: None,
            expected_object: None,
            expected_remainder: None,
        },
        TestCase {
            name: "missing object content",
            input: b"8 0 obj endobj",
            expected: false,
            expected_id: None,
            expected_gen_id: None,
            expected_object: None,
            expected_remainder: None,
        },
    ];

    for case in &test_cases {
        let result = indirect_object(case.input);
        assert_eq!(
            result.is_ok(),
            case.expected,
            "Test '{}' failed: expected success: {}",
            case.name,
            case.expected
        );

        if let Ok((actual_remainder, actual)) = result {
            let expected_object = case.expected_object.as_ref().unwrap();
            assert_eq!(
                actual.id,
                case.expected_id.unwrap(),
                "Test '{}' failed: expected id: {:?}, got: {:?}",
                case.name,
                case.expected_id,
                actual.id
            );
            assert_eq!(
                actual.gen_id,
                case.expected_gen_id.unwrap(),
                "Test '{}' failed: expected gen_id: {:?}, got: {:?}",
                case.name,
                case.expected_gen_id,
                actual.gen_id
            );
            assert_eq!(
                *actual.get_object(),
                *expected_object,
                "Test '{}' failed: expected object: {:?}, got: {:?}",
                case.name,
                case.expected_object,
                *actual.get_object()
            );
            assert_eq!(
                actual_remainder,
                case.expected_remainder.unwrap(),
                "Test '{}' failed: expected remainder: {:?}, got: {:?}",
                case.name,
                case.expected_remainder,
                actual_remainder
            );
        }
    }
}

#[test]
fn test_indirect_reference_parser() {
    #[derive(Debug)]
    struct TestCase {
        name: &'static str,
        input: &'static [u8],
        expected: bool,
        expected_id: Option<usize>,
        expected_gen_id: Option<usize>,
        expected_remainder: Option<&'static [u8]>,
    }

    let test_cases = [
        // Valid references
        TestCase {
            name: "minimal valid reference",
            input: b"1 0 R",
            expected: true,
            expected_id: Some(1),
            expected_gen_id: Some(0),
            expected_remainder: Some(b""),
        },
        TestCase {
            name: "reference with whitespace",
            input: b"2\t0  R",
            expected: true,
            expected_id: Some(2),
            expected_gen_id: Some(0),
            expected_remainder: Some(b""),
        },
        TestCase {
            name: "reference with comments",
            input: b"3%comment\n0%comment\nR",
            expected: true,
            expected_id: Some(3),
            expected_gen_id: Some(0),
            expected_remainder: Some(b""),
        },
        TestCase {
            name: "reference with trailing content",
            input: b"4 0 Rrest",
            expected: true,
            expected_id: Some(4),
            expected_gen_id: Some(0),
            expected_remainder: Some(b"rest"),
        },
        // Invalid references
        TestCase {
            name: "missing R",
            input: b"5 0",
            expected: false,
            expected_id: None,
            expected_gen_id: None,
            expected_remainder: None,
        },
        TestCase {
            name: "invalid generation number",
            input: b"6 x R",
            expected: false,
            expected_id: None,
            expected_gen_id: None,
            expected_remainder: None,
        },
        TestCase {
            name: "missing generation number",
            input: b"7 R",
            expected: false,
            expected_id: None,
            expected_gen_id: None,
            expected_remainder: None,
        },
    ];

    for case in &test_cases {
        let result = indirect_reference(case.input);
        assert_eq!(
            result.is_ok(),
            case.expected,
            "Test '{}' failed: expected success: {}",
            case.name,
            case.expected
        );

        if let Ok((actual_remainder, actual)) = result {
            assert_eq!(
                actual.id,
                case.expected_id.unwrap(),
                "Test '{}' failed: expected id: {:?}, got: {:?}",
                case.name,
                case.expected_id,
                actual.id
            );
            assert_eq!(
                actual.gen_id,
                case.expected_gen_id.unwrap(),
                "Test '{}' failed: expected gen_id: {:?}, got: {:?}",
                case.name,
                case.expected_gen_id,
                actual.gen_id
            );
            assert_eq!(
                actual_remainder,
                case.expected_remainder.unwrap(),
                "Test '{}' failed: expected remainder: {:?}, got: {:?}",
                case.name,
                case.expected_remainder,
                actual_remainder
            );
        }
    }
}

#[test]
fn test_string_parser() {
    #[derive(Debug)]
    struct TestCase {
        name: &'static str,
        input: &'static [u8],
        expected: bool,
        expected_result: Option<PdfString>,
        expected_remainder: Option<&'static [u8]>,
    }

    let test_cases = [
        // Valid literal strings
        TestCase {
            name: "valid simple literal string",
            input: b"(hello)",
            expected: true,
            expected_result: Some(PdfString::Literal("hello".to_string())),
            expected_remainder: Some(b""),
        },
        TestCase {
            name: "valid literal with escape sequences",
            input: b"(hello\\nworld\\r\\t\\b\\f\\(\\)\\\\\\12)",
            expected: true,
            expected_result: Some(PdfString::Literal(
                "hello\nworld\r\t\x08\x0C()\\\n".to_string(),
            )),
            expected_remainder: Some(b""),
        },
        TestCase {
            name: "valid literal with whitespace escape",
            input: b"(hello\\ world)",
            expected: true,
            expected_result: Some(PdfString::Literal("helloworld".to_string())),
            expected_remainder: Some(b""),
        },
        TestCase {
            name: "valid literal with nested parentheses",
            input: b"(hello (nested) world)",
            expected: true,
            expected_result: Some(PdfString::Literal("hello (nested) world".to_string())),
            expected_remainder: Some(b""),
        },
        TestCase {
            name: "valid literal with octal escape",
            input: b"(\\101)",
            expected: true,
            expected_result: Some(PdfString::Literal("A".to_string())),
            expected_remainder: Some(b""),
        },
        TestCase {
            name: "valid literal with multiple octal escapes",
            input: b"(\\101\\102\\103)",
            expected: true,
            expected_result: Some(PdfString::Literal("ABC".to_string())),
            expected_remainder: Some(b""),
        },
        TestCase {
            name: "valid literal with mixed content",
            input: b"(Mix\\055ed\\040Content)",
            expected: true,
            expected_result: Some(PdfString::Literal("Mix-ed Content".to_string())),
            expected_remainder: Some(b""),
        },
        TestCase {
            name: "valid empty literal string",
            input: b"()",
            expected: true,
            expected_result: Some(PdfString::Literal("".to_string())),
            expected_remainder: Some(b""),
        },
        // Valid hexadecimal strings
        TestCase {
            name: "valid simple hex string",
            input: b"<48656C6C6F>",
            expected: true,
            expected_result: Some(PdfString::Hexadecimal(vec![0x48, 0x65, 0x6C, 0x6C, 0x6F])),
            expected_remainder: Some(b""),
        },
        TestCase {
            name: "valid hex with whitespace",
            input: b"<48 65 6C 6C 6F>",
            expected: true,
            expected_result: Some(PdfString::Hexadecimal(vec![0x48, 0x65, 0x6C, 0x6C, 0x6F])),
            expected_remainder: Some(b""),
        },
        TestCase {
            name: "valid hex with odd digits",
            input: b"<4>",
            expected: true,
            expected_result: Some(PdfString::Hexadecimal(vec![0x40])),
            expected_remainder: Some(b""),
        },
        TestCase {
            name: "valid hex with multiple odd digits",
            input: b"<41424>",
            expected: true,
            expected_result: Some(PdfString::Hexadecimal(vec![0x41, 0x42, 0x40])),
            expected_remainder: Some(b""),
        },
        TestCase {
            name: "valid empty hex string",
            input: b"<>",
            expected: true,
            expected_result: Some(PdfString::Hexadecimal(vec![])),
            expected_remainder: Some(b""),
        },
        TestCase {
            name: "valid hex with mixed case",
            input: b"<4a6B>",
            expected: true,
            expected_result: Some(PdfString::Hexadecimal(vec![0x4A, 0x6B])),
            expected_remainder: Some(b""),
        },
        // Valid with remainder
        TestCase {
            name: "literal with remainder",
            input: b"(hello)world",
            expected: true,
            expected_result: Some(PdfString::Literal("hello".to_string())),
            expected_remainder: Some(b"world"),
        },
        TestCase {
            name: "hex with remainder",
            input: b"<68656C6C6F>world",
            expected: true,
            expected_result: Some(PdfString::Hexadecimal(vec![0x68, 0x65, 0x6C, 0x6C, 0x6F])),
            expected_remainder: Some(b"world"),
        },
        // Invalid cases
        TestCase {
            name: "invalid literal unclosed",
            input: b"(hello",
            expected: false,
            expected_result: None,
            expected_remainder: None,
        },
        TestCase {
            name: "invalid hex unclosed",
            input: b"<68656C6C6F",
            expected: false,
            expected_result: None,
            expected_remainder: None,
        },
        TestCase {
            name: "invalid escape sequence",
            input: b"(hello\\xworld)",
            expected: false,
            expected_result: None,
            expected_remainder: None,
        },
        TestCase {
            name: "invalid octal escape",
            input: b"(\\888)",
            expected: false,
            expected_result: None,
            expected_remainder: None,
        },
        TestCase {
            name: "invalid hex characters",
            input: b"<GAG>",
            expected: false,
            expected_result: None,
            expected_remainder: None,
        },
        TestCase {
            name: "unbalanced parentheses",
            input: b"(hello(world)",
            expected: false,
            expected_result: None,
            expected_remainder: None,
        },
    ];

    for case in &test_cases {
        let result = pdf_string(case.input);
        assert_eq!(
            result.is_ok(),
            case.expected,
            "Test '{}' failed: expected success: {}, got: {:?}",
            case.name,
            case.expected,
            result
        );

        if case.expected {
            let (actual_remainder, result_str) = result.unwrap();
            assert_eq!(
                &result_str,
                case.expected_result.as_ref().unwrap(),
                "Test '{}' failed: expected result: {:?}, got: {:?}",
                case.name,
                case.expected_result,
                result_str
            );
            assert_eq!(
                actual_remainder,
                case.expected_remainder.unwrap(),
                "Test '{}' failed: expected remainder: {:?}, got: {:?}",
                case.name,
                case.expected_remainder,
                actual_remainder
            );
        }
    }
}

#[test]
fn test_object_parser() {
    #[derive(Debug)]
    struct TestCase {
        name: &'static str,
        input: &'static [u8],
        expected: bool,
        expected_value: Option<Object>,
        expected_remainder: Option<&'static [u8]>,
    }

    let test_cases = [
        // Boolean tests
        TestCase {
            name: "boolean true",
            input: b"true",
            expected: true,
            expected_value: Some(Object::Boolean(true)),
            expected_remainder: Some(b""),
        },
        TestCase {
            name: "boolean false",
            input: b"false",
            expected: true,
            expected_value: Some(Object::Boolean(false)),
            expected_remainder: Some(b""),
        },
        // Numeric tests
        TestCase {
            name: "integer numeric",
            input: b"123",
            expected: true,
            expected_value: Some(Object::Numeric(Numeric::Integer(123))),
            expected_remainder: Some(b""),
        },
        TestCase {
            name: "real numeric",
            input: b"3.14",
            expected: true,
            expected_value: Some(Object::Numeric(real_text(3.14))),
            expected_remainder: Some(b""),
        },
        // String tests
        TestCase {
            name: "literal string",
            input: b"(Hello World)",
            expected: true,
            expected_value: Some(Object::String(PdfString::Literal(
                "Hello World".to_string(),
            ))),
            expected_remainder: Some(b""),
        },
        TestCase {
            name: "hex string",
            input: b"<48656C6C6F>",
            expected: true,
            expected_value: Some(Object::String(PdfString::Hexadecimal(vec![
                0x48, 0x65, 0x6C, 0x6C, 0x6F,
            ]))),
            expected_remainder: Some(b""),
        },
        // Name tests
        TestCase {
            name: "name object",
            input: b"/FontName",
            expected: true,
            expected_value: Some(Object::Name("FontName".to_string())),
            expected_remainder: Some(b""),
        },
        // Null test
        TestCase {
            name: "null object",
            input: b"null",
            expected: true,
            expected_value: Some(Object::Null),
            expected_remainder: Some(b""),
        },
        // Array test
        TestCase {
            name: "array object",
            input: b"[1 2 /Three]",
            expected: true,
            expected_value: Some(Object::Array(
                vec![
                    Object::Numeric(Numeric::Integer(1)),
                    Object::Numeric(Numeric::Integer(2)),
                    Object::Name("Three".to_string()),
                ]
                .into(),
            )),
            expected_remainder: Some(b""),
        },
        // Dictionary test
        TestCase {
            name: "dictionary object",
            input: b"<< /Key (Value) >>",
            expected: true,
            expected_value: Some(Object::Dictionary(dict_from([(
                    "Key".to_string(),
                    Object::String(PdfString::Literal("Value".to_string())),
                )]))),
            expected_remainder: Some(b""),
        },
        // Indirect reference test
        TestCase {
            name: "indirect reference",
            input: b"1 0 R",
            expected: true,
            expected_value: Some(Object::IndirectReference(IndirectReference {
                id: 1,
                gen_id: 0,
            })),
            expected_remainder: Some(b""),
        },
        // Stream test (simplified)
        TestCase {
            name: "stream object",
            input: b"<< /Length 10 >> stream\n0123456789\nendstream",
            expected: true,
            expected_value: Some(Object::Stream(Stream {
                dictionary: dict_from([(
                    "Length".to_string(),
                    Object::Numeric(Numeric::Integer(10)),
                )]),
                data: b"0123456789".to_vec(),
            })),
            expected_remainder: Some(b""),
        },
        // Error cases
        TestCase {
            name: "invalid input",
            input: b"invalid",
            expected: false,
            expected_value: None,
            expected_remainder: None,
        },
    ];

    for case in &test_cases {
        let result = object(case.input);
        assert_eq!(
            result.is_ok(),
            case.expected,
            "Test '{}' failed: expected success: {}",
            case.name,
            case.expected,
        );

        if case.expected {
            let (actual_remainder, actual_value) = result.unwrap();
            assert_eq!(
                actual_value,
                case.expected_value.as_ref().unwrap().copy(),
                "Test '{}' failed: expected value: {:?}, got: {:?}",
                case.name,
                case.expected_value,
                actual_value
            );
            assert_eq!(
                actual_remainder,
                case.expected_remainder.unwrap(),
                "Test '{}' failed: expected remainder: {:?}, got: {:?}",
                case.name,
                case.expected_remainder,
                actual_remainder
            );
        }
    }
}

#[test]
fn test_stream_parser() {
    #[derive(Debug)]
    struct TestCase {
        name: &'static str,
        input: &'static [u8],
        expected: bool,
        expected_dict: Option<Dictionary>,
        expected_content: Option<Vec<u8>>,
        expected_remainder: Option<&'static [u8]>,
    }

    let test_cases = [
        // Valid streams
        TestCase {
            name: "valid minimal stream",
            input: b"<<>>stream\nendstream",
            expected: true,
            expected_dict: Some(Dictionary::new()),
            expected_content: Some(vec![]),
            expected_remainder: Some(b""),
        },
        TestCase {
            name: "valid stream with content",
            input: b"<< /Length 5 >>stream\nhelloendstream",
            expected: true,
            expected_dict: Some(dict_from([(
                    "Length".to_string(),
                    Object::Numeric(Numeric::Integer(5)),
                )])),
            expected_content: Some(b"hello".to_vec()),
            expected_remainder: Some(b""),
        },
        TestCase {
            name: "valid stream with CRLF",
            input: b"<< /Length 5 >>stream\r\nhelloendstream",
            expected: true,
            expected_dict: Some(dict_from([(
                    "Length".to_string(),
                    Object::Numeric(Numeric::Integer(5)),
                )])),
            expected_content: Some(b"hello".to_vec()),
            expected_remainder: Some(b""),
        },
        TestCase {
            name: "valid stream with comments and whitespace",
            input: b"<< /Length 5 >> % comment\n\t stream\nhelloendstream",
            expected: true,
            expected_dict: Some(dict_from([(
                    "Length".to_string(),
                    Object::Numeric(Numeric::Integer(5)),
                )])),
            expected_content: Some(b"hello".to_vec()),
            expected_remainder: Some(b""),
        },
        TestCase {
            name: "valid stream with remainder",
            input: b"<< /Length 5 >>stream\nhelloendstreamrest",
            expected: true,
            expected_dict: Some(dict_from([(
                    "Length".to_string(),
                    Object::Numeric(Numeric::Integer(5)),
                )])),
            expected_content: Some(b"hello".to_vec()),
            expected_remainder: Some(b"rest"),
        },
        // Invalid streams
        TestCase {
            name: "invalid missing stream keyword",
            input: b"<< /Length 5 >>helloendstream",
            expected: false,
            expected_dict: None,
            expected_content: None,
            expected_remainder: None,
        },
        TestCase {
            name: "invalid missing endstream",
            input: b"<< /Length 5 >>stream\nhello",
            expected: false,
            expected_dict: None,
            expected_content: None,
            expected_remainder: None,
        },
        TestCase {
            name: "invalid unclosed dictionary",
            input: b"<< /Length 5 stream\nhelloendstream",
            expected: false,
            expected_dict: None,
            expected_content: None,
            expected_remainder: None,
        },
        TestCase {
            name: "invalid content before dictionary",
            input: b"prefix<<>>stream\nendstream",
            expected: false,
            expected_dict: None,
            expected_content: None,
            expected_remainder: None,
        },
    ];

    for case in &test_cases {
        let result = stream(case.input);
        assert_eq!(
            result.is_ok(),
            case.expected,
            "Test '{}' failed: expected success: {}",
            case.name,
            case.expected,
        );

        if case.expected {
            let (actual_remainder, actual_stream) = result.unwrap();
            assert_eq!(
                actual_stream.dictionary,
                *case.expected_dict.as_ref().unwrap(),
                "Test '{}' failed: expected dictionary: {:?}, got: {:?}",
                case.name,
                case.expected_dict,
                actual_stream.dictionary
            );
            assert_eq!(
                actual_stream.data,
                *case.expected_content.as_ref().unwrap(),
                "Test '{}' failed: expected content: {:?}, got: {:?}",
                case.name,
                case.expected_content,
                actual_stream.data
            );
            assert_eq!(
                actual_remainder,
                case.expected_remainder.unwrap(),
                "Test '{}' failed: expected remainder: {:?}, got: {:?}",
                case.name,
                case.expected_remainder,
                actual_remainder
            );
        }
    }
}

#[test]
fn test_startxref_parser() {
    #[derive(Debug)]
    struct TestCase {
        name: &'static str,
        input: &'static [u8],
        expected: bool,
        expected_value: Option<u64>,
        expected_remainder: Option<&'static [u8]>,
    }

    let test_cases = [
        // Valid startxref
        TestCase {
            name: "valid startxref",
            input: b"startxref\n12345\n%%EOF",
            expected: true,
            expected_value: Some(12345),
            expected_remainder: Some(b""),
        },
        TestCase {
            name: "valid startxref with content before",
            input: b"some content\nstartxref\n67890\n%%EOF",
            expected: true,
            expected_value: Some(67890),
            expected_remainder: Some(b""),
        },
        TestCase {
            name: "valid startxref with remainder",
            input: b"startxref\n9999\n%%EOFremaining",
            expected: true,
            expected_value: Some(9999),
            expected_remainder: Some(b"remaining"),
        },
        // Invalid startxref
        TestCase {
            name: "invalid missing startxref",
            input: b"12345\n%%EOF",
            expected: false,
            expected_value: None,
            expected_remainder: None,
        },
        TestCase {
            name: "invalid missing %%EOF",
            input: b"startxref\n12345",
            expected: false,
            expected_value: None,
            expected_remainder: None,
        },
        TestCase {
            name: "invalid non-numeric offset",
            input: b"startxref\nabc\n%%EOF",
            expected: false,
            expected_value: None,
            expected_remainder: None,
        },
    ];

    for case in &test_cases {
        let result = read_startxref(case.input);
        assert_eq!(
            result.is_ok(),
            case.expected,
            "Test '{}' failed: expected success: {}",
            case.name,
            case.expected,
        );

        if case.expected {
            let (actual_remainder, actual_value) = result.unwrap();
            assert_eq!(
                actual_value,
                case.expected_value.unwrap(),
                "Test '{}' failed: expected value: {:?}, got: {:?}",
                case.name,
                case.expected_value,
                actual_value
            );
            assert_eq!(
                actual_remainder,
                case.expected_remainder.unwrap(),
                "Test '{}' failed: expected remainder: {:?}, got: {:?}",
                case.name,
                case.expected_remainder,
                actual_remainder
            );
        }
    }
}

#[test]
fn test_xref_table_parser() {
    #[derive(Debug)]
    struct TestCase {
        name: &'static str,
        input: &'static [u8],
        expected: bool,
        expected_sections: Option<usize>,
        expected_entries: Option<usize>,
        expected_remainder: Option<&'static [u8]>,
    }

    let test_cases = [
        // Valid xref tables
        TestCase {
            name: "valid minimal xref table",
            input: b"xref\n0 1\n0000000000 65535 f \n",
            expected: true,
            expected_sections: Some(1),
            expected_entries: Some(1),
            expected_remainder: Some(b""),
        },
        TestCase {
            name: "valid xref table with multiple sections",
            input: b"xref\n0 2\n0000000000 65535 f \n0000000010 00001 n \n3 1\n0000000020 00002 n \n",
            expected: true,
            expected_sections: Some(2),
            expected_entries: Some(3),
            expected_remainder: Some(b""),
        },
        TestCase {
            name: "valid xref table with remainder",
            input: b"xref\n0 1\n0000000000 65535 f \ntrailer",
            expected: true,
            expected_sections: Some(1),
            expected_entries: Some(1),
            expected_remainder: Some(b"trailer"),
        },
        // Invalid xref tables
        TestCase {
            name: "invalid missing xref keyword",
            input: b"0 1\n0000000000 65535 f \n",
            expected: false,
            expected_sections: None,
            expected_entries: None,
            expected_remainder: None,
        },
    ];

    for case in &test_cases {
        let result = read_xref(case.input);
        assert_eq!(
            result.is_ok(),
            case.expected,
            "Test '{}' failed: expected success: {}",
            case.name,
            case.expected,
        );

        if case.expected {
            let (actual_remainder, actual_xref) = result.unwrap();

            if let XrefObject::Table(sections) = actual_xref {
                let total_entries: Vec<XrefTableEntry> = sections
                    .clone()
                    .into_iter()
                    .flat_map(|section| section.entries)
                    .collect();

                assert_eq!(
                    sections.len(),
                    case.expected_sections.unwrap(),
                    "Test '{}' failed: expected sections: {:?}, got: {:?}",
                    case.name,
                    case.expected_sections,
                    sections.len()
                );
                assert_eq!(
                    total_entries.len(),
                    case.expected_entries.unwrap(),
                    "Test '{}' failed: expected entries: {:?}, got: {:?}, total_entries: {:?}",
                    case.name,
                    case.expected_entries.unwrap(),
                    total_entries.len(),
                    total_entries,
                );
                assert_eq!(
                    actual_remainder,
                    case.expected_remainder.unwrap(),
                    "Test '{}' failed: expected remainder: {:?}, got: {:?}",
                    case.name,
                    case.expected_remainder,
                    actual_remainder
                );
            } else {
                panic!(
                    "Test '{}' failed: expected Xref::Table, got different variant. Got: {:?}",
                    case.name, actual_xref,
                );
            }
        }
    }
}

#[test]
fn test_trailer_parser() {
    #[derive(Debug)]
    struct TestCase {
        name: &'static str,
        input: &'static [u8],
        expected: bool,
        expected_dict: Option<Dictionary>,
        expected_remainder: Option<&'static [u8]>,
    }

    let test_cases = [
        // Valid trailers
        TestCase {
            name: "valid minimal trailer",
            input: b"trailer<<>>",
            expected: true,
            expected_dict: Some(Dictionary::new()),
            expected_remainder: Some(b""),
        },
        TestCase {
            name: "valid trailer with dictionary",
            input: b"trailer<</Size 10/Root 1 0 R>>",
            expected: true,
            expected_dict: Some(dict_from([
                    ("Size".to_string(), Object::Numeric(Numeric::Integer(10))),
                    (
                        "Root".to_string(),
                        Object::IndirectReference(IndirectReference { id: 1, gen_id: 0 }),
                    ),
                ])),
            expected_remainder: Some(b""),
        },
        TestCase {
            name: "valid trailer with whitespace",
            input: b"trailer \n\t << /Size 10 >>",
            expected: true,
            expected_dict: Some(dict_from([(
                    "Size".to_string(),
                    Object::Numeric(Numeric::Integer(10)),
                )])),
            expected_remainder: Some(b""),
        },
        TestCase {
            name: "valid trailer with whitespace in begining",
            input: b"\n\t trailer \n\t << /Size 10 >>",
            expected: true,
            expected_dict: Some(dict_from([(
                    "Size".to_string(),
                    Object::Numeric(Numeric::Integer(10)),
                )])),
            expected_remainder: Some(b""),
        },
        TestCase {
            name: "valid trailer with remainder",
            input: b"trailer<</Size 10>>startxref",
            expected: true,
            expected_dict: Some(dict_from([(
                    "Size".to_string(),
                    Object::Numeric(Numeric::Integer(10)),
                )])),
            expected_remainder: Some(b"startxref"),
        },
        // Invalid trailers
        TestCase {
            name: "invalid missing trailer keyword",
            input: b"<< /Size 10 >>",
            expected: false,
            expected_dict: None,
            expected_remainder: None,
        },
        TestCase {
            name: "invalid malformed dictionary",
            input: b"trailer<</Size 10",
            expected: false,
            expected_dict: None,
            expected_remainder: None,
        },
    ];

    for case in &test_cases {
        let result = read_trailer(case.input);
        assert_eq!(
            result.is_ok(),
            case.expected,
            "Test '{}' failed: expected success: {}",
            case.name,
            case.expected,
        );

        if case.expected {
            let (actual_remainder, actual_dict) = result.unwrap();
            assert_eq!(
                actual_dict,
                *case.expected_dict.as_ref().unwrap(),
                "Test '{}' failed: expected dictionary: {:?}, got: {:?}",
                case.name,
                case.expected_dict,
                actual_dict
            );
            assert_eq!(
                actual_remainder,
                case.expected_remainder.unwrap(),
                "Test '{}' failed: expected remainder: {:?}, got: {:?}",
                case.name,
                case.expected_remainder,
                actual_remainder
            );
        }
    }
}

#[test]
fn test_object_stream_header_parser() {
    #[derive(Debug)]
    struct TestCase {
        name: &'static str,
        input: &'static [u8],
        n: usize,
        expected: bool,
        expected_value: Option<Vec<(usize, usize)>>,
    }

    let test_cases = [
        // Valid object stream headers
        TestCase {
            name: "valid single object stream header",
            input: b"123 456",
            n: 1,
            expected: true,
            expected_value: Some(vec![(123, 456)]),
        },
        TestCase {
            name: "valid multiple object stream headers",
            input: b"123 456\n789 012\n345 678",
            n: 3,
            expected: true,
            expected_value: Some(vec![(123, 456), (789, 12), (345, 678)]),
        },
        TestCase {
            name: "valid object stream headers with whitespace",
            input: b"123 456 \n 789 012 \t\n 345 678",
            n: 3,
            expected: true,
            expected_value: Some(vec![(123, 456), (789, 12), (345, 678)]),
        },
        TestCase {
            name: "valid object stream headers with comments",
            input: b"123 456 % comment\n789 012 % another comment\n345 678",
            n: 3,
            expected: true,
            expected_value: Some(vec![(123, 456), (789, 12), (345, 678)]),
        },
        TestCase {
            name: "valid object stream headers mixed separators",
            input: b"123 456\n789 012\t345 678",
            n: 3,
            expected: true,
            expected_value: Some(vec![(123, 456), (789, 12), (345, 678)]),
        },
        TestCase {
            name: "valid object stream headers with extra content",
            input: b"123 456\n789 012\n345 678\n999 000",
            n: 3,
            expected: true,
            expected_value: Some(vec![(123, 456), (789, 12), (345, 678)]),
        },
        // Invalid object stream headers
        TestCase {
            name: "invalid insufficient data",
            input: b"123 456",
            n: 2,
            expected: false,
            expected_value: None,
        },
        TestCase {
            name: "invalid non-numeric first value",
            input: b"abc 456",
            n: 1,
            expected: false,
            expected_value: None,
        },
        TestCase {
            name: "invalid non-numeric second value",
            input: b"123 def",
            n: 1,
            expected: false,
            expected_value: None,
        },
        TestCase {
            name: "invalid missing second value",
            input: b"123",
            n: 1,
            expected: false,
            expected_value: None,
        },
        TestCase {
            name: "invalid empty input",
            input: b"",
            n: 1,
            expected: false,
            expected_value: None,
        },
        TestCase {
            name: "zero count",
            input: b"123 456",
            n: 0,
            expected: true,
            expected_value: Some(vec![]),
        },
    ];

    for case in &test_cases {
        let result = read_object_stream_header(case.input, case.n);
        assert_eq!(
            result.is_ok(),
            case.expected,
            "Test '{}' failed: expected success: {}, got: {:?}",
            case.name,
            case.expected,
            result
        );

        if case.expected {
            let actual_value = result.unwrap();
            assert_eq!(
                actual_value,
                *case.expected_value.as_ref().unwrap(),
                "Test '{}' failed: expected value: {:?}, got: {:?}",
                case.name,
                case.expected_value,
                actual_value
            );
        }
    }
}

#[test]
fn test_object_stream_header_edge_cases() {
    // Test with maximum usize values
    let max_usize = usize::MAX.to_string();
    let input = format!("{} {}", max_usize, max_usize).into_bytes();
    let result = read_object_stream_header(&input, 1);
    assert!(result.is_ok());
    assert_eq!(result.unwrap(), vec![(usize::MAX, usize::MAX)]);

    // Test with minimum values
    let input = b"0 0";
    let result = read_object_stream_header(input, 1);
    assert!(result.is_ok());
    assert_eq!(result.unwrap(), vec![(0, 0)]);

    // Test with very large count (though in practice object streams are limited)
    let input = b"1 2 3 4 5 6 7 8 9 10 11 12 13 14 15 16 17 18 19 20";
    let result = read_object_stream_header(input, 10);
    assert!(result.is_ok());
    assert_eq!(
        result.unwrap(),
        vec![
            (1, 2),
            (3, 4),
            (5, 6),
            (7, 8),
            (9, 10),
            (11, 12),
            (13, 14),
            (15, 16),
            (17, 18),
            (19, 20)
        ]
    );
}

#[test]
fn test_process_bytes() {
    #[derive(Debug)]
    struct Case {
        data: &'static [u8],
        should_pass: bool,
        expected_output: Option<&'static str>,
        expected_data: Option<Vec<Vec<u8>>>,
        description: &'static str,
    }

    let cases = vec![
        Case {
            data: b"Hello stream\r\nThis is a test \nendstream world!",
            should_pass: true,
            expected_output: Some("Hello stream\r\n{ID0}\nendstream world!"),
            expected_data: Some(vec![b"This is a test ".to_vec()]),
            description: "Normal case with stream and endstream",
        },
        Case {
            data: b"Data before stream some data without end marker",
            should_pass: false,
            expected_output: Some("Data before stream some data without end marker"),
            expected_data: Some(vec![]),
            description: "Missing endstream after stream",
        },
        Case {
            data: b"Valid text \xFF\xFE stream data endstream",
            should_pass: false,
            expected_output: None,
            expected_data: None,
            description: "Invalid UTF-8 outside streams",
        },
        Case {
            data: b"Just some normal text without any markers.",
            should_pass: true,
            expected_output: Some("Just some normal text without any markers."),
            expected_data: Some(vec![]),
            description: "Data with no stream markers",
        },
        Case {
            data: b"First stream\r\nData1 \nendstream between stream\nData2 \nendstream end.",
            should_pass: true,
            expected_output: Some(
                "First stream\r\n{ID0}\nendstream between stream\n{ID1}\nendstream end.",
            ),
            expected_data: Some(vec![b"Data1 ".to_vec(), b"Data2 ".to_vec()]),
            description: "Multiple streams in data",
        },
        Case {
            data: b"Line1\nstream\r\nData\r\nendstream\rLine2\r\n",
            should_pass: true,
            expected_output: Some("Line1\nstream\r\n{ID0}\r\nendstream\rLine2\r\n"),
            expected_data: Some(vec![b"Data".to_vec()]),
            description: "Handling CRLF and LF after markers",
        },
        Case {
            data: b"stream\r\n\xFF\xFE\r\nendstream",
            should_pass: true,
            expected_output: Some("stream\r\n{ID0}\r\nendstream"),
            expected_data: Some(vec![b"\xFF\xFE".to_vec()]),
            description: "Invalid UTF-8 inside stream chunk",
        },
        Case {
            data: b"",
            should_pass: true,
            expected_output: Some(""),
            expected_data: Some(vec![]),
            description: "Empty data",
        },
    ];

    for case in cases {
        let result = process_bytes(case.data.to_vec());

        if case.should_pass {
            assert!(
                result.is_ok(),
                "Unexpected error {:?} in test {}",
                result.unwrap_err(),
                case.description
            );

            let (output, chunks) = result.unwrap();

            assert_eq!(
                output,
                case.expected_output.unwrap(),
                "Output mismatch in test '{}'",
                case.description
            );
            assert_eq!(
                chunks,
                case.expected_data.unwrap(),
                "Chunks mismatch in test '{}'",
                case.description
            );
        } else {
            assert!(
                result.is_err(),
                "Test {} passed but it shouldn't",
                case.description
            );
        }
    }
}

#[test]
fn test_date_parsers() {
    #[derive(Debug)]
    struct TestCase {
        name: &'static str,
        input: &'static str,
        expected: bool,
        expected_result: Option<DateTime<FixedOffset>>,
        expected_remainder: Option<&'static str>,
    }

    let test_cases = [
        // Valid dates
        TestCase {
            name: "valid full date with timezone",
            input: "D:20210421143000+02'00",
            expected: true,
            expected_result: Some(
                FixedOffset::east_opt(7200)
                    .unwrap()
                    .with_ymd_and_hms(2021, 4, 21, 14, 30, 0)
                    .unwrap(),
            ),
            expected_remainder: Some(""),
        },
        TestCase {
            name: "valid date with UTC timezone",
            input: "D:20210421143000Z",
            expected: true,
            expected_result: Some(
                FixedOffset::east_opt(0)
                    .unwrap()
                    .with_ymd_and_hms(2021, 4, 21, 14, 30, 0)
                    .unwrap(),
            ),
            expected_remainder: Some(""),
        },
        TestCase {
            name: "valid date with negative timezone",
            input: "D:20210421143000-05'00",
            expected: true,
            expected_result: Some(
                FixedOffset::west_opt(18000)
                    .unwrap()
                    .with_ymd_and_hms(2021, 4, 21, 14, 30, 0)
                    .unwrap(),
            ),
            expected_remainder: Some(""),
        },
        TestCase {
            name: "valid date without timezone",
            input: "D:20210421143000",
            expected: true,
            expected_result: Some(
                FixedOffset::east_opt(0)
                    .unwrap()
                    .with_ymd_and_hms(2021, 4, 21, 14, 30, 0)
                    .unwrap(),
            ),
            expected_remainder: Some(""),
        },
        TestCase {
            name: "valid date with partial components",
            input: "D:202104",
            expected: true,
            expected_result: Some(
                FixedOffset::east_opt(0)
                    .unwrap()
                    .with_ymd_and_hms(2021, 4, 1, 0, 0, 0)
                    .unwrap(),
            ),
            expected_remainder: Some(""),
        },
        TestCase {
            name: "valid date with remainder",
            input: "D:20210421143000+02'00rest",
            expected: true,
            expected_result: Some(
                FixedOffset::east_opt(7200)
                    .unwrap()
                    .with_ymd_and_hms(2021, 4, 21, 14, 30, 0)
                    .unwrap(),
            ),
            expected_remainder: Some("rest"),
        },
        TestCase {
            name: "valid timezone format with minutes omitted",
            input: "D:20210421143000+02",
            expected: true,
            expected_result: Some(
                FixedOffset::east_opt(7200)
                    .unwrap()
                    .with_ymd_and_hms(2021, 4, 21, 14, 30, 0)
                    .unwrap(),
            ),
            expected_remainder: Some(""),
        },
        // Invalid dates
        TestCase {
            name: "invalid missing D prefix",
            input: "20210421143000",
            expected: false,
            expected_result: None,
            expected_remainder: None,
        },
        TestCase {
            name: "invalid date components",
            input: "D:20211301143000", // Invalid month 13
            expected: false,
            expected_result: None,
            expected_remainder: None,
        },
        TestCase {
            name: "invalid timezone minutes",
            input: "D:20210421143000+02'60", // Invalid minutes 60
            expected: false,
            expected_result: None,
            expected_remainder: None,
        },
    ];

    for case in &test_cases {
        let result = string_date(case.input);
        assert_eq!(
            result.is_ok(),
            case.expected,
            "Test '{}' failed: expected success: {}. Got datetime = {:?}",
            case.name,
            case.expected,
            result.unwrap()
        );

        if case.expected {
            let (actual_remainder, actual_date) = result.unwrap();
            let actual_date = to_chrono(&actual_date);
            assert_eq!(
                actual_date,
                *case.expected_result.as_ref().unwrap(),
                "Test '{}' failed: expected date: {:?}, got: {:?}",
                case.name,
                case.expected_result,
                actual_date
            );
            assert_eq!(
                actual_remainder,
                case.expected_remainder.unwrap(),
                "Test '{}' failed: expected remainder: {:?}, got: {:?}",
                case.name,
                case.expected_remainder,
                actual_remainder
            );
        }
    }
}
