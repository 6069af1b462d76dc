use std::io::Write;

use flate2::{write::ZlibEncoder, Compression};

use docv_pdf::types::array::{Array, ArrayBuilder, ArrayError};
use docv_pdf::types::dictionary::Dictionary;
use docv_pdf::types::indirect_object::IndirectReference;
use docv_pdf::types::numeric::Numeric;
use docv_pdf::types::object::{Object, ObjectError, ObjectKind};
use docv_pdf::types::stream::{apply_filter, process_filter, Stream, StreamFilterType};
use docv_pdf::types::string::PdfString;

fn dict_from<const N: usize>(entries: [(String, Object); N]) -> Dictionary {
    let mut d = Dictionary::new();
    for (k, v) in entries {
        d.insert(k, v);
    }
    d
}

fn as_float(obj: &Object) -> Result<f64, ObjectError> {
    match obj {
        Object::Numeric(Numeric::Integer(i)) => Ok(*i as f64),
        Object::Numeric(Numeric::Real(t)) => Ok(std::str::from_utf8(t).unwrap().parse::<f64>().unwrap()),
        _ => Err(ObjectError::UnexpectedObjectType { expected: ObjectKind::Integer }),
    }
}

#[test]
fn test_array_builder() -> Result<(), ArrayError> {
    // Test 1: Basic array creation with generic()
    let array_obj = Object::Array(Array::from(vec![
        Object::Boolean(true),
        Object::Numeric(Numeric::Integer(42)),
        Object::String(PdfString::Literal("test".to_string())),
    ]));

    let mut builder = ArrayBuilder::new(&array_obj);
    let result = builder.generic()?;

    assert_eq!(result.len(), 3);
    assert_eq!(result.data[0], Object::Boolean(true));
    assert_eq!(result.data[1], Object::Numeric(Numeric::Integer(42)));
    assert_eq!(result.data[2], Object::String(PdfString::Literal("test".to_string())));

    // Test 2: Array with of() method for type conversion
    let numeric_array = Object::Array(Array::from(vec![
        Object::Numeric(Numeric::Integer(1)),
        Object::Numeric(Numeric::Integer(2)),
        Object::Numeric(Numeric::Integer(3)),
    ]));

    let int_vec: Vec<i64> = ArrayBuilder::new(&numeric_array).of(|obj| obj.as_integer())?;

    assert_eq!(int_vec, vec![1, 2, 3]);

    // Test 3: Array with mixed types using of() with error handling
    let mixed_array = Object::Array(Array::from(vec![
        Object::Numeric(Numeric::Integer(10)),
        Object::Boolean(true), // This will cause conversion to fail
        Object::Numeric(Numeric::Integer(30)),
    ]));

    let result = ArrayBuilder::new(&mixed_array).of(|obj| obj.as_integer());
    assert!(result.is_err(), "Test 3");

    // Test 4: Error case - not an array
    let not_array = Object::Boolean(true);
    let result = ArrayBuilder::new(&not_array).generic();
    assert!(result.is_err(), "Test 4");

    // Test 5: Empty array
    let empty_array = Object::Array(Array::from(vec![]));

    let empty_result = ArrayBuilder::new(&empty_array).generic()?;
    assert_eq!(empty_result.len(), 0);

    let empty_vec: Vec<i64> = ArrayBuilder::new(&empty_array).of(|obj| obj.as_integer())?;
    assert_eq!(empty_vec.len(), 0);

    // Test 6: Array with floating point numbers
    let float_array = Object::Array(Array::from(vec![
        Object::Numeric(Numeric::Real(b"1.5".to_vec())),
        Object::Numeric(Numeric::Real(b"2.7".to_vec())),
        Object::Numeric(Numeric::Real(b"3.1".to_vec())),
    ]));

    let float_vec: Vec<f64> = ArrayBuilder::new(&float_array).of(|obj| as_float(obj))?;

    assert_eq!(float_vec, vec![1.5, 2.7, 3.1]);

    // Test 7: Array with boolean values
    let bool_array = Object::Array(Array::from(vec![
        Object::Boolean(true),
        Object::Boolean(false),
        Object::Boolean(true),
    ]));

    let bool_vec: Vec<bool> = ArrayBuilder::new(&bool_array).of(|obj| obj.as_bool())?;

    assert_eq!(bool_vec, vec![true, false, true]);

    // Test 8: Array with string values
    let string_array = Object::Array(Array::from(vec![
        Object::String(PdfString::Literal("hello".to_string())),
        Object::String(PdfString::Literal("world".to_string())),
    ]));

    let string_refs: Vec<PdfString> =
        ArrayBuilder::new(&string_array).of(|obj| obj.as_string().map(|s| s.clone()))?;

    assert_eq!(string_refs.len(), 2);
    assert_eq!(string_refs[0], PdfString::Literal(String::from("hello")));
    assert_eq!(string_refs[1], PdfString::Literal(String::from("world")));

    // Test 9: Array with name values
    let name_array = Object::Array(Array::from(vec![
        Object::Name("Type".into()),
        Object::Name("Font".into()),
    ]));

    let name_vec: Vec<String> =
        ArrayBuilder::new(&name_array).of(|obj| obj.as_name().map(|s| s.to_string()))?;

    assert_eq!(name_vec, vec![String::from("Type"), String::from("Font")]);

    // Test 10: Complex nested array (testing generic only)
    let nested_array = Object::Array(Array::from(vec![
        Object::Array(Array::from(vec![
            Object::Numeric(Numeric::Integer(1)),
            Object::Numeric(Numeric::Integer(2)),
        ])),
        Object::Boolean(false),
    ]));

    let nested_result = ArrayBuilder::new(&nested_array).generic()?;

    assert_eq!(nested_result.len(), 2);
    match &nested_result.data[0] {
        Object::Array(arr) => {
            assert_eq!(arr.len(), 2);
        }
        _ => panic!("Expected array at position 0"),
    }
    assert_eq!(nested_result.data[1], Object::Boolean(false));

    // Test 11: Array conversion with custom transformation
    let transform_array = Object::Array(Array::from(vec![
        Object::Numeric(Numeric::Integer(5)),
        Object::Numeric(Numeric::Integer(10)),
        Object::Numeric(Numeric::Integer(15)),
    ]));

    let doubled_vec: Vec<i64> = ArrayBuilder::new(&transform_array).of(|obj| {
        let num: i64 = obj.as_integer()?;
        Ok(num * 2) // Double each value
    })?;

    assert_eq!(doubled_vec, vec![10, 20, 30]);

    println!("All ArrayBuilder tests passed!");
    Ok(())
}

#[test]
fn test_array_type() -> Result<(), ArrayError> {
    // Test Deref implementation
    let array = Array::from(vec![
        Object::Boolean(true),
        Object::Numeric(Numeric::Integer(42)),
    ]);

    assert_eq!(array.len(), 2);
    assert!(!array.is_empty());
    assert_eq!(array.data[0], Object::Boolean(true));

    // Test From implementations
    let vec_obj = vec![
        Object::String(PdfString::Literal("test1".to_string())),
        Object::String(PdfString::Literal("test2".to_string())),
    ];
    let array_from_vec: Array = vec_obj.into();
    assert_eq!(array_from_vec.len(), 2);

    let array_literal = [
        Object::Numeric(Numeric::Integer(1)),
        Object::Numeric(Numeric::Integer(2)),
        Object::Numeric(Numeric::Integer(3)),
    ];
    let array_from_array: Array = Array::from(Vec::from(array_literal));
    assert_eq!(array_from_array.len(), 3);

    // Test Default
    let default_array = Array::default();
    assert!(default_array.is_empty());

    Ok(())
}

#[test]
fn test_process_filter() {
    struct TestCase {
        input: Object,
        expected_ok: bool,
        description: &'static str,
    }

    let cases = vec![
        TestCase {
            input: Object::Name("FlateDecode".to_string()),
            expected_ok: true,
            description: "Valid single filter",
        },
        TestCase {
            input: Object::Name("InvalidFilter".to_string()),
            expected_ok: false,
            description: "Invalid single filter",
        },
        TestCase {
            input: Object::Array(vec![
                Object::Name("FlateDecode".to_string()),
                Object::Name("FlateDecode".to_string()),
            ].into()),
            expected_ok: true,
            description: "Valid filter pipeline",
        },
        TestCase {
            input: Object::Array(vec![
                Object::Name("InvalidFilter".to_string()),
                Object::Name("FlateDecode".to_string()),
            ].into()),
            expected_ok: false,
            description: "Pipeline with invalid filter",
        },
        TestCase {
            input: Object::Numeric(Numeric::Integer(42)),
            expected_ok: false,
            description: "Invalid filter object type",
        },
    ];

    for case in cases {
        let result = process_filter(&case.input);
        assert_eq!(
            result.is_ok(),
            case.expected_ok,
            "Case '{}' failed: expected OK={}, got {:?}",
            case.description,
            case.expected_ok,
            result
        );
    }
}

#[test]
fn test_apply_filter() {
    struct TestCase {
        data: Vec<u8>,
        filter: StreamFilterType,
        content_length: usize,
        expected_data: Option<Vec<u8>>,
        successful: bool,
        description: &'static str,
    }

    let cases = vec![
        TestCase {
            data: b"test".to_vec(),
            filter: StreamFilterType::NoFilter,
            content_length: 4,
            expected_data: Some(b"test".to_vec()),
            successful: true,
            description: "No filter applied",
        },
        TestCase {
            data: {
                let mut encoder = ZlibEncoder::new(Vec::new(), Compression::default());
                encoder.write_all(b"hello").unwrap();
                encoder.finish().unwrap()
            },
            filter: StreamFilterType::FlateDecode,
            content_length: 5,
            expected_data: Some(b"hello".to_vec()),
            successful: true,
            description: "FlateDecode filter with valid data",
        },
        TestCase {
            data: vec![
                120, 218, 45, 210, 181, 78, 4, 81, 20, 128, 225, 115, 89, 96, 97, 129, 93, 88,
                24, 220, 221, 221, 221, 221, 221, 221, 165, 226, 5, 40, 169, 72, 40, 104, 160,
                65, 42, 42, 18, 194, 66, 69, 120, 5, 10, 10, 66, 79, 195, 3, 208, 194, 220, 63,
                183, 249, 114, 243, 159, 153, 201, 77, 206, 136, 136, 252, 253, 249, 137, 132,
                200, 22, 110, 226, 4, 70, 227, 62, 238, 226, 17, 30, 40, 17, 143, 8, 103, 81,
                209, 199, 159, 230, 60, 133, 74, 137, 99, 221, 20, 63, 156, 81, 226, 244, 153,
                226, 192, 57, 244, 199, 0, 12, 68, 39, 6, 97, 48, 186, 48, 4, 67, 49, 12, 221,
                74, 92, 223, 230, 155, 30, 156, 87, 226, 126, 183, 239, 35, 222, 27, 237, 197,
                173, 153, 134, 227, 162, 146, 171, 83, 83, 34, 112, 73, 201, 93, 171, 41, 94,
                92, 81, 114, 95, 161, 223, 125, 60, 179, 117, 60, 140, 154, 105, 36, 174, 42,
                135, 239, 92, 247, 183, 31, 91, 231, 229, 181, 246, 246, 206, 214, 245, 57,
                104, 158, 140, 194, 53, 229, 250, 242, 218, 221, 202, 248, 208, 102, 62, 153,
                169, 133, 213, 152, 137, 89, 152, 141, 57, 152, 139, 121, 152, 143, 49, 88,
                128, 93, 24, 139, 165, 88, 134, 113, 88, 142, 21, 24, 143, 53, 88, 133, 181,
                152, 128, 137, 88, 135, 245, 216, 128, 141, 216, 132, 205, 216, 130, 237, 152,
                132, 29, 216, 137, 201, 88, 140, 37, 152, 130, 149, 216, 138, 169, 216, 134,
                133, 88, 132, 105, 152, 142, 25, 216, 141, 227, 216, 135, 61, 216, 139, 67, 56,
                136, 253, 56, 128, 163, 56, 140, 35, 56, 134, 27, 56, 141, 147, 184, 128, 179,
                184, 140, 235, 202, 202, 22, 189, 163, 92, 101, 118, 180, 135, 219, 202, 202,
                251, 213, 61, 191, 215, 244, 67, 220, 81, 214, 243, 171, 238, 47, 30, 253, 231,
                159, 216, 219, 255, 7, 239, 213, 57, 247,
            ],
            filter: StreamFilterType::FlateDecode,
            content_length: 834,
            expected_data: Some(vec![
                0, 0, 0, 0, 255, 255, 2, 0, 0, 11, 0, 101, 2, 0, 0, 11, 0, 100, 2, 0, 0, 11, 0,
                83, 2, 0, 0, 11, 0, 22, 2, 0, 0, 11, 0, 106, 2, 0, 0, 11, 0, 104, 2, 0, 0, 11,
                0, 109, 2, 0, 0, 11, 0, 107, 1, 0, 0, 15, 0, 0, 2, 0, 0, 11, 0, 0, 1, 22, 115,
                216, 0, 0, 2, 0, 0, 11, 0, 85, 2, 0, 0, 11, 0, 1, 1, 0, 3, 98, 0, 0, 2, 0, 0,
                11, 0, 2, 2, 0, 0, 11, 0, 87, 1, 0, 7, 181, 0, 0, 2, 0, 0, 11, 0, 3, 2, 0, 0,
                11, 0, 89, 2, 0, 0, 11, 0, 4, 2, 0, 0, 11, 0, 5, 2, 0, 0, 11, 0, 6, 2, 0, 0,
                11, 0, 7, 2, 0, 0, 11, 0, 8, 2, 0, 0, 11, 0, 9, 2, 0, 0, 11, 0, 10, 2, 0, 0,
                11, 0, 11, 2, 0, 0, 11, 0, 12, 2, 0, 0, 11, 0, 13, 2, 0, 0, 11, 0, 14, 1, 0,
                10, 229, 0, 0, 2, 0, 0, 11, 0, 15, 2, 0, 0, 11, 0, 90, 1, 0, 14, 208, 0, 0, 1,
                0, 18, 161, 0, 0, 1, 0, 149, 162, 0, 0, 2, 0, 0, 11, 0, 16, 2, 0, 0, 11, 0, 92,
                1, 0, 155, 136, 0, 0, 2, 0, 0, 11, 0, 17, 2, 0, 0, 11, 0, 93, 1, 0, 163, 64, 0,
                0, 2, 0, 0, 11, 0, 18, 2, 0, 0, 11, 0, 95, 1, 0, 169, 51, 0, 0, 1, 0, 178, 142,
                0, 0, 1, 3, 175, 80, 0, 0, 2, 0, 0, 11, 0, 19, 2, 0, 0, 11, 0, 96, 1, 3, 181,
                145, 0, 0, 1, 3, 191, 234, 0, 0, 1, 7, 154, 160, 0, 0, 1, 7, 162, 163, 0, 0, 1,
                10, 216, 76, 0, 0, 2, 0, 0, 11, 0, 20, 2, 0, 0, 11, 0, 97, 1, 10, 218, 18, 0,
                0, 1, 21, 35, 212, 0, 0, 1, 21, 36, 180, 0, 0, 2, 0, 0, 11, 0, 21, 2, 0, 0, 11,
                0, 54, 2, 0, 0, 11, 0, 36, 2, 0, 0, 11, 0, 37, 2, 0, 0, 11, 0, 38, 2, 0, 0, 11,
                0, 39, 2, 0, 0, 11, 0, 40, 2, 0, 0, 11, 0, 41, 2, 0, 0, 11, 0, 42, 2, 0, 0, 11,
                0, 23, 2, 0, 0, 11, 0, 43, 2, 0, 0, 11, 0, 69, 2, 0, 0, 11, 0, 24, 2, 0, 0, 11,
                0, 48, 2, 0, 0, 11, 0, 49, 2, 0, 0, 11, 0, 25, 2, 0, 0, 11, 0, 50, 2, 0, 0, 11,
                0, 51, 2, 0, 0, 11, 0, 26, 2, 0, 0, 11, 0, 55, 2, 0, 0, 11, 0, 53, 2, 0, 0, 11,
                0, 56, 2, 0, 0, 11, 0, 27, 2, 0, 0, 11, 0, 28, 2, 0, 0, 11, 0, 57, 2, 0, 0, 11,
                0, 58, 2, 0, 0, 11, 0, 59, 2, 0, 0, 11, 0, 60, 2, 0, 0, 11, 0, 61, 2, 0, 0, 11,
                0, 62, 2, 0, 0, 11, 0, 63, 2, 0, 0, 11, 0, 66, 2, 0, 0, 11, 0, 29, 2, 0, 0, 11,
                0, 67, 2, 0, 0, 11, 0, 68, 2, 0, 0, 11, 0, 30, 2, 0, 0, 11, 0, 46, 2, 0, 0, 11,
                0, 47, 2, 0, 0, 11, 0, 31, 2, 0, 0, 11, 0, 52, 2, 0, 0, 11, 0, 64, 2, 0, 0, 11,
                0, 32, 2, 0, 0, 11, 0, 65, 2, 0, 0, 11, 0, 44, 2, 0, 0, 11, 0, 45, 2, 0, 0, 11,
                0, 33, 2, 0, 0, 11, 0, 34, 2, 0, 0, 11, 0, 35, 2, 0, 0, 11, 0, 70, 2, 0, 0, 11,
                0, 82, 2, 0, 0, 11, 0, 73, 2, 0, 0, 11, 0, 71, 2, 0, 0, 11, 0, 72, 2, 0, 0, 11,
                0, 77, 2, 0, 0, 11, 0, 76, 2, 0, 0, 11, 0, 74, 2, 0, 0, 11, 0, 75, 2, 0, 0, 11,
                0, 80, 2, 0, 0, 11, 0, 78, 2, 0, 0, 11, 0, 79, 2, 0, 0, 11, 0, 81, 2, 0, 0, 11,
                0, 99, 2, 0, 0, 11, 0, 86, 2, 0, 0, 11, 0, 84, 2, 0, 0, 11, 0, 91, 2, 0, 0, 11,
                0, 88, 2, 0, 0, 11, 0, 94, 2, 0, 0, 11, 0, 98, 1, 21, 38, 0, 0, 0, 1, 21, 40,
                1, 0, 0, 2, 0, 0, 11, 0, 105, 2, 0, 0, 11, 0, 102, 1, 21, 41, 246, 0, 0, 1, 21,
                42, 72, 0, 0, 2, 0, 0, 11, 0, 108, 2, 0, 0, 11, 0, 103, 1, 21, 182, 189, 0, 0,
                1, 21, 183, 15, 0, 0, 1, 22, 128, 163, 0, 0,
            ]),
            successful: true,
            description: "FlateDecode with xref object stream",
        },
        TestCase {
            data: b"invalid compressed data".to_vec(),
            filter: StreamFilterType::FlateDecode,
            content_length: 100,
            expected_data: None,
            successful: false,
            description: "FlateDecode filter with invalid data",
        },
        TestCase {
            data: {
                let mut encoder = ZlibEncoder::new(Vec::new(), Compression::default());
                encoder.write_all(b"hello").unwrap();
                let compressed = encoder.finish().unwrap();

                let mut encoder2 = ZlibEncoder::new(Vec::new(), Compression::default());
                encoder2.write_all(&compressed).unwrap();
                encoder2.finish().unwrap()
            },
            filter: StreamFilterType::PipeLine(vec![
                StreamFilterType::FlateDecode,
                StreamFilterType::FlateDecode,
            ]),
            content_length: 5,
            expected_data: Some(b"hello".to_vec()),
            successful: true,
            description: "Filter pipeline with multiple FlateDecode",
        },
        TestCase {
            data: b"test".to_vec(),
            filter: StreamFilterType::PipeLine(vec![
                StreamFilterType::NoFilter,
                StreamFilterType::NoFilter,
            ]),
            content_length: 4,
            expected_data: Some(b"test".to_vec()),
            successful: true,
            description: "Filter pipeline with multiple None filters",
        },
    ];

    for case in cases {
        let result = apply_filter(&case.data, &case.filter, case.content_length);

        if case.successful {
            assert!(result.is_some(), "Case '{}' should succeed", case.description);
            let result = result.unwrap();
            assert_eq!(
                result,
                case.expected_data.unwrap(),
                "Case '{}' data mismatch. Expected len = {}. Got = {}",
                case.description,
                case.content_length,
                result.len()
            );
        } else {
            assert!(result.is_none(), "Case '{}' should fail", case.description);
        }
    }
}

#[test]
fn test_stream_process_filters() {
    struct TestCase {
        dictionary: Dictionary,
        data: Vec<u8>,
        expected_data: Option<Vec<u8>>,
        successful: bool,
        description: &'static str,
    }

    let cases = vec![
        TestCase {
            dictionary: dict_from([
                ("Type".to_string(), Object::Name("XObject".to_string())),
                ("Length".to_string(), Object::Numeric(Numeric::Integer(4))),
            ]),
            data: b"test".to_vec(),
            expected_data: Some(b"test".to_vec()),
            successful: true,
            description: "Valid stream with no filter",
        },
        TestCase {
            dictionary: dict_from([
                ("Type".to_string(), Object::Name("XObject".to_string())),
                (
                    "Field".to_string(),
                    Object::String(PdfString::Literal(String::from("123456"))),
                ),
                ("Length".to_string(), Object::Numeric(Numeric::Integer(4))),
            ]),
            data: b"test".to_vec(),
            expected_data: Some(b"test".to_vec()),
            successful: true,
            description: "Valid stream with no filter and custom field",
        },
        TestCase {
            dictionary: dict_from([
                ("Type".to_string(), Object::Name("XObject".to_string())),
                (
                    "Filter".to_string(),
                    Object::Name("FlateDecode".to_string()),
                ),
                ("Length".to_string(), Object::Numeric(Numeric::Integer(5))),
            ]),
            data: {
                let mut encoder = ZlibEncoder::new(Vec::new(), Compression::default());
                encoder.write_all(b"hello").unwrap();
                encoder.finish().unwrap()
            },
            expected_data: Some(b"hello".to_vec()),
            successful: true,
            description: "Valid stream with FlateDecode filter",
        },
        TestCase {
            dictionary: dict_from([
                ("Type".to_string(), Object::Name("XObject".to_string())),
                (
                    "Filter".to_string(),
                    Object::Name("FlateDecode".to_string()),
                ),
            ]),
            data: b"compressed".to_vec(),
            expected_data: None,
            successful: false,
            description: "Missing Length for FlateDecode",
        },
        TestCase {
            dictionary: dict_from([
                ("Type".to_string(), Object::Name("XObject".to_string())),
                ("Length".to_string(), Object::Numeric(Numeric::Integer(4))),
                (
                    "ColorSpace".to_string(),
                    Object::Name("DeviceRGB".to_string()),
                ),
            ]),
            data: b"test".to_vec(),
            expected_data: Some(b"test".to_vec()),
            successful: true,
            description: "Handles additional dictionary entries",
        },
    ];

    for case in cases {
        let mut stream = Stream {
            dictionary: case.dictionary,
            data: case.data,
        };

        let result = stream.process_filters();

        if case.successful {
            assert!(result.is_ok(), "Case '{}' should succeed", case.description);
            assert_eq!(
                stream.data,
                case.expected_data.unwrap(),
                "Case '{}' data mismatch",
                case.description
            );
        } else {
            assert!(result.is_err(), "Case '{}' should fail", case.description);
        }
    }
}

#[test]
fn reference_text() {
    assert_eq!(IndirectReference { id: 12, gen_id: 0 }.to_text(), "12 0 R");
    assert_eq!(IndirectReference { id: 0, gen_id: 65535 }.to_text(), "0 65535 R");
}
