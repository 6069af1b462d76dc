use std::io::Write;

use flate2::{write::ZlibEncoder, Compression};

use docv_pdf::cli::Cli;
use docv_pdf::parser::date::date_checked;
use docv_pdf::parser::object::dictionary;
use docv_pdf::parser::file::{XrefTableEntry, XrefTableSection};
use docv_pdf::process_stream::{process_stream, ProcessStreamError};
use docv_pdf::structures::info::{Info, InfoError};
use docv_pdf::structures::names::Names;
use docv_pdf::structures::object_stream::ObjectStream;
use docv_pdf::structures::pages_tree::{InheritableAttributes, PagesTreeError, PagesTreeField, PagesTreeNode};
use docv_pdf::structures::root::{PageLayout, PageMode};
use docv_pdf::structures::version::Version;
use docv_pdf::structures::xref::{table_readable_at, Xref, XrefEntry};
use docv_pdf::types::array::{Array, ArrayError};
use docv_pdf::types::dictionary::Dictionary;
use docv_pdf::types::indirect_object::IndirectReference;
use docv_pdf::types::numeric::Numeric;
use docv_pdf::types::object::{Object, ObjectError, ObjectKind};
use docv_pdf::types::rectangle::Rectangle;
use docv_pdf::types::stream::Stream;
use docv_pdf::types::string::PdfString;

fn integer(i: i64) -> Object {
    Object::Numeric(Numeric::Integer(i))
}

fn name(n: &str) -> Object {
    Object::Name(n.to_string())
}

fn dict_from<const N: usize>(entries: [(&str, Object); N]) -> Dictionary {
    let mut d = Dictionary::new();
    for (k, v) in entries {
        d.insert(k.to_string(), v);
    }
    d
}

fn zlib(data: &[u8]) -> Vec<u8> {
    let mut encoder = ZlibEncoder::new(Vec::new(), Compression::default());
    encoder.write_all(data).unwrap();
    encoder.finish().unwrap()
}

#[test]
fn dictionary_get_gives_back_what_insert_bound() {
    let mut d = Dictionary::new();
    d.insert("Size".to_string(), integer(1));
    d.insert("Root".to_string(), integer(2));
    d.insert("Size".to_string(), integer(3));
    assert_eq!(d.get("Size"), Some(&integer(3)));
    assert_eq!(d.get("Root"), Some(&integer(2)));
    assert_eq!(d.get("Info"), None);
    assert_eq!(d.len(), 2);
    // Entries are kept in the order of their keys.
    assert_eq!(d.entries()[0].0, "Root");
    assert_eq!(d.entries()[1].0, "Size");
}

#[test]
fn version_text_round_trip() {
    for v in [
        Version::Pdf1_0,
        Version::Pdf1_1,
        Version::Pdf1_2,
        Version::Pdf1_3,
        Version::Pdf1_4,
        Version::Pdf1_5,
        Version::Pdf1_6,
        Version::Pdf1_7,
        Version::Pdf2_0,
    ] {
        assert_eq!(Version::from_str(v.as_str()), Ok(v));
    }
    assert_eq!(Version::from_bytes(b"1.4"), Ok(Version::Pdf1_4));
    assert!(Version::from_str("3.0").is_err());
}

#[test]
fn xref_keeps_the_first_entry() {
    let mut xref = Xref::new();
    let key = IndirectReference { id: 3, gen_id: 0 };
    xref.insert_entry(key, XrefEntry::Occupied { offset: 100 });
    xref.insert_entry(key, XrefEntry::Occupied { offset: 200 });
    assert_eq!(xref.find_entry(&key), Some(&XrefEntry::Occupied { offset: 100 }));
    assert!(!xref.has_more_tables());
    assert_eq!(xref.next_table_offset(), None);

    let sections = vec![XrefTableSection {
        first_id: 2,
        _length: 2,
        entries: vec![
            XrefTableEntry { offset: 10, gen_id: 0, occupied: true },
            XrefTableEntry { offset: 20, gen_id: 0, occupied: false },
        ],
    }];
    xref.parse_xref_table(sections).unwrap();
    assert_eq!(
        xref.find_entry(&IndirectReference { id: 2, gen_id: 0 }),
        Some(&XrefEntry::Occupied { offset: 10 })
    );
    // Object 3 was known already and keeps its entry.
    assert_eq!(xref.find_entry(&key), Some(&XrefEntry::Occupied { offset: 100 }));
}

#[test]
fn xref_prev_table_is_read_when_named() {
    let mut xref = Xref::new();
    assert_eq!(xref.read_prev_table(b""), Ok(()));
    let d = dict_from([
        ("Size", integer(3)),
        ("Root", Object::IndirectReference(IndirectReference { id: 1, gen_id: 0 })),
        ("Prev", integer(0)),
    ]);
    xref.get_xref_data(&d).unwrap();
    assert_eq!(xref.next_table_offset(), Some(0));
    let input = b"xref\n0 1\n0000000000 65535 f \ntrailer\n<< /Size 1 /Root 1 0 R >>\n";
    assert!(table_readable_at(input, 0));
    assert_eq!(xref.read_prev_table(input), Ok(()));
    assert_eq!(
        xref.find_entry(&IndirectReference { id: 0, gen_id: 65535 }),
        Some(&XrefEntry::Free { next_id: 0 })
    );
    assert!(!xref.has_more_tables());
}

#[test]
fn table_readability() {
    assert!(!table_readable_at(b"xref", 10));
    assert!(table_readable_at(b"garbage", 0));
    // The trailer ends inside a comment.
    assert!(!table_readable_at(b"xref\n0 1\n0000000000 65535 f \ntrailer % open", 0));
}

#[test]
fn attributes_inherit_what_a_node_does_not_give() {
    let mut attrs = InheritableAttributes::new();
    let node = dict_from([
        ("MediaBox", Object::Array(Array::from(vec![integer(0), integer(0), integer(10), integer(20)]))),
        ("Rotate", integer(90)),
    ]);
    attrs.read(&node).unwrap();
    assert_eq!(attrs.rotate, Some(90));
    let child = dict_from([("Rotate", integer(180))]);
    attrs.read(&child).unwrap();
    assert_eq!(attrs.rotate, Some(180));
    assert_eq!(
        attrs.media_box,
        Some(Rectangle {
            x1: Numeric::Integer(0),
            y1: Numeric::Integer(0),
            x2: Numeric::Integer(10),
            y2: Numeric::Integer(20),
        })
    );
    // A wrong entry changes nothing.
    let bad = dict_from([("Resources", integer(1)), ("Rotate", integer(0))]);
    assert_eq!(
        attrs.read(&bad),
        Err(PagesTreeError::InvalidType {
            field: PagesTreeField::Resources,
            source: ObjectError::UnexpectedObjectType { expected: ObjectKind::Dictionary },
        })
    );
    assert_eq!(attrs.rotate, Some(180));
    let too_big = dict_from([("Rotate", integer(70000))]);
    assert_eq!(
        attrs.read(&too_big),
        Err(PagesTreeError::InvalidType { field: PagesTreeField::Rotate, source: ObjectError::TypeConvertion })
    );
}

#[test]
fn pages_tree_node_reads_kids_and_count() {
    let d = dict_from([
        (
            "Kids",
            Object::Array(Array::from(vec![
                Object::IndirectReference(IndirectReference { id: 4, gen_id: 0 }),
                Object::IndirectReference(IndirectReference { id: 5, gen_id: 1 }),
            ])),
        ),
        ("Count", integer(7)),
    ]);
    let node = PagesTreeNode::from_dictionary(&d, None).unwrap();
    assert_eq!(node.leaf_count, 7);
    assert_eq!(node.kids, vec![IndirectReference { id: 4, gen_id: 0 }, IndirectReference { id: 5, gen_id: 1 }]);
    assert_eq!(node.inheritable_attributes, InheritableAttributes::new());

    let no_kids = dict_from([("Count", integer(1))]);
    assert_eq!(
        PagesTreeNode::from_dictionary(&no_kids, None),
        Err(PagesTreeError::FieldNotFound { field: PagesTreeField::Kids })
    );
    let bad_kid = dict_from([("Kids", Object::Array(Array::from(vec![integer(1)]))), ("Count", integer(1))]);
    assert_eq!(
        PagesTreeNode::from_dictionary(&bad_kid, None),
        Err(PagesTreeError::InvalidArray {
            field: PagesTreeField::Kids,
            source: ArrayError::FailedArrayConvertion(ObjectError::UnexpectedObjectType {
                expected: ObjectKind::IndirectReference
            }),
        })
    );
    let no_count = dict_from([("Kids", Object::Array(Array::from(vec![])))]);
    assert_eq!(
        PagesTreeNode::from_dictionary(&no_count, None),
        Err(PagesTreeError::FieldNotFound { field: PagesTreeField::Count })
    );
}

#[test]
fn rectangle_from_arrays() {
    let ok = Object::Array(Array::from(vec![
        integer(1),
        Object::Numeric(Numeric::Real(b"2.5".to_vec())),
        integer(3),
        integer(4),
    ]));
    let r = ok.as_array().rectangle().unwrap();
    assert_eq!(r.y1, Numeric::Real(b"2.5".to_vec()));
    let short = Object::Array(Array::from(vec![integer(1), integer(2), integer(3)]));
    assert_eq!(
        short.as_array().rectangle(),
        Err(ArrayError::InvalidRectangleFormat { expected: 4, got: 3 })
    );
    let not_numbers = Object::Array(Array::from(vec![integer(1), Object::Null, integer(3), integer(4)]));
    assert_eq!(
        not_numbers.as_array().rectangle(),
        Err(ArrayError::FailedArrayConvertion(ObjectError::UnexpectedObjectType {
            expected: ObjectKind::Real
        }))
    );
    assert_eq!(Object::Null.as_array().rectangle(), Err(ArrayError::UnexpectedObjectType));
}

#[test]
fn names_keep_their_trees() {
    let d = dict_from([("Dests", integer(1)), ("EmbeddedFiles", integer(2))]);
    let n = Names::from_dictionary(&d).unwrap();
    assert_eq!(n.dests, Some(integer(1)));
    assert_eq!(n.embedded_files, Some(integer(2)));
    assert_eq!(n.ap, None);
}

#[test]
fn layout_and_mode_names() {
    assert_eq!(PageLayout::from_name("TwoPageRight"), Some(PageLayout::TwoPageRight));
    assert_eq!(PageLayout::from_name("Single"), None);
    assert_eq!(PageMode::from_name("UseAttachments"), Some(PageMode::UseAttachments));
    assert_eq!(PageMode::default(), PageMode::UseNone);
    assert_eq!(PageLayout::default(), PageLayout::SinglePage);
}

#[test]
fn process_stream_takes_out_length_and_filter() {
    let data = zlib(b"hello");
    let mut input = format!("<< /Length {} /Filter /FlateDecode /Type /XObject >>stream\n", data.len()).into_bytes();
    input.extend_from_slice(&data);
    input.extend_from_slice(b"endstream");
    let (records, decoded) = process_stream(&input).unwrap();
    assert_eq!(decoded, b"hello".to_vec());
    assert_eq!(records, vec![("Type".to_string(), name("XObject"))]);

    // A pipeline is applied in the order named.
    let twice = zlib(&zlib(b"abc"));
    let mut input = format!("<< /Length {} /Filter [/FlateDecode /FlateDecode] >>stream\n", twice.len()).into_bytes();
    input.extend_from_slice(&twice);
    input.extend_from_slice(b"endstream");
    assert_eq!(process_stream(&input).unwrap().1, b"abc".to_vec());

    let input = b"<< /Filter /FlateDecode >>stream\nxyzendstream";
    assert_eq!(process_stream(input).err(), Some(ProcessStreamError::InvalidStreamLength));
    let input = b"<< /Length 3 /Filter /LZWDecode >>stream\nxyzendstream";
    assert_eq!(
        process_stream(input).err(),
        Some(ProcessStreamError::InvalidStreamFilterName("LZWDecode".to_string()))
    );
    let input = b"<< /Length 3 /Filter /FlateDecode >>stream\nxyzendstream";
    assert_eq!(process_stream(input).err(), Some(ProcessStreamError::Decompression));
    let input = b"<< /Length /Three >>stream\nxyzendstream";
    assert_eq!(
        process_stream(input).err(),
        Some(ProcessStreamError::InvalidObjectType { expected: ObjectKind::Integer, got: name("Three") })
    );
    assert_eq!(process_stream(b"[1 2]").err(), Some(ProcessStreamError::Parser));
    let input = b"<< /Length 3 >>stream\nxyzendstream";
    assert_eq!(process_stream(input).unwrap().1, b"xyz".to_vec());
}

#[test]
fn info_read_at_offset() {
    let input = b"junk 6 0 obj << /Title (T) /Keywords (k) /Custom (c) >> endobj";
    let mut info = Info::new();
    info.read(input, 5).unwrap();
    assert_eq!(info.title(), Some(&"T".to_string()));
    assert_eq!(info.keywords(), Some(&"k".to_string()));
    assert_eq!(info.other, vec![("Custom".to_string(), "c".to_string())]);
    assert_eq!(info.read(input, 0), Err(InfoError::Parse { offset: 0 }));
    let not_dict = b"1 0 obj [1] endobj";
    assert!(matches!(Info::new().read(not_dict, 0), Err(InfoError::NotDictionary(_))));
}

#[test]
fn dates_whose_offset_overflows_are_refused() {
    assert!(date_checked("D:20210421143000+999999'00").is_none());
    assert!(matches!(date_checked("D:20210421143000Z"), Some(Ok(_))));
    let s = PdfString::Literal("D:20210421143000+999999'00".to_string());
    assert!(s.to_date_checked().is_none());
    let info = Object::Dictionary(dict_from([(
        "CreationDate",
        Object::String(PdfString::Literal("D:20210421143000+999999'00".to_string())),
    )]));
    assert!(Info::from_object_checked(info).is_none());
    let info = Object::Dictionary(dict_from([(
        "CreationDate",
        Object::String(PdfString::Literal("D:20210421143000+02'00".to_string())),
    )]));
    let read = Info::from_object_checked(info).unwrap().unwrap();
    assert_eq!(read.creation_date().unwrap().offset, 7200);
}

#[test]
fn object_stream_checked_reading() {
    let data = b"5 0 6 2 1 2".to_vec();
    let stream = Stream {
        dictionary: dict_from([("N", integer(2)), ("First", integer(8)), ("Length", integer(11))]),
        data,
    };
    let os = ObjectStream::from_stream_checked(stream).unwrap().unwrap();
    assert_eq!(os.len(), 2);
    assert!(os.object_readable(0));
    assert_eq!(os.get_object_by_index(0), Ok(integer(1)));
    assert_eq!(os.get_object_by_index(1), Ok(integer(2)));
    assert!(!os.object_readable(2));
    assert_eq!(
        os.get_object_by_index(2),
        Err(docv_pdf::structures::object_stream::ObjectStreamError::IdNotFound { id: 2 })
    );

    // `First` lies past the data.
    let stream = Stream {
        dictionary: dict_from([("N", integer(1)), ("First", integer(50)), ("Length", integer(3))]),
        data: b"1 0".to_vec(),
    };
    assert!(ObjectStream::from_stream_checked(stream).is_none());
}

#[test]
fn command_line_value() {
    let cli = Cli { filename: Some("a.pdf".to_string()) };
    assert_eq!(cli.filename.as_deref(), Some("a.pdf"));
}

#[test]
fn parsed_dictionaries_keep_keys_once_in_order() {
    let (_, d) = dictionary(b"<</Zeta 1 /Alpha 2 /Mid 3 /Alpha 4>>").expect("dictionary");
    let keys: Vec<&str> = d.entries().iter().map(|(k, _)| k.as_str()).collect();
    assert_eq!(keys, vec!["Alpha", "Mid", "Zeta"]);
    assert_eq!(d.get("Alpha"), Some(&integer(4)));
}

#[test]
fn dictionary_from_entries_later_wins() {
    let d = Dictionary::from_entries(vec![
        ("B".to_string(), integer(1)),
        ("A".to_string(), integer(2)),
        ("B".to_string(), integer(3)),
    ]);
    assert_eq!(d.len(), 2);
    assert_eq!(d.entries()[0].0, "A");
    assert_eq!(d.get("B"), Some(&integer(3)));
    assert_eq!(Dictionary::from_entries(Vec::new()).len(), 0);
}

#[test]
fn endline_markers_past_the_end_change_nothing() {
    let mut position = 7usize;
    let mut output = b"ab".to_vec();
    docv_pdf::parser::process_stream_buffer::handle_endline_markers(b"x\r\n", &mut position, &mut output);
    assert_eq!(position, 7);
    assert_eq!(output, b"ab".to_vec());
    let mut position = 1usize;
    docv_pdf::parser::process_stream_buffer::handle_endline_markers(b"x\r\n", &mut position, &mut output);
    assert_eq!(position, 3);
    assert_eq!(output, b"ab\r\n".to_vec());
}

fn number_value(n: &Numeric) -> f64 {
    match n {
        Numeric::Integer(i) => *i as f64,
        Numeric::Real(b) => std::str::from_utf8(b).unwrap().parse::<f64>().unwrap(),
    }
}

fn corners(r: &Rectangle) -> (f64, f64, f64, f64) {
    let (x1, y1, x2, y2) = (number_value(&r.x1), number_value(&r.y1), number_value(&r.x2), number_value(&r.y2));
    (x1.min(x2), y1.min(y2), x1.max(x2), y1.max(y2))
}

fn real_number(text: &str) -> Object {
    Object::Numeric(Numeric::Real(text.as_bytes().to_vec()))
}

#[test]
fn test_array_builder_as_rectangle() {
    let rect_array = Object::Array(Array::from(vec![integer(10), integer(20), integer(100), integer(80)]));
    let rect = rect_array.as_array().rectangle().unwrap();
    assert_eq!(corners(&rect), (10.0, 20.0, 100.0, 80.0));

    let rect_array = Object::Array(Array::from(vec![real_number("10.5"), real_number("20.25"), real_number("100.75"), real_number("80.125")]));
    let rect = rect_array.as_array().rectangle().unwrap();
    assert_eq!(corners(&rect), (10.5, 20.25, 100.75, 80.125));

    let rect_array = Object::Array(Array::from(vec![integer(100), integer(80), integer(10), integer(20)]));
    let rect = rect_array.as_array().rectangle().unwrap();
    assert_eq!(rect.x1, Numeric::Integer(100));
    assert_eq!(corners(&rect), (10.0, 20.0, 100.0, 80.0));

    let invalid_array = Object::Array(Array::from(vec![integer(10), integer(20), integer(100)]));
    assert!(invalid_array.as_array().rectangle().is_err(), "Test error: wrong number of elements");

    let invalid_array =
        Object::Array(Array::from(vec![integer(10), integer(20), integer(100), integer(80), integer(90)]));
    assert!(invalid_array.as_array().rectangle().is_err(), "Test error: too many elements");

    let invalid_array =
        Object::Array(Array::from(vec![integer(10), Object::Boolean(true), integer(100), integer(80)]));
    assert!(invalid_array.as_array().rectangle().is_err(), "Test error: non-numeric elements");

    let not_array = Object::Boolean(true);
    assert!(not_array.as_array().rectangle().is_err(), "Test error: not an array");
}

#[test]
fn xref_read_table_names_earlier_sections() {
    let with_prev = b"xref\n0 1\n0000000000 65535 f \ntrailer\n<< /Size 1 /Root 1 0 R /Prev 7 >>\n";
    let mut xref = Xref::new();
    assert!(!xref.has_more_tables());
    assert!(xref.read_table(with_prev, 0).is_ok());
    assert!(xref.has_more_tables());
    assert_eq!(xref.next_table_offset(), Some(7));

    let with_stm = b"xref\n0 1\n0000000000 65535 f \ntrailer\n<< /Size 1 /Root 1 0 R /XRefStm 9 >>\n";
    let mut xref = Xref::new();
    assert!(xref.read_table(with_stm, 0).is_ok());
    assert!(xref.has_more_tables());
    assert_eq!(xref.next_table_offset(), Some(9));

    let alone = b"xref\n0 1\n0000000000 65535 f \ntrailer\n<< /Size 1 /Root 1 0 R >>\n";
    let mut xref = Xref::new();
    assert!(xref.read_table(alone, 0).is_ok());
    assert!(!xref.has_more_tables());
}
