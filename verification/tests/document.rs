use docv_pdf::document::{Document, DocumentError};
use docv_pdf::objects::{Objects, ObjectsError};
use docv_pdf::pages::PagesError;
use docv_pdf::structures::info::Trap;
use docv_pdf::structures::page::{Page, PageError, PageField, TabOrder};
use docv_pdf::structures::pages_tree::InheritableAttributes;
use docv_pdf::structures::root::{PageLayout, PageMode, Root};
use docv_pdf::structures::version::Version;
use docv_pdf::types::indirect_object::IndirectReference;
use docv_pdf::types::numeric::Numeric;
use docv_pdf::structures::resources::{Resource, ResourceField, Resources, ResourcesError};
use docv_pdf::types::array::{Array, ArrayError};
use docv_pdf::types::dictionary::Dictionary;
use docv_pdf::types::object::{Object, ObjectError, ObjectKind};

/// Builds a file from numbered object bodies, with a cross-reference table
/// and a trailer holding `trailer_extra`.
fn build_pdf(objects: &[&str], trailer_extra: &str) -> Vec<u8> {
    let mut out: Vec<u8> = b"%PDF-1.7\n".to_vec();
    let mut offsets = Vec::new();
    for (i, body) in objects.iter().enumerate() {
        offsets.push(out.len());
        out.extend_from_slice(format!("{} 0 obj\n{}\nendobj\n", i + 1, body).as_bytes());
    }
    let xref_offset = out.len();
    out.extend_from_slice(format!("xref\n0 {}\n", objects.len() + 1).as_bytes());
    out.extend_from_slice(b"0000000000 65535 f \n");
    for off in &offsets {
        out.extend_from_slice(format!("{:010} 00000 n \n", off).as_bytes());
    }
    out.extend_from_slice(
        format!(
            "trailer\n<< /Size {} {} >>\nstartxref\n{}\n%%EOF\n",
            objects.len() + 1,
            trailer_extra,
            xref_offset
        )
        .as_bytes(),
    );
    out
}

fn sample_pdf() -> Vec<u8> {
    build_pdf(
        &[
            "<< /Type /Catalog /Pages 2 0 R /PageLayout /OneColumn /PageMode /UseOutlines >>",
            "<< /Type /Pages /Kids [3 0 R 4 0 R] /Count 2 /MediaBox [0 0 612 792] /Rotate 90 >>",
            "<< /Type /Page /Parent 2 0 R /Contents 5 0 R /Resources << /Font <<>> >> /Tabs /R >>",
            "<< /Type /Page /Parent 2 0 R /MediaBox [0 0 100 200] /Resources <<>> /CropBox [10 10 90 190] >>",
            "<< /Length 12 >>\nstream\nBT /F1 Tf ET\nendstream",
            "<< /Title (Test) /Author (Me) /Trapped (True) >>",
        ],
        "/Root 1 0 R /Info 6 0 R",
    )
}

fn integer(i: i64) -> Numeric {
    Numeric::Integer(i)
}

#[test]
fn document_reads_catalog_info_and_pages() {
    let data = sample_pdf();
    let size = data.len() as u64;
    let mut document = Document::from_data(data, size).expect("document");

    assert_eq!(document.filesize(), size);
    assert_eq!(document.version(), Version::Pdf1_7);
    assert!(document.hash().is_none());
    assert_eq!(document.info().title(), Some(&"Test".to_string()));
    assert_eq!(document.info().author(), Some(&"Me".to_string()));
    assert_eq!(*document.info().trapped(), Trap::True);

    let mut pages = document.pages();
    assert_eq!(pages.size_hint(), (0, Some(2)));

    let first = document.next_page(&mut pages).expect("first page").expect("a page");
    assert_eq!(first.contents.len(), 1);
    assert_eq!(first.contents[0].data, b"BT /F1 Tf ET".to_vec());
    assert_eq!(first.rotate, 90);
    assert_eq!(first.media_box.x2, integer(612));
    assert_eq!(first.media_box.y2, integer(792));
    // The crop, bleed, trim and art boxes default to the media box.
    assert_eq!(first.crop_box, first.media_box);
    assert_eq!(first.art_box, first.media_box);
    assert_eq!(first.user_unit, integer(1));
    assert_eq!(first.tabs, TabOrder::Row);
    assert!(first.resources.get("Font").is_some());

    let second = document.next_page(&mut pages).expect("second page").expect("a page");
    assert!(second.contents.is_empty());
    assert_eq!(second.media_box.x2, integer(100));
    assert_eq!(second.crop_box.x1, integer(10));
    // Bleed, trim and art boxes default to the crop box.
    assert_eq!(second.bleed_box, second.crop_box);
    assert_eq!(second.rotate, 90);
    assert_eq!(second.tabs, TabOrder::Unspecified);

    assert!(document.next_page(&mut pages).expect("end").is_none());
    // The walk stays over.
    assert!(document.next_page(&mut pages).expect("end").is_none());
}

#[test]
fn document_without_info_has_no_metadata() {
    let data = build_pdf(
        &["<< /Type /Catalog /Pages 2 0 R >>", "<< /Type /Pages /Kids [] /Count 0 >>"],
        "/Root 1 0 R",
    );
    let size = data.len() as u64;
    let mut document = Document::from_data(data, size).expect("document");
    assert!(document.info().title().is_none());
    assert_eq!(*document.info().trapped(), Trap::Unknown);
    let mut pages = document.pages();
    assert!(document.next_page(&mut pages).expect("walk").is_none());
}

#[test]
fn document_with_missing_pages_fails() {
    let data = build_pdf(&["<< /Type /Catalog >>"], "/Root 1 0 R");
    let size = data.len() as u64;
    match Document::from_data(data, size) {
        Err(DocumentError::Root(_)) => {},
        other => panic!("unexpected {:?}", other.map(|_| ())),
    }
}

#[test]
fn document_with_unknown_root_object_fails() {
    let data = build_pdf(&["<< /Type /Catalog /Pages 2 0 R >>"], "/Root 9 0 R");
    let size = data.len() as u64;
    match Document::from_data(data, size) {
        Err(DocumentError::Object { object, source: ObjectsError::EntryNotFound { .. } }) => {
            assert_eq!(object, IndirectReference { id: 9, gen_id: 0 });
        },
        other => panic!("unexpected {:?}", other.map(|_| ())),
    }
}

#[test]
fn objects_lookup_is_stable() {
    let (mut objects, metadata) = Objects::from_data(sample_pdf()).expect("objects");
    assert_eq!(metadata.root_id, IndirectReference { id: 1, gen_id: 0 });
    assert_eq!(metadata.info_id, Some(IndirectReference { id: 6, gen_id: 0 }));
    assert_eq!(metadata.version, Version::Pdf1_7);

    let first = objects.get_object(&IndirectReference { id: 2, gen_id: 0 }).expect("object 2");
    let again = objects.get_object(&IndirectReference { id: 2, gen_id: 0 }).expect("object 2");
    assert_eq!(first, again);
    match first {
        Object::IndirectDefinition(io) => {
            assert_eq!(io.id, 2);
            assert!(io.object.as_dictionary().is_ok());
        },
        other => panic!("unexpected {:?}", other),
    }

    // Object 0 is free; object 7 is not named at all.
    assert_eq!(
        objects.get_object(&IndirectReference { id: 0, gen_id: 65535 }),
        Err(ObjectsError::EntryIsFree { object: IndirectReference { id: 0, gen_id: 65535 } })
    );
    assert_eq!(
        objects.get_object(&IndirectReference { id: 7, gen_id: 0 }),
        Err(ObjectsError::EntryNotFound { object: IndirectReference { id: 7, gen_id: 0 } })
    );
}

#[test]
fn object_direct_resolves_references() {
    let (mut objects, _) = Objects::from_data(sample_pdf()).expect("objects");
    let reference = Object::IndirectReference(IndirectReference { id: 5, gen_id: 0 });
    let target = reference.direct(&mut objects);
    assert!(target.as_stream().is_ok());

    // A reference that cannot be resolved stands for itself.
    let dangling = Object::IndirectReference(IndirectReference { id: 42, gen_id: 0 });
    assert_eq!(dangling.direct(&mut objects), dangling);

    // Other objects stand for themselves.
    let plain = Object::Boolean(true);
    assert_eq!(plain.direct(&mut objects), plain);
}

#[test]
fn objects_from_too_short_data_fail() {
    assert_eq!(Objects::from_data(b"%PDF-1.7".to_vec()).err(), Some(ObjectsError::Unreadable));
    assert!(matches!(
        Objects::from_data(vec![b' '; 64]).err(),
        Some(ObjectsError::ReadXref(_))
    ));
}

/// A file whose cross-reference data is a stream and whose page tree root is
/// kept in an object stream.
fn xref_stream_pdf() -> Vec<u8> {
    let mut out: Vec<u8> = b"%PDF-1.5\n".to_vec();
    let a = out.len();
    out.extend_from_slice(b"1 0 obj\n<< /Type /Catalog /Pages 2 0 R /PageMode /FullScreen >>\nendobj\n");
    let c = out.len();
    let objstm = b"2 0 << /Type /Pages /Kids [] /Count 0 >>";
    out.extend_from_slice(
        format!("3 0 obj\n<< /Type /ObjStm /N 1 /First 4 /Length {} >>\nstream\n", objstm.len()).as_bytes(),
    );
    out.extend_from_slice(objstm);
    out.extend_from_slice(b"\nendstream\nendobj\n");
    let d = out.len();
    let mut entries: Vec<u8> = Vec::new();
    entries.extend_from_slice(&[0, 0, 0, 255]);
    entries.extend_from_slice(&[1, (a >> 8) as u8, (a & 0xff) as u8, 0]);
    entries.extend_from_slice(&[2, 0, 3, 0]);
    entries.extend_from_slice(&[1, (c >> 8) as u8, (c & 0xff) as u8, 0]);
    entries.extend_from_slice(&[1, (d >> 8) as u8, (d & 0xff) as u8, 0]);
    out.extend_from_slice(
        format!(
            "4 0 obj\n<< /Type /XRef /Size 5 /W [1 2 1] /Root 1 0 R /Length {} >>\nstream\n",
            entries.len()
        )
        .as_bytes(),
    );
    out.extend_from_slice(&entries);
    out.extend_from_slice(b"\nendstream\nendobj\n");
    out.extend_from_slice(format!("startxref\n{}\n%%EOF\n", d).as_bytes());
    out
}

#[test]
fn objects_from_object_streams() {
    let data = xref_stream_pdf();
    let (mut objects, metadata) = Objects::from_data(data.clone()).expect("objects");
    assert_eq!(metadata.version, Version::Pdf1_5);
    let node = objects.get_object(&IndirectReference { id: 2, gen_id: 0 }).expect("object 2");
    let d = node.as_dictionary().expect("dictionary");
    assert_eq!(d.get("Count"), Some(&Object::Numeric(Numeric::Integer(0))));
    // Taken again, now from the object stream read before.
    let again = objects.get_object(&IndirectReference { id: 2, gen_id: 0 }).expect("object 2");
    assert_eq!(node, again);

    let size = data.len() as u64;
    let mut document = Document::from_data(data, size).expect("document");
    assert_eq!(document.version(), Version::Pdf1_5);
    let mut pages = document.pages();
    assert!(document.next_page(&mut pages).expect("walk").is_none());
}

#[test]
fn walk_reports_unexpected_kid() {
    let data = build_pdf(
        &[
            "<< /Type /Catalog /Pages 2 0 R >>",
            "<< /Type /Pages /Kids [3 0 R] /Count 1 >>",
            "<< /Type /Font >>",
        ],
        "/Root 1 0 R",
    );
    let size = data.len() as u64;
    let mut document = Document::from_data(data, size).expect("document");
    let mut pages = document.pages();
    match document.next_page(&mut pages) {
        Err(PagesError::UnexpectedNodeType { got }) => assert_eq!(got, "Font"),
        other => panic!("unexpected {:?}", other.map(|_| ())),
    }
}

#[test]
fn walk_reports_page_without_media_box() {
    let data = build_pdf(
        &[
            "<< /Type /Catalog /Pages 2 0 R >>",
            "<< /Type /Pages /Kids [3 0 R] /Count 1 >>",
            "<< /Type /Page /Resources <<>> >>",
        ],
        "/Root 1 0 R",
    );
    let size = data.len() as u64;
    let mut document = Document::from_data(data, size).expect("document");
    let mut pages = document.pages();
    match document.next_page(&mut pages) {
        Err(PagesError::InvalidPage(PageError::FieldNotFound { field })) => {
            assert_eq!(field, PageField::MediaBox)
        },
        other => panic!("unexpected {:?}", other.map(|_| ())),
    }
}

#[test]
fn walk_descends_into_nested_nodes() {
    let data = build_pdf(
        &[
            "<< /Type /Catalog /Pages 2 0 R >>",
            "<< /Type /Pages /Kids [3 0 R 5 0 R] /Count 2 /MediaBox [0 0 1 1] /Resources << /A 1 >> >>",
            "<< /Type /Pages /Kids [4 0 R] /Count 1 /Rotate 180 >>",
            "<< /Type /Page >>",
            "<< /Type /Page /Rotate 270 >>",
        ],
        "/Root 1 0 R",
    );
    let size = data.len() as u64;
    let mut document = Document::from_data(data, size).expect("document");
    let mut pages = document.pages();
    let p1 = document.next_page(&mut pages).expect("walk").expect("page");
    assert_eq!(p1.rotate, 180);
    assert!(p1.resources.get("A").is_some());
    let p2 = document.next_page(&mut pages).expect("walk").expect("page");
    assert_eq!(p2.rotate, 270);
    assert!(document.next_page(&mut pages).expect("walk").is_none());
}

#[test]
fn catalog_layout_and_mode() {
    let (mut objects, metadata) = Objects::from_data(sample_pdf()).expect("objects");
    let root_object = objects.get_object(&metadata.root_id).expect("root");
    let root = Root::from_object(root_object, &mut objects).expect("catalog");
    assert_eq!(root.page_layout, PageLayout::OneColumn);
    assert_eq!(root.page_mode, PageMode::UseOutlines);
    assert_eq!(root.pages.leaf_count, 2);
    assert_eq!(root.pages.kids.len(), 2);
    assert!(root.version.is_none());
    assert!(root.names.is_none());
}

fn dict(entries: Vec<(&str, Object)>) -> Dictionary {
    let mut d = Dictionary::new();
    for (k, v) in entries {
        d.insert(k.to_string(), v);
    }
    d
}

fn name(n: &str) -> Object {
    Object::Name(n.to_string())
}

fn resources_pdf() -> Vec<u8> {
    build_pdf(
        &[
            "<< /Type /Catalog /Pages 2 0 R >>",
            "<< /Type /Pages /Kids [] /Count 0 >>",
            "<< /GS1 << /LW 2 >> >>",
            "[/PDF /ImageB]",
        ],
        "/Root 1 0 R",
    )
}

#[test]
fn resources_bind_every_category() {
    let (mut objects, _) = Objects::from_data(resources_pdf()).expect("objects");
    let d = dict(vec![
        ("ExtGState", Object::IndirectReference(IndirectReference { id: 3, gen_id: 0 })),
        (
            "Font",
            Object::Dictionary(dict(vec![
                ("F1", Object::Dictionary(dict(vec![("Type", name("Font"))]))),
                ("Shared", name("X")),
            ])),
        ),
        ("ProcSet", Object::Array(Array::from_vec(vec![name("PDF"), name("ImageB")]))),
        ("Properties", Object::Dictionary(dict(vec![("Shared", Object::Numeric(integer(7)))]))),
    ]);
    let resources = Resources::from_dictionary(&d, &mut objects).expect("resources");
    assert_eq!(resources.len(), 5);
    assert_eq!(
        resources.to_text(),
        "F1: Font\nGS1: ExtGState\nImageB: ProcSet\nPDF: ProcSet\nShared: Properties\n"
    );
    // A name that a later category gives replaces the earlier one.
    assert_eq!(
        resources.get("Shared"),
        Some(&Resource::Properties { object: Object::Numeric(integer(7)) })
    );
    match resources.get("GS1") {
        Some(Resource::ExtGState { object }) => assert!(object.as_dictionary().is_ok()),
        other => panic!("unexpected {:?}", other),
    }
    assert_eq!(resources.get("PDF").map(|r| r.kind()), Some(ResourceField::ProcSet));
    assert_eq!(resources.get("F2"), None);
}

#[test]
fn resources_of_an_empty_dictionary() {
    let (mut objects, _) = Objects::from_data(resources_pdf()).expect("objects");
    let resources = Resources::from_dictionary(&Dictionary::new(), &mut objects).expect("resources");
    assert_eq!(resources.len(), 0);
    assert_eq!(resources.to_text(), "");
}

#[test]
fn resources_errors() {
    let (mut objects, _) = Objects::from_data(resources_pdf()).expect("objects");
    let not_dictionary = dict(vec![("ColorSpace", Object::Numeric(integer(5)))]);
    assert_eq!(
        Resources::from_dictionary(&not_dictionary, &mut objects),
        Err(ResourcesError::InvalidType {
            field: ResourceField::ColorSpace,
            source: ObjectError::UnexpectedObjectType { expected: ObjectKind::Dictionary },
        })
    );
    // Fonts are not looked up: a reference there is no dictionary.
    let font_reference = dict(vec![(
        "Font",
        Object::IndirectReference(IndirectReference { id: 3, gen_id: 0 }),
    )]);
    assert_eq!(
        Resources::from_dictionary(&font_reference, &mut objects),
        Err(ResourcesError::InvalidType {
            field: ResourceField::Font,
            source: ObjectError::UnexpectedObjectType { expected: ObjectKind::Dictionary },
        })
    );
    let bad_names = dict(vec![("ProcSet", Object::Array(Array::from_vec(vec![name("PDF"), Object::Numeric(integer(3))])))]);
    assert_eq!(
        Resources::from_dictionary(&bad_names, &mut objects),
        Err(ResourcesError::InvalidArray {
            field: ResourceField::ProcSet,
            source: ArrayError::FailedArrayConvertion(ObjectError::UnexpectedObjectType {
                expected: ObjectKind::Name
            }),
        })
    );
    // An array that an indirect object holds is no array.
    let referenced_names = dict(vec![(
        "ProcSet",
        Object::IndirectReference(IndirectReference { id: 4, gen_id: 0 }),
    )]);
    assert_eq!(
        Resources::from_dictionary(&referenced_names, &mut objects),
        Err(ResourcesError::InvalidArray {
            field: ResourceField::ProcSet,
            source: ArrayError::UnexpectedObjectType,
        })
    );
    let not_array = dict(vec![("ProcSet", name("PDF"))]);
    assert_eq!(
        Resources::from_dictionary(&not_array, &mut objects),
        Err(ResourcesError::InvalidArray {
            field: ResourceField::ProcSet,
            source: ArrayError::UnexpectedObjectType,
        })
    );
    // The first category that fails gives the error.
    let two_bad = dict(vec![("Properties", Object::Null), ("Pattern", Object::Null)]);
    assert_eq!(
        Resources::from_dictionary(&two_bad, &mut objects),
        Err(ResourcesError::InvalidType {
            field: ResourceField::Pattern,
            source: ObjectError::UnexpectedObjectType { expected: ObjectKind::Dictionary },
        })
    );
}

#[test]
fn array_elements_resolved_with_objects() {
    let (mut objects, _) = Objects::from_data(resources_pdf()).expect("objects");
    let array = Object::Array(Array::from_vec(vec![
        Object::IndirectReference(IndirectReference { id: 4, gen_id: 0 }),
        name("Direct"),
    ]));
    let resolved = array.as_array().with_objects(&mut objects).expect("resolved");
    assert_eq!(resolved.len(), 2);
    match resolved.get(0) {
        Some(Object::IndirectDefinition(io)) => assert_eq!(io.id, 4),
        other => panic!("unexpected {:?}", other),
    }
    assert_eq!(resolved.get(1), Some(&name("Direct")));

    let dangling = Object::Array(Array::from_vec(vec![Object::IndirectReference(IndirectReference {
        id: 40,
        gen_id: 0,
    })]));
    assert!(matches!(
        dangling.as_array().with_objects(&mut objects),
        Err(docv_pdf::objects::ResolveError::ObjectNotFound { .. })
    ));
    assert_eq!(
        Object::Null.as_array().with_objects(&mut objects),
        Err(docv_pdf::objects::ResolveError::UnexpectedObjectType)
    );
}

#[test]
fn page_errors_follow_the_entries() {
    let (mut objects, _) = Objects::from_data(resources_pdf()).expect("objects");
    let media = Object::Array(Array::from_vec(vec![
        Object::Numeric(integer(0)),
        Object::Numeric(integer(0)),
        Object::Numeric(integer(10)),
        Object::Numeric(integer(20)),
    ]));
    let attrs = InheritableAttributes::new();
    let no_resources = dict(vec![("MediaBox", media.copy())]);
    assert!(matches!(
        Page::from_dictionary(&no_resources, &attrs, &mut objects),
        Err(PageError::FieldNotFound { field: PageField::Resources })
    ));
    let good = dict(vec![("MediaBox", media.copy()), ("Resources", Object::Dictionary(Dictionary::new()))]);
    let page = Page::from_dictionary(&good, &attrs, &mut objects).expect("page");
    assert!(page.contents.is_empty());
    assert_eq!(page.rotate, 0);
    let bad_annots = dict(vec![
        ("MediaBox", media.copy()),
        ("Resources", Object::Dictionary(Dictionary::new())),
        ("Annots", Object::Null),
    ]);
    assert!(matches!(
        Page::from_dictionary(&bad_annots, &attrs, &mut objects),
        Err(PageError::InvalidArray { field: PageField::Annots, .. })
    ));
}

#[test]
fn entry_with_no_object_text_fails_to_read() {
    let mut data = build_pdf(&["<< /Type /Catalog /Pages 2 0 R >>", "<< >>"], "/Root 1 0 R");
    // The text at the offset of object 2 is made into no object at all.
    let at = data.windows(7).position(|w| w == b"2 0 obj").expect("object 2");
    data[at..at + 7].copy_from_slice(b")))))))");
    let (mut objects, _) = Objects::from_data(data).expect("objects");
    assert_eq!(objects.get_object(&IndirectReference { id: 2, gen_id: 0 }), Err(ObjectsError::ReadEntry));
    // The catalog is still there.
    assert!(objects.get_object(&IndirectReference { id: 1, gen_id: 0 }).is_ok());
}
