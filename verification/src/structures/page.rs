//! A page of the document: its content streams, resources, boxes and the
//! other entries of its page dictionary, with the attributes it inherits.

use vstd::prelude::*;

use crate::objects::{
    element_good, element_stream, element_streams, extends, lemma_extends_trans, obtainable, resolved,
    stands_for, ElementError, Objects, ObjectsError,
};
use crate::parser::date::{date_of, date_overflows, spec_string_date, Date};
use crate::structures::fields::{
    get_array, get_dictionary, get_number, get_rectangle, get_stream, get_u16, get_usize,
    opt_field, spec_as_array, spec_as_number,
};
use crate::structures::pages_tree::{or_keep, AttributesModel, InheritableAttributes, RectangleModel};
use crate::structures::xref::spec_as_usize;
use crate::text::same_text;
use crate::types::array::{spec_rectangle, Array, ArrayError};
use crate::types::dictionary::{dict_get, Dictionary};
use crate::types::indirect_object::IndirectReference;
use crate::types::numeric::{Numeric, NumericModel};
use crate::types::object::{
    spec_as_dictionary, spec_as_name, spec_as_stream_parts, spec_as_u16, Object, ObjectError,
    ObjectKind, ObjectModel,
};
use crate::types::rectangle::Rectangle;
use crate::types::stream::Stream;
use crate::types::string::{string_bytes, string_text, StringError, StringModel};

verus! {

/// The entries of a dictionary.
pub type Entries = Seq<(Seq<char>, ObjectModel)>;

/// The value of a stream: its dictionary and data.
pub type StreamModel = (Seq<(Seq<char>, ObjectModel)>, Seq<u8>);

/// The order in which annotations are visited with the tab key.
#[derive(Debug, Clone, Copy, PartialEq, Eq, Structural)]
pub enum TabOrder {
    Row,
    Column,
    Structure,
    Unspecified,
}

impl Default for TabOrder {
    /// No order given.
    fn default() -> (r: Self)
        ensures
            r == TabOrder::Unspecified,
    {
        TabOrder::Unspecified
    }
}

/// The text of a tab order.
pub open spec fn tab_order_text(t: TabOrder) -> Seq<char> {
    match t {
        TabOrder::Row => "Row"@,
        TabOrder::Column => "Column"@,
        TabOrder::Structure => "Structure"@,
        TabOrder::Unspecified => "None"@,
    }
}

impl TabOrder {
    /// The text of the order.
    pub fn as_str(&self) -> (r: &'static str)
        ensures
            r@ == tab_order_text(*self),
    {
        match self {
            TabOrder::Row => "Row",
            TabOrder::Column => "Column",
            TabOrder::Structure => "Structure",
            TabOrder::Unspecified => "None",
        }
    }
}

/// The order that a `Tabs` name stands for: `R`, `C`, `S`, else none.
pub open spec fn tab_order_of(n: Seq<char>) -> TabOrder {
    if n == "R"@ {
        TabOrder::Row
    } else if n == "C"@ {
        TabOrder::Column
    } else if n == "S"@ {
        TabOrder::Structure
    } else {
        TabOrder::Unspecified
    }
}

/// An entry of a page dictionary.
#[derive(Debug, Clone, Copy, PartialEq, Eq, Structural)]
pub enum PageField {
    Contents,
    Resources,
    MediaBox,
    CropBox,
    BleedBox,
    TrimBox,
    ArtBox,
    Rotate,
    UserUnit,
    LastModified,
    BoxColorInfo,
    Group,
    Thumb,
    B,
    Dur,
    Trans,
    Annots,
    AA,
    Metadata,
    PieceInfo,
    StructParents,
    ID,
    PZ,
    SeparationInfo,
    Tabs,
    TemplateInstantiated,
    PresSteps,
    VP,
}

/// Why a page could not be read.
#[derive(Debug, PartialEq)]
pub enum PageError {
    FieldNotFound { field: PageField },
    InvalidType { field: PageField, source: ObjectError },
    InvalidArray { field: PageField, source: ArrayError },
    InvalidDate { field: PageField, source: StringError },
    /// The offset of the time zone of a date does not fit in 32 bits while
    /// it is computed.
    UnreadableDate { field: PageField },
    /// `Contents` stands for neither a stream nor an array of streams.
    FailedResolveContents { object: Object, source: ArrayError },
    /// An element of the `Contents` array refers to an object that could
    /// not be had.
    ContentsObjectNotFound { object: Object, reference: IndirectReference, source: ObjectsError },
}

/// The kinds of [`PageError`] that reading entries without looking up
/// objects gives, as values.
pub enum PageFailure {
    FieldNotFound(PageField),
    InvalidType(PageField, ObjectError),
    InvalidArray(PageField, ArrayError),
    InvalidDate(PageField),
    UnreadableDate(PageField),
}

/// An error agrees with a failure.
pub open spec fn page_error_agrees(e: PageError, f: PageFailure) -> bool {
    match f {
        PageFailure::FieldNotFound(x) => e == PageError::FieldNotFound { field: x },
        PageFailure::InvalidType(x, s) => e == PageError::InvalidType { field: x, source: s },
        PageFailure::InvalidArray(x, s) => e == PageError::InvalidArray { field: x, source: s },
        PageFailure::InvalidDate(x) => e matches PageError::InvalidDate { field, .. } && field == x,
        PageFailure::UnreadableDate(x) => e == PageError::UnreadableDate { field: x },
    }
}

/// An optional entry read with `f`, its error a wrong type of `field`.
pub open spec fn typed<V>(o: Option<ObjectModel>, f: spec_fn(ObjectModel) -> Result<V, ObjectError>, field: PageField) -> Result<
    Option<V>,
    PageFailure,
> {
    match opt_field(o, f) {
        Ok(v) => Ok(v),
        Err(e) => Err(PageFailure::InvalidType(field, e)),
    }
}

/// An optional entry read with `f`, its error a wrong array of `field`.
pub open spec fn arrayed<V>(o: Option<ObjectModel>, f: spec_fn(ObjectModel) -> Result<V, ArrayError>, field: PageField) -> Result<
    Option<V>,
    PageFailure,
> {
    match opt_field(o, f) {
        Ok(v) => Ok(v),
        Err(e) => Err(PageFailure::InvalidArray(field, e)),
    }
}

/// An optional entry read as a date.
pub open spec fn spec_date_entry(o: Option<ObjectModel>, field: PageField) -> Result<Option<Date>, PageFailure> {
    match o {
        None => Ok(None),
        Some(ObjectModel::String(sm)) => match string_text(sm) {
            None => Err(PageFailure::InvalidDate(field)),
            Some(t) => if date_overflows(t) {
                Err(PageFailure::UnreadableDate(field))
            } else {
                match spec_string_date(t) {
                    Some((d, secs, _)) => Ok(Some(date_of(d, secs))),
                    None => Err(PageFailure::InvalidDate(field)),
                }
            },
        },
        Some(_) => Err(
            PageFailure::InvalidType(
                field,
                ObjectError::UnexpectedObjectType { expected: ObjectKind::String },
            ),
        ),
    }
}

/// An object read as the bytes of a string.
pub open spec fn spec_string_bytes(o: ObjectModel) -> Result<Seq<u8>, ObjectError> {
    match o {
        ObjectModel::String(sm) => Ok(string_bytes(sm)),
        _ => Err(ObjectError::UnexpectedObjectType { expected: ObjectKind::String }),
    }
}

/// The entries of a page that are read between its resources and its
/// annotations.
pub struct BoxesModel {
    pub media_box: RectangleModel,
    pub crop_box: RectangleModel,
    pub bleed_box: RectangleModel,
    pub trim_box: RectangleModel,
    pub art_box: RectangleModel,
    pub rotate: u16,
    pub user_unit: NumericModel,
    pub last_modified: Option<Date>,
    pub box_color_info: Option<Entries>,
    pub group: Option<Entries>,
    pub thumb: Option<StreamModel>,
    pub b: Option<Seq<ObjectModel>>,
    pub dur: Option<NumericModel>,
    pub trans: Option<Entries>,
}

/// What the entries of the page `d` from `MediaBox` to `UserUnit` give,
/// with the attributes `a` inherited: the media, crop, bleed, trim and art
/// boxes, the rotation and the user unit. The crop box is the media box
/// when neither gives it; the bleed, trim and art boxes are the crop box
/// when not given; rotation is 0 and the user unit 1 when not given.
pub open spec fn spec_box_head(d: Entries, a: AttributesModel) -> Result<
    (RectangleModel, RectangleModel, RectangleModel, RectangleModel, RectangleModel, u16, NumericModel),
    PageFailure,
> {
    match arrayed(dict_get(d, "MediaBox"@), |o: ObjectModel| spec_rectangle(o), PageField::MediaBox) {
        Err(f) => Err(f),
        Ok(mb) => match or_keep(mb, a.media_box) {
            None => Err(PageFailure::FieldNotFound(PageField::MediaBox)),
            Some(media_box) => match arrayed(dict_get(d, "CropBox"@), |o: ObjectModel| spec_rectangle(o), PageField::CropBox) {
                Err(f) => Err(f),
                Ok(cb) => {
                    let crop_box = match or_keep(cb, a.crop_box) {
                        Some(c) => c,
                        None => media_box,
                    };
                    match arrayed(dict_get(d, "BleedBox"@), |o: ObjectModel| spec_rectangle(o), PageField::BleedBox) {
                        Err(f) => Err(f),
                        Ok(bb) => match arrayed(dict_get(d, "TrimBox"@), |o: ObjectModel| spec_rectangle(o), PageField::TrimBox) {
                            Err(f) => Err(f),
                            Ok(tb) => match arrayed(dict_get(d, "ArtBox"@), |o: ObjectModel| spec_rectangle(o), PageField::ArtBox) {
                                Err(f) => Err(f),
                                Ok(ab) => match typed(dict_get(d, "Rotate"@), |o: ObjectModel| spec_as_u16(o), PageField::Rotate) {
                                    Err(f) => Err(f),
                                    Ok(rot) => match typed(dict_get(d, "UserUnit"@), |o: ObjectModel| spec_as_number(o), PageField::UserUnit) {
                                        Err(f) => Err(f),
                                        Ok(uu) => Ok(
                                            (
                                                media_box,
                                                crop_box,
                                                match bb {
                                                    Some(x) => x,
                                                    None => crop_box,
                                                },
                                                match tb {
                                                    Some(x) => x,
                                                    None => crop_box,
                                                },
                                                match ab {
                                                    Some(x) => x,
                                                    None => crop_box,
                                                },
                                                match or_keep(rot, a.rotate) {
                                                    Some(x) => x,
                                                    None => 0,
                                                },
                                                match uu {
                                                    Some(x) => x,
                                                    None => NumericModel::Integer(1),
                                                },
                                            ),
                                        ),
                                    },
                                },
                            },
                        },
                    }
                },
            },
        },
    }
}

/// What the entries of the page `d` from `MediaBox` to `Trans` give, with
/// the attributes `a` inherited.
pub open spec fn spec_boxes(d: Entries, a: AttributesModel) -> Result<BoxesModel, PageFailure> {
    match spec_box_head(d, a) {
        Err(f) => Err(f),
        Ok((media_box, crop_box, bleed_box, trim_box, art_box, rotate, user_unit)) => match spec_boxes_rest(d) {
            Err(f) => Err(f),
            Ok((lm, bci, group, thumb, b, dur, trans)) => Ok(
                BoxesModel {
                    media_box,
                    crop_box,
                    bleed_box,
                    trim_box,
                    art_box,
                    rotate,
                    user_unit,
                    last_modified: lm,
                    box_color_info: bci,
                    group,
                    thumb,
                    b,
                    dur,
                    trans,
                },
            ),
        },
    }
}

/// What the entries from `LastModified` to `Trans` give.
pub open spec fn spec_boxes_rest(d: Entries) -> Result<
    (Option<Date>, Option<Entries>, Option<Entries>, Option<StreamModel>, Option<Seq<ObjectModel>>, Option<NumericModel>, Option<Entries>),
    PageFailure,
> {
    match spec_date_entry(dict_get(d, "LastModified"@), PageField::LastModified) {
        Err(f) => Err(f),
        Ok(lm) => match typed(dict_get(d, "BoxColorInfo"@), |o: ObjectModel| spec_as_dictionary(o), PageField::BoxColorInfo) {
            Err(f) => Err(f),
            Ok(bci) => match typed(dict_get(d, "Group"@), |o: ObjectModel| spec_as_dictionary(o), PageField::Group) {
                Err(f) => Err(f),
                Ok(group) => match typed(dict_get(d, "Thumb"@), |o: ObjectModel| spec_as_stream_parts(o), PageField::Thumb) {
                    Err(f) => Err(f),
                    Ok(thumb) => match arrayed(dict_get(d, "B"@), |o: ObjectModel| spec_as_array(o), PageField::B) {
                        Err(f) => Err(f),
                        Ok(b) => match typed(dict_get(d, "Dur"@), |o: ObjectModel| spec_as_number(o), PageField::Dur) {
                            Err(f) => Err(f),
                            Ok(dur) => match typed(dict_get(d, "Trans"@), |o: ObjectModel| spec_as_dictionary(o), PageField::Trans) {
                                Err(f) => Err(f),
                                Ok(trans) => Ok((lm, bci, group, thumb, b, dur, trans)),
                            },
                        },
                    },
                },
            },
        },
    }
}

/// The entries of a page that are read after its annotations.
pub struct TailModel {
    pub aa: Option<Entries>,
    pub metadata: Option<StreamModel>,
    pub piece_info: Option<Entries>,
    pub struct_parents: Option<usize>,
    pub id: Option<Seq<u8>>,
    pub pz: Option<NumericModel>,
    pub separation_info: Option<Entries>,
    pub tabs: TabOrder,
    pub template_instantiated: Option<Seq<char>>,
    pub pres_steps: Option<Entries>,
    pub vp: Option<Entries>,
}

/// What the entries of the page `d` from `AA` to `VP` give.
pub open spec fn spec_tail(d: Entries) -> Result<TailModel, PageFailure> {
    match typed(dict_get(d, "AA"@), |o: ObjectModel| spec_as_dictionary(o), PageField::AA) {
        Err(f) => Err(f),
        Ok(aa) => match typed(dict_get(d, "Metadata"@), |o: ObjectModel| spec_as_stream_parts(o), PageField::Metadata) {
            Err(f) => Err(f),
            Ok(metadata) => match typed(dict_get(d, "PieceInfo"@), |o: ObjectModel| spec_as_dictionary(o), PageField::PieceInfo) {
                Err(f) => Err(f),
                Ok(piece_info) => match typed(dict_get(d, "StructParents"@), |o: ObjectModel| spec_as_usize(o), PageField::StructParents) {
                    Err(f) => Err(f),
                    Ok(sp) => match typed(dict_get(d, "ID"@), |o: ObjectModel| spec_string_bytes(o), PageField::ID) {
                        Err(f) => Err(f),
                        Ok(id) => match typed(dict_get(d, "PZ"@), |o: ObjectModel| spec_as_number(o), PageField::PZ) {
                            Err(f) => Err(f),
                            Ok(pz) => match typed(dict_get(d, "SeparationInfo"@), |o: ObjectModel| spec_as_dictionary(o), PageField::SeparationInfo) {
                                Err(f) => Err(f),
                                Ok(si) => match typed(dict_get(d, "Tabs"@), |o: ObjectModel| spec_as_name(o), PageField::Tabs) {
                                    Err(f) => Err(f),
                                    Ok(tabs) => match typed(dict_get(d, "TemplateInstantiated"@), |o: ObjectModel| spec_as_name(o), PageField::TemplateInstantiated) {
                                        Err(f) => Err(f),
                                        Ok(ti) => match typed(dict_get(d, "PresSteps"@), |o: ObjectModel| spec_as_dictionary(o), PageField::PresSteps) {
                                            Err(f) => Err(f),
                                            Ok(ps) => match typed(dict_get(d, "VP"@), |o: ObjectModel| spec_as_dictionary(o), PageField::VP) {
                                                Err(f) => Err(f),
                                                Ok(vp) => Ok(
                                                    TailModel {
                                                        aa,
                                                        metadata,
                                                        piece_info,
                                                        struct_parents: sp,
                                                        id,
                                                        pz,
                                                        separation_info: si,
                                                        tabs: match tabs {
                                                            Some(n) => tab_order_of(n),
                                                            None => TabOrder::Unspecified,
                                                        },
                                                        template_instantiated: ti,
                                                        pres_steps: ps,
                                                        vp,
                                                    },
                                                ),
                                            },
                                        },
                                    },
                                },
                            },
                        },
                    },
                },
            },
        },
    }
}

/// The value of an optional dictionary.
pub open spec fn opt_entries(d: Option<Dictionary>) -> Option<Entries> {
    match d {
        Some(x) => Some(x@),
        None => None,
    }
}

/// The value of an optional stream.
pub open spec fn opt_stream(s: Option<Stream>) -> Option<StreamModel> {
    match s {
        Some(x) => Some(x@),
        None => None,
    }
}

/// The value of an optional number.
pub open spec fn opt_number(n: Option<Numeric>) -> Option<NumericModel> {
    match n {
        Some(x) => Some(x@),
        None => None,
    }
}

/// The values of streams.
pub open spec fn streams_view(v: Seq<Stream>) -> Seq<StreamModel> {
    v.map_values(|s: Stream| s@)
}

/// A page.
#[derive(Debug)]
pub struct Page {
    pub contents: Vec<Stream>,
    pub resources: Dictionary,
    pub user_unit: Numeric,
    pub rotate: u16,
    pub media_box: Rectangle,
    pub crop_box: Rectangle,
    pub bleed_box: Rectangle,
    pub trim_box: Rectangle,
    pub art_box: Rectangle,
    pub last_modified: Option<Date>,
    pub box_color_info: Option<Dictionary>,
    pub group: Option<Dictionary>,
    pub thumb: Option<Stream>,
    pub b: Option<Array>,
    pub dur: Option<Numeric>,
    pub trans: Option<Dictionary>,
    pub annots: Option<Array>,
    pub aa: Option<Dictionary>,
    pub metadata: Option<Stream>,
    pub piece_info: Option<Dictionary>,
    pub struct_parents: Option<usize>,
    pub id: Option<Vec<u8>>,
    pub pz: Option<Numeric>,
    pub separation_info: Option<Dictionary>,
    pub tabs: TabOrder,
    pub template_instantiated: Option<String>,
    pub pres_steps: Option<Dictionary>,
    pub vp: Option<Dictionary>,
}

impl Page {
    /// The entries from `MediaBox` to `Trans`, as values.
    pub open spec fn boxes_view(&self) -> BoxesModel {
        BoxesModel {
            media_box: self.media_box@,
            crop_box: self.crop_box@,
            bleed_box: self.bleed_box@,
            trim_box: self.trim_box@,
            art_box: self.art_box@,
            rotate: self.rotate,
            user_unit: self.user_unit@,
            last_modified: self.last_modified,
            box_color_info: opt_entries(self.box_color_info),
            group: opt_entries(self.group),
            thumb: opt_stream(self.thumb),
            b: match self.b {
                Some(x) => Some(x@),
                None => None,
            },
            dur: opt_number(self.dur),
            trans: opt_entries(self.trans),
        }
    }

    /// The entries from `AA` to `VP`, as values.
    pub open spec fn tail_view(&self) -> TailModel {
        TailModel {
            aa: opt_entries(self.aa),
            metadata: opt_stream(self.metadata),
            piece_info: opt_entries(self.piece_info),
            struct_parents: self.struct_parents,
            id: match self.id {
                Some(x) => Some(x@),
                None => None,
            },
            pz: opt_number(self.pz),
            separation_info: opt_entries(self.separation_info),
            tabs: self.tabs,
            template_instantiated: match self.template_instantiated {
                Some(x) => Some(x@),
                None => None,
            },
            pres_steps: opt_entries(self.pres_steps),
            vp: opt_entries(self.vp),
        }
    }
}

/// `v` are the content streams that the `Contents` entry `o` gives in `m`:
/// none when it is absent; the stream that it stands for; or the streams
/// that the elements of the array it stands for give.
pub open spec fn contents_read(m: crate::objects::ObjectsModel, o: Option<ObjectModel>, v: Seq<StreamModel>) -> bool {
    match o {
        None => v.len() == 0,
        Some(x) => exists|t: ObjectModel|
            #![trigger stands_for(m, x, t)]
            stands_for(m, x, t) && match spec_as_stream_parts(t) {
                Ok(s) => v == seq![s],
                Err(_) => t matches ObjectModel::Array(items) && v.len() == items.len() && forall|i: int|
                    0 <= i < v.len() ==> #[trigger] element_stream(m, items[i], v[i]),
            },
    }
}

/// `r` is the resource dictionary that the `Resources` entry `o` gives in
/// `m`: the dictionary that it stands for, or the inherited one when absent.
pub open spec fn resources_read(m: crate::objects::ObjectsModel, o: Option<ObjectModel>, inherited: Option<Entries>, r: Entries) -> bool {
    match o {
        None => inherited == Some(r),
        Some(x) => exists|t: ObjectModel|
            #![trigger stands_for(m, x, t)]
            stands_for(m, x, t) && spec_as_dictionary(t) == Ok::<Entries, ObjectError>(r),
    }
}

/// `a` are the annotations that the `Annots` entry `o` gives in `m`: the
/// elements of the array that it stands for, or none when absent.
pub open spec fn annots_read(m: crate::objects::ObjectsModel, o: Option<ObjectModel>, a: Option<Seq<ObjectModel>>) -> bool {
    match o {
        None => a is None,
        Some(x) => exists|t: ObjectModel|
            #![trigger stands_for(m, x, t)]
            stands_for(m, x, t) && a == Some(spec_as_array(t)->Ok_0) && spec_as_array(t) is Ok,
    }
}

/// `p` is the page that the page dictionary `d` gives in `m`, with the
/// attributes `a` inherited.
pub open spec fn page_read(m: crate::objects::ObjectsModel, d: Entries, a: AttributesModel, p: Page) -> bool {
    &&& contents_read(m, dict_get(d, "Contents"@), streams_view(p.contents@))
    &&& resources_read(m, dict_get(d, "Resources"@), a.resources, p.resources@)
    &&& spec_boxes(d, a) == Ok::<BoxesModel, PageFailure>(p.boxes_view())
    &&& annots_read(
        m,
        dict_get(d, "Annots"@),
        match p.annots {
            Some(y) => Some(y@),
            None => None,
        },
    )
    &&& spec_tail(d) == Ok::<TailModel, PageFailure>(p.tail_view())
}

/// Reads the entries from `LastModified` to `Trans`.
fn read_boxes_rest(d: &Dictionary) -> (r: Result<
    (Option<Date>, Option<Dictionary>, Option<Dictionary>, Option<Stream>, Option<Array>, Option<Numeric>, Option<Dictionary>),
    PageError,
>)
    ensures
        match spec_boxes_rest(d@) {
            Ok(v) => r matches Ok(x) && v == (
                x.0,
                opt_entries(x.1),
                opt_entries(x.2),
                opt_stream(x.3),
                match x.4 {
                    Some(a) => Some(a@),
                    None => None,
                },
                opt_number(x.5),
                opt_entries(x.6),
            ),
            Err(f) => r matches Err(e) && page_error_agrees(e, f),
        },
{
    let last_modified = match d.get("LastModified") {
        None => None,
        Some(o) => match o.as_string() {
            Err(e) => {
                return Err(PageError::InvalidType { field: PageField::LastModified, source: e });
            },
            Ok(s) => match s.to_date_checked() {
                None => {
                    return Err(PageError::UnreadableDate { field: PageField::LastModified });
                },
                Some(Ok(date)) => Some(date),
                Some(Err(e)) => {
                    return Err(PageError::InvalidDate { field: PageField::LastModified, source: e });
                },
            },
        },
    };
    let box_color_info = match get_dictionary(d, "BoxColorInfo") {
        Ok(v) => v,
        Err(e) => {
            return Err(PageError::InvalidType { field: PageField::BoxColorInfo, source: e });
        },
    };
    let group = match get_dictionary(d, "Group") {
        Ok(v) => v,
        Err(e) => {
            return Err(PageError::InvalidType { field: PageField::Group, source: e });
        },
    };
    let thumb = match get_stream(d, "Thumb") {
        Ok(v) => v,
        Err(e) => {
            return Err(PageError::InvalidType { field: PageField::Thumb, source: e });
        },
    };
    let b = match get_array(d, "B") {
        Ok(v) => v,
        Err(e) => {
            return Err(PageError::InvalidArray { field: PageField::B, source: e });
        },
    };
    let dur = match get_number(d, "Dur") {
        Ok(v) => v,
        Err(e) => {
            return Err(PageError::InvalidType { field: PageField::Dur, source: e });
        },
    };
    let trans = match get_dictionary(d, "Trans") {
        Ok(v) => v,
        Err(e) => {
            return Err(PageError::InvalidType { field: PageField::Trans, source: e });
        },
    };
    Ok((last_modified, box_color_info, group, thumb, b, dur, trans))
}

/// Reads the entries from `MediaBox` to `Trans`.
fn read_boxes(d: &Dictionary, a: &InheritableAttributes) -> (r: Result<
    (Rectangle, Rectangle, Rectangle, Rectangle, Rectangle, u16, Numeric),
    PageError,
>)
    ensures
        match spec_box_head(d@, a@) {
            Ok(v) => r matches Ok(x) && (x.0@, x.1@, x.2@, x.3@, x.4@, x.5, x.6@) == v,
            Err(f) => r matches Err(e) && page_error_agrees(e, f),
        },
{
    let mb = match get_rectangle(d, "MediaBox") {
        Ok(v) => v,
        Err(e) => {
            return Err(PageError::InvalidArray { field: PageField::MediaBox, source: e });
        },
    };
    let media_box = match mb {
        Some(x) => x,
        None => match &a.media_box {
            Some(x) => x.copy(),
            None => {
                return Err(PageError::FieldNotFound { field: PageField::MediaBox });
            },
        },
    };
    let cb = match get_rectangle(d, "CropBox") {
        Ok(v) => v,
        Err(e) => {
            return Err(PageError::InvalidArray { field: PageField::CropBox, source: e });
        },
    };
    let crop_box = match cb {
        Some(x) => x,
        None => match &a.crop_box {
            Some(x) => x.copy(),
            None => media_box.copy(),
        },
    };
    let bleed_box = match get_rectangle(d, "BleedBox") {
        Ok(Some(x)) => x,
        Ok(None) => crop_box.copy(),
        Err(e) => {
            return Err(PageError::InvalidArray { field: PageField::BleedBox, source: e });
        },
    };
    let trim_box = match get_rectangle(d, "TrimBox") {
        Ok(Some(x)) => x,
        Ok(None) => crop_box.copy(),
        Err(e) => {
            return Err(PageError::InvalidArray { field: PageField::TrimBox, source: e });
        },
    };
    let art_box = match get_rectangle(d, "ArtBox") {
        Ok(Some(x)) => x,
        Ok(None) => crop_box.copy(),
        Err(e) => {
            return Err(PageError::InvalidArray { field: PageField::ArtBox, source: e });
        },
    };
    let rotate = match get_u16(d, "Rotate") {
        Ok(Some(x)) => x,
        Ok(None) => match a.rotate {
            Some(x) => x,
            None => 0,
        },
        Err(e) => {
            return Err(PageError::InvalidType { field: PageField::Rotate, source: e });
        },
    };
    let user_unit = match get_number(d, "UserUnit") {
        Ok(Some(x)) => x,
        Ok(None) => Numeric::Integer(1),
        Err(e) => {
            return Err(PageError::InvalidType { field: PageField::UserUnit, source: e });
        },
    };
    Ok((media_box, crop_box, bleed_box, trim_box, art_box, rotate, user_unit))
}

/// The entries of a page from `AA` to `VP`.
struct PageTail {
    aa: Option<Dictionary>,
    metadata: Option<Stream>,
    piece_info: Option<Dictionary>,
    struct_parents: Option<usize>,
    id: Option<Vec<u8>>,
    pz: Option<Numeric>,
    separation_info: Option<Dictionary>,
    tabs: TabOrder,
    template_instantiated: Option<String>,
    pres_steps: Option<Dictionary>,
    vp: Option<Dictionary>,
}

impl PageTail {
    spec fn model(&self) -> TailModel {
        TailModel {
            aa: opt_entries(self.aa),
            metadata: opt_stream(self.metadata),
            piece_info: opt_entries(self.piece_info),
            struct_parents: self.struct_parents,
            id: match self.id {
                Some(x) => Some(x@),
                None => None,
            },
            pz: opt_number(self.pz),
            separation_info: opt_entries(self.separation_info),
            tabs: self.tabs,
            template_instantiated: match self.template_instantiated {
                Some(x) => Some(x@),
                None => None,
            },
            pres_steps: opt_entries(self.pres_steps),
            vp: opt_entries(self.vp),
        }
    }
}

/// The order that a `Tabs` name stands for.
fn tab_order_from(name: &str) -> (r: TabOrder)
    ensures
        r == tab_order_of(name@),
{
    if same_text(name, "R") {
        TabOrder::Row
    } else if same_text(name, "C") {
        TabOrder::Column
    } else if same_text(name, "S") {
        TabOrder::Structure
    } else {
        TabOrder::Unspecified
    }
}

/// Reads the entries from `AA` to `VP`.
fn read_tail(d: &Dictionary) -> (r: Result<PageTail, PageError>)
    ensures
        match spec_tail(d@) {
            Ok(v) => r matches Ok(x) && x.model() == v,
            Err(f) => r matches Err(e) && page_error_agrees(e, f),
        },
{
    let aa = match get_dictionary(d, "AA") {
        Ok(v) => v,
        Err(e) => {
            return Err(PageError::InvalidType { field: PageField::AA, source: e });
        },
    };
    let metadata = match get_stream(d, "Metadata") {
        Ok(v) => v,
        Err(e) => {
            return Err(PageError::InvalidType { field: PageField::Metadata, source: e });
        },
    };
    let piece_info = match get_dictionary(d, "PieceInfo") {
        Ok(v) => v,
        Err(e) => {
            return Err(PageError::InvalidType { field: PageField::PieceInfo, source: e });
        },
    };
    let struct_parents = match get_usize(d, "StructParents") {
        Ok(v) => v,
        Err(e) => {
            return Err(PageError::InvalidType { field: PageField::StructParents, source: e });
        },
    };
    let id = match d.get("ID") {
        None => None,
        Some(o) => match o.as_string() {
            Ok(s) => Some(vstd::slice::slice_to_vec(s.as_bytes())),
            Err(e) => {
                return Err(PageError::InvalidType { field: PageField::ID, source: e });
            },
        },
    };
    let pz = match get_number(d, "PZ") {
        Ok(v) => v,
        Err(e) => {
            return Err(PageError::InvalidType { field: PageField::PZ, source: e });
        },
    };
    let separation_info = match get_dictionary(d, "SeparationInfo") {
        Ok(v) => v,
        Err(e) => {
            return Err(PageError::InvalidType { field: PageField::SeparationInfo, source: e });
        },
    };
    let tabs = match d.get("Tabs") {
        None => TabOrder::Unspecified,
        Some(o) => match o.as_name() {
            Ok(n) => tab_order_from(n),
            Err(e) => {
                return Err(PageError::InvalidType { field: PageField::Tabs, source: e });
            },
        },
    };
    let template_instantiated = match d.get("TemplateInstantiated") {
        None => None,
        Some(o) => match o.as_name() {
            Ok(n) => Some(n.to_string()),
            Err(e) => {
                return Err(
                    PageError::InvalidType { field: PageField::TemplateInstantiated, source: e },
                );
            },
        },
    };
    let pres_steps = match get_dictionary(d, "PresSteps") {
        Ok(v) => v,
        Err(e) => {
            return Err(PageError::InvalidType { field: PageField::PresSteps, source: e });
        },
    };
    let vp = match get_dictionary(d, "VP") {
        Ok(v) => v,
        Err(e) => {
            return Err(PageError::InvalidType { field: PageField::VP, source: e });
        },
    };
    Ok(
        PageTail {
            aa,
            metadata,
            piece_info,
            struct_parents,
            id,
            pz,
            separation_info,
            tabs,
            template_instantiated,
            pres_steps,
            vp,
        },
    )
}

/// What `x` stands for in `m` before it is looked up: the object that can
/// be had from `m` for it when it is a reference, else itself.
pub open spec fn resolve_in(m: crate::objects::ObjectsModel, x: ObjectModel) -> ObjectModel {
    match x {
        ObjectModel::IndirectReference(id, g) => match obtainable(m, (id as usize, g as usize)) {
            Some(v) => v,
            None => x,
        },
        _ => x,
    }
}

/// `x` can be had from what `m` holds: it is no reference, or the object
/// it refers to can be had.
pub open spec fn known_in(m: crate::objects::ObjectsModel, x: ObjectModel) -> bool {
    x matches ObjectModel::IndirectReference(id, g) ==> obtainable(m, (id as usize, g as usize)) is Some
}

/// The `Contents` entry `o` gives streams from what `m` holds: it is absent,
/// or stands for a stream or an array each of whose elements gives one.
pub open spec fn contents_good(m: crate::objects::ObjectsModel, o: Option<ObjectModel>) -> bool {
    match o {
        None => true,
        Some(x) => known_in(m, x) && (spec_as_stream_parts(resolve_in(m, x)) is Ok || (resolve_in(m, x) matches ObjectModel::Array(items)
            && elements_good(m, items))),
    }
}

/// Each of the array elements `items` gives a stream from what `m` holds.
#[verifier::opaque]
pub open spec fn elements_good(m: crate::objects::ObjectsModel, items: Seq<ObjectModel>) -> bool {
    forall|i: int| 0 <= i < items.len() ==> #[trigger] element_good(m, items[i])
}

/// What [`elements_good`] says.
proof fn lemma_elements_good(m: crate::objects::ObjectsModel, items: Seq<ObjectModel>)
    ensures
        elements_good(m, items) == forall|i: int| 0 <= i < items.len() ==> #[trigger] element_good(m, items[i]),
{
    reveal(elements_good);
}

/// The streams that the `Contents` entry `o` gives from what `m` holds.
pub open spec fn contents_of(m: crate::objects::ObjectsModel, o: Option<ObjectModel>) -> Seq<StreamModel> {
    match o {
        None => Seq::empty(),
        Some(x) => match spec_as_stream_parts(resolve_in(m, x)) {
            Ok(st) => seq![st],
            Err(_) => match resolve_in(m, x) {
                ObjectModel::Array(items) => Seq::new(items.len(), |i: int| element_parts(m, items[i])),
                _ => Seq::empty(),
            },
        },
    }
}

/// The stream that the array element `e` gives from what `m` holds.
pub open spec fn element_parts(m: crate::objects::ObjectsModel, e: ObjectModel) -> StreamModel {
    spec_as_stream_parts(resolve_in(m, e))->Ok_0
}

/// The `Resources` entry `o` gives a dictionary from what `m` holds, or is
/// absent and resources are inherited.
pub open spec fn resources_good(m: crate::objects::ObjectsModel, o: Option<ObjectModel>, inherited: Option<Entries>) -> bool {
    match o {
        None => inherited is Some,
        Some(x) => known_in(m, x) && spec_as_dictionary(resolve_in(m, x)) is Ok,
    }
}

/// The resources that the `Resources` entry `o` gives from what `m` holds.
pub open spec fn resources_of(m: crate::objects::ObjectsModel, o: Option<ObjectModel>, inherited: Option<Entries>) -> Entries {
    match o {
        None => inherited->Some_0,
        Some(x) => spec_as_dictionary(resolve_in(m, x))->Ok_0,
    }
}

/// The `Annots` entry `o` gives an array from what `m` holds, or is absent.
pub open spec fn annots_good(m: crate::objects::ObjectsModel, o: Option<ObjectModel>) -> bool {
    match o {
        None => true,
        Some(x) => known_in(m, x) && resolve_in(m, x) is Array,
    }
}

/// The annotations that the `Annots` entry `o` gives from what `m` holds.
pub open spec fn annots_of(m: crate::objects::ObjectsModel, o: Option<ObjectModel>) -> Option<Seq<ObjectModel>> {
    match o {
        None => None,
        Some(x) => Some(resolve_in(m, x)->Array_0),
    }
}

/// The entries of the page dictionary `d` that are looked up give what
/// they must from what `m` holds.
pub open spec fn lookups_good(m: crate::objects::ObjectsModel, d: Entries, a: AttributesModel) -> bool {
    &&& contents_good(m, dict_get(d, "Contents"@))
    &&& resources_good(m, dict_get(d, "Resources"@), a.resources)
    &&& annots_good(m, dict_get(d, "Annots"@))
}

/// What can be had from `a` stays the same while more is read.
proof fn lemma_resolve_in_stays(a: crate::objects::ObjectsModel, b: crate::objects::ObjectsModel, x: ObjectModel)
    requires
        extends(a, b),
        known_in(a, x),
    ensures
        known_in(b, x),
        resolve_in(b, x) == resolve_in(a, x),
{
    if x is IndirectReference {
        crate::objects::lemma_obtainable_stays(a, b, (x->IndirectReference_0 as usize, x->IndirectReference_1 as usize));
    }
}

/// An element that gives a stream keeps giving the same one.
proof fn lemma_element_stays(a: crate::objects::ObjectsModel, b: crate::objects::ObjectsModel, e: ObjectModel)
    requires
        extends(a, b),
        element_good(a, e),
    ensures
        element_good(b, e),
        resolve_in(b, e) == resolve_in(a, e),
{
    if e is IndirectReference {
        crate::objects::lemma_obtainable_stays(a, b, (e->IndirectReference_0 as usize, e->IndirectReference_1 as usize));
    }
}

/// Elements that give streams keep giving the same ones.
proof fn lemma_elements_stay(a: crate::objects::ObjectsModel, b: crate::objects::ObjectsModel, items: Seq<ObjectModel>)
    requires
        extends(a, b),
        elements_good(a, items),
    ensures
        elements_good(b, items),
        forall|i: int| 0 <= i < items.len() ==> #[trigger] element_parts(b, items[i]) == element_parts(a, items[i]),
{
    lemma_elements_good(a, items);
    lemma_elements_good(b, items);
    assert forall|i: int| 0 <= i < items.len() implies #[trigger] element_good(b, items[i]) by {
        lemma_element_stays(a, b, items[i]);
    }
    assert forall|i: int| 0 <= i < items.len() implies #[trigger] element_parts(b, items[i]) == element_parts(a, items[i]) by {
        lemma_element_stays(a, b, items[i]);
    }
}

/// The stream that an element gives from what `m0` holds is the one it
/// gives later.
proof fn lemma_element_parts(m0: crate::objects::ObjectsModel, m: crate::objects::ObjectsModel, e: ObjectModel, st: StreamModel)
    requires
        extends(m0, m),
        element_good(m0, e),
        element_stream(m, e, st),
    ensures
        st == element_parts(m0, e),
{
    if e is IndirectReference {
        crate::objects::lemma_obtained_later(m0, m, (e->IndirectReference_0 as usize, e->IndirectReference_1 as usize));
    }
}

/// The streams that good elements give are those they give from what `m0`
/// holds.
proof fn lemma_good_streams(m0: crate::objects::ObjectsModel, m: crate::objects::ObjectsModel, items: Seq<ObjectModel>, vs: Seq<StreamModel>)
    requires
        extends(m0, m),
        elements_good(m0, items),
        vs.len() == items.len(),
        forall|i: int| 0 <= i < vs.len() ==> #[trigger] element_stream(m, items[i], vs[i]),
    ensures
        vs == Seq::new(items.len(), |i: int| element_parts(m0, items[i])),
{
    lemma_elements_good(m0, items);
    assert forall|i: int| 0 <= i < items.len() implies vs[i] == element_parts(m0, items[i]) by {
        assert(element_good(m0, items[i]));
        assert(element_stream(m, items[i], vs[i]));
        lemma_element_parts(m0, m, items[i], vs[i]);
    }
    assert(vs =~= Seq::new(items.len(), |i: int| element_parts(m0, items[i])));
}

/// A `Contents` entry that gives streams keeps giving the same ones.
proof fn lemma_contents_good_stays(a: crate::objects::ObjectsModel, b: crate::objects::ObjectsModel, o: Option<ObjectModel>)
    requires
        extends(a, b),
        contents_good(a, o),
    ensures
        contents_good(b, o),
        contents_of(b, o) == contents_of(a, o),
{
    if let Some(x) = o {
        lemma_resolve_in_stays(a, b, x);
        let t = resolve_in(a, x);
        if spec_as_stream_parts(t) is Err {
            let items = t->Array_0;
            lemma_elements_stay(a, b, items);
            assert(Seq::new(items.len(), |i: int| element_parts(b, items[i])) =~= Seq::new(
                items.len(),
                |i: int| element_parts(a, items[i]),
            ));
        }
    }
}

/// The looked-up entries that give what they must keep giving it.
pub proof fn lemma_lookups_stay(a: crate::objects::ObjectsModel, b: crate::objects::ObjectsModel, d: Entries, at: AttributesModel)
    requires
        extends(a, b),
        lookups_good(a, d, at),
    ensures
        lookups_good(b, d, at),
        contents_of(b, dict_get(d, "Contents"@)) == contents_of(a, dict_get(d, "Contents"@)),
        resources_of(b, dict_get(d, "Resources"@), at.resources) == resources_of(a, dict_get(d, "Resources"@), at.resources),
        annots_of(b, dict_get(d, "Annots"@)) == annots_of(a, dict_get(d, "Annots"@)),
{
    lemma_contents_good_stays(a, b, dict_get(d, "Contents"@));
    if let Some(x) = dict_get(d, "Resources"@) {
        lemma_resolve_in_stays(a, b, x);
    }
    if let Some(x) = dict_get(d, "Annots"@) {
        lemma_resolve_in_stays(a, b, x);
    }
}

/// An error that comes from an entry that is looked up among the objects:
/// `Contents`, `Resources` or `Annots`.
pub open spec fn lookup_error(e: PageError) -> bool {
    ||| e is FailedResolveContents
    ||| e is ContentsObjectNotFound
    ||| e matches PageError::InvalidType { field: PageField::Resources, .. }
    ||| e matches PageError::FieldNotFound { field: PageField::Resources }
    ||| e matches PageError::InvalidArray { field: PageField::Annots, .. }
}

/// Reads the content streams: those that `Contents` stands for.
#[verifier::rlimit(80)]
fn read_contents(d: &Dictionary, objects: &mut Objects) -> (r: Result<Vec<Stream>, PageError>)
    ensures
        extends(old(objects)@, final(objects)@),
        r matches Ok(v) ==> contents_read(final(objects)@, dict_get(d@, "Contents"@), streams_view(v@)),
        r matches Err(e) ==> e is FailedResolveContents || e is ContentsObjectNotFound,
        dict_get(d@, "Contents"@) is None ==> (r matches Ok(v) && v@.len() == 0) && final(objects)@
            == old(objects)@,
        contents_good(old(objects)@, dict_get(d@, "Contents"@)) ==> (r matches Ok(v) && streams_view(v@)
            == contents_of(old(objects)@, dict_get(d@, "Contents"@))),
{
    let ghost m0 = objects@;
    let c = match d.get("Contents") {
        None => {
            return Ok(Vec::new());
        },
        Some(c) => c,
    };
    let target = c.direct(objects);
    let ghost m1 = objects@;
    proof {
        if contents_good(m0, Some(c@)) {
            assert(target@ == resolve_in(m0, c@));
        }
    }
    match target.as_stream() {
        Ok(st) => {
            let v = vec![st.copy()];
            assert(streams_view(v@) =~= seq![st@]);
            assert(stands_for(objects@, c@, target@));
            return Ok(v);
        },
        Err(_) => {},
    }
    proof {
        if let Object::Array(a) = &target {
            crate::types::object::lemma_objects_view(a.data@);
            lemma_elements_good(m0, crate::types::object::objects_view(a.data@));
            if contents_good(m0, Some(c@)) && spec_as_stream_parts(target@) is Err {
                assert forall|i: int| 0 <= i < a.data@.len() implies #[trigger] element_good(objects@, a.data@[i]@) by {
                    assert(element_good(m0, crate::types::object::objects_view(a.data@)[i]));
                    lemma_element_stays(m0, m1, a.data@[i]@);
                }
            }
        }
    }
    match &target {
        Object::Array(a) => {
            let es = element_streams(&a.data, objects);
            proof {
                lemma_extends_trans(m0, m1, objects@);
            }
            match es {
            Ok(v) => {
                proof {
                    crate::objects::lemma_stands_for_stays(m1, objects@, c@, target@);
                    crate::types::object::lemma_objects_view(a.data@);
                    assert(stands_for(objects@, c@, target@));
                    assert forall|i: int| 0 <= i < streams_view(v@).len() implies #[trigger] element_stream(
                        objects@,
                        crate::types::object::objects_view(a.data@)[i],
                        streams_view(v@)[i],
                    ) by {
                        assert(element_stream(objects@, a.data@[i]@, v@[i]@));
                    }
                    if contents_good(m0, Some(c@)) {
                        let items = crate::types::object::objects_view(a.data@);
                        assert(target@ == ObjectModel::Array(items));
                        lemma_good_streams(m0, objects@, items, streams_view(v@));
                    }
                }
                Ok(v)
            },
            Err(ElementError::ObjectNotFound { reference, source }) => Err(
                PageError::ContentsObjectNotFound { object: target.copy(), reference, source },
            ),
            Err(ElementError::NotStream(e)) => Err(
                PageError::FailedResolveContents {
                    object: target.copy(),
                    source: ArrayError::FailedArrayConvertion(e),
                },
            ),
            }
        },
        _ => Err(
            PageError::FailedResolveContents {
                object: target.copy(),
                source: ArrayError::UnexpectedObjectType,
            },
        ),
    }
}

/// Reads the resource dictionary: what `Resources` stands for, or the
/// inherited one when the page gives none.
fn read_resources(d: &Dictionary, a: &InheritableAttributes, objects: &mut Objects) -> (r: Result<
    Dictionary,
    PageError,
>)
    ensures
        extends(old(objects)@, final(objects)@),
        r matches Ok(x) ==> resources_read(final(objects)@, dict_get(d@, "Resources"@), a@.resources, x@),
        r matches Err(e) ==> (e matches PageError::InvalidType { field: PageField::Resources, .. }) || (e
            == PageError::FieldNotFound { field: PageField::Resources }),
        dict_get(d@, "Resources"@) is None ==> final(objects)@ == old(objects)@ && match a@.resources {
            Some(x) => r matches Ok(y) && y@ == x,
            None => r == Err::<Dictionary, PageError>(
                PageError::FieldNotFound { field: PageField::Resources },
            ),
        },
        resources_good(old(objects)@, dict_get(d@, "Resources"@), a@.resources) ==> (r matches Ok(x) && x@
            == resources_of(old(objects)@, dict_get(d@, "Resources"@), a@.resources)),
{
    match d.get("Resources") {
        None => match &a.resources {
            Some(x) => Ok(x.copy()),
            None => Err(PageError::FieldNotFound { field: PageField::Resources }),
        },
        Some(o) => {
            let target = o.direct(objects);
            match target.as_dictionary() {
                Ok(x) => {
                    assert(stands_for(objects@, o@, target@));
                    Ok(x.copy())
                },
                Err(e) => Err(PageError::InvalidType { field: PageField::Resources, source: e }),
            }
        },
    }
}

/// Reads the annotations: the elements of the array that `Annots` stands
/// for.
fn read_annots(d: &Dictionary, objects: &mut Objects) -> (r: Result<Option<Array>, PageError>)
    ensures
        extends(old(objects)@, final(objects)@),
        r matches Ok(x) ==> annots_read(
            final(objects)@,
            dict_get(d@, "Annots"@),
            match x {
                Some(y) => Some(y@),
                None => None,
            },
        ),
        r matches Err(e) ==> e matches PageError::InvalidArray { field: PageField::Annots, .. },
        dict_get(d@, "Annots"@) is None ==> (r matches Ok(None)) && final(objects)@ == old(objects)@,
        annots_good(old(objects)@, dict_get(d@, "Annots"@)) ==> (r matches Ok(y) && match y {
            Some(z) => Some(z@),
            None => None,
        } == annots_of(old(objects)@, dict_get(d@, "Annots"@))),
        dict_get(d@, "Annots"@) matches Some(x) ==> (known_in(old(objects)@, x) && !(resolve_in(old(objects)@, x) is Array)
            ==> r is Err),
{
    match d.get("Annots") {
        None => Ok(None),
        Some(o) => {
            let ghost m0 = objects@;
            let target = o.direct(objects);
            proof {
                if known_in(m0, o@) {
                    assert(target@ == resolve_in(m0, o@));
                }
            }
            let g = target.as_array().generic();
            match g {
                Ok(x) => {
                    assert(stands_for(objects@, o@, target@));
                    Ok(Some(x))
                },
                Err(e) => Err(PageError::InvalidArray { field: PageField::Annots, source: e }),
            }
        },
    }
}

impl Page {
    /// Reads the page dictionary `dictionary`, with the attributes
    /// `inheritable_attrs` inherited from the page tree: the content streams
    /// (what `Contents` stands for, a stream or an array of streams), the
    /// resources (what `Resources` stands for, else the inherited ones),
    /// the boxes, rotation and user unit, the annotations (what `Annots`
    /// stands for), and the other entries as they are.
    pub fn from_dictionary(
        dictionary: &Dictionary,
        inheritable_attrs: &InheritableAttributes,
        objects: &mut Objects,
    ) -> (r: Result<Page, PageError>)
        ensures
            extends(old(objects)@, final(objects)@),
            r matches Ok(p) ==> page_read(final(objects)@, dictionary@, inheritable_attrs@, p),
            spec_boxes(dictionary@, inheritable_attrs@) matches Err(f) ==> r matches Err(e) && (
            lookup_error(e) || page_error_agrees(e, f)),
            spec_boxes(dictionary@, inheritable_attrs@) is Ok ==> (spec_tail(dictionary@) matches Err(f)
                ==> r matches Err(e) && (lookup_error(e) || page_error_agrees(e, f))),
            r matches Err(e) ==> lookup_error(e) || spec_boxes(dictionary@, inheritable_attrs@) is Err
                || spec_tail(dictionary@) is Err,
            spec_boxes(dictionary@, inheritable_attrs@) is Ok && spec_tail(dictionary@) is Ok && lookups_good(
                old(objects)@,
                dictionary@,
                inheritable_attrs@,
            ) ==> r is Ok,
            lookups_good(old(objects)@, dictionary@, inheritable_attrs@) ==> {
                &&& spec_boxes(dictionary@, inheritable_attrs@) matches Err(f) ==> r matches Err(e)
                    && page_error_agrees(e, f)
                &&& spec_boxes(dictionary@, inheritable_attrs@) is Ok ==> (spec_tail(dictionary@) matches Err(
                    f,
                ) ==> r matches Err(e) && page_error_agrees(e, f))
                &&& r matches Ok(p) ==> {
                    &&& streams_view(p.contents@) == contents_of(old(objects)@, dict_get(dictionary@, "Contents"@))
                    &&& p.resources@ == resources_of(
                        old(objects)@,
                        dict_get(dictionary@, "Resources"@),
                        inheritable_attrs@.resources,
                    )
                    &&& match p.annots {
                        Some(z) => Some(z@),
                        None => None,
                    } == annots_of(old(objects)@, dict_get(dictionary@, "Annots"@))
                }
            },
            r matches Err(e) && (e is FailedResolveContents || e is ContentsObjectNotFound) ==> !contents_good(
                old(objects)@,
                dict_get(dictionary@, "Contents"@),
            ),
            contents_good(old(objects)@, dict_get(dictionary@, "Contents"@)) && dict_get(dictionary@, "Resources"@)
                is None && inheritable_attrs@.resources is None ==> r == Err::<Page, PageError>(
                PageError::FieldNotFound { field: PageField::Resources },
            ),
            contents_good(old(objects)@, dict_get(dictionary@, "Contents"@)) && resources_good(
                old(objects)@,
                dict_get(dictionary@, "Resources"@),
                inheritable_attrs@.resources,
            ) && spec_boxes(dictionary@, inheritable_attrs@) is Ok ==> (dict_get(dictionary@, "Annots"@) matches Some(
                x,
            ) ==> (known_in(old(objects)@, x) && !(resolve_in(old(objects)@, x) is Array) ==> r matches Err(
                PageError::InvalidArray { field: PageField::Annots, .. },
            ))),
    {
        let ghost m0 = objects@;
        let ghost good = lookups_good(m0, dictionary@, inheritable_attrs@);
        let contents = match read_contents(dictionary, objects) {
            Ok(c) => c,
            Err(e) => {
                return Err(e);
            },
        };
        let ghost m1 = objects@;
        proof {
            if good {
                lemma_lookups_stay(m0, m1, dictionary@, inheritable_attrs@);
            }
            if let Some(x) = dict_get(dictionary@, "Resources"@) {
                if known_in(m0, x) {
                    lemma_resolve_in_stays(m0, m1, x);
                }
            }
            if let Some(x) = dict_get(dictionary@, "Annots"@) {
                if known_in(m0, x) {
                    lemma_resolve_in_stays(m0, m1, x);
                }
            }
        }
        let rr = read_resources(dictionary, inheritable_attrs, objects);
        proof {
            lemma_extends_trans(m0, m1, objects@);
        }
        let resources = match rr {
            Ok(x) => x,
            Err(e) => {
                return Err(e);
            },
        };
        let ghost m2 = objects@;
        proof {
            if good {
                lemma_lookups_stay(m0, m2, dictionary@, inheritable_attrs@);
            }
            if let Some(x) = dict_get(dictionary@, "Annots"@) {
                if known_in(m0, x) {
                    lemma_resolve_in_stays(m1, m2, x);
                }
            }
        }
        let (media_box, crop_box, bleed_box, trim_box, art_box, rotate, user_unit) = match read_boxes(
            dictionary,
            inheritable_attrs,
        ) {
            Ok(x) => x,
            Err(e) => {
                return Err(e);
            },
        };
        let (last_modified, box_color_info, group, thumb, b, dur, trans) = match read_boxes_rest(dictionary) {
            Ok(x) => x,
            Err(e) => {
                return Err(e);
            },
        };
        let ra = read_annots(dictionary, objects);
        proof {
            lemma_extends_trans(m0, m2, objects@);
        }
        let annots = match ra {
            Ok(x) => x,
            Err(e) => {
                return Err(e);
            },
        };
        let ghost m3 = objects@;
        let tail = match read_tail(dictionary) {
            Ok(t) => t,
            Err(e) => {
                return Err(e);
            },
        };
        proof {
            lemma_extends_trans(m1, m2, m3);
            lemma_contents_stay(m1, m3, dict_get(dictionary@, "Contents"@), streams_view(contents@));
            lemma_resources_stay(m2, m3, dict_get(dictionary@, "Resources"@), inheritable_attrs@.resources, resources@);
        }
        Ok(
            Page {
                contents,
                resources,
                user_unit,
                rotate,
                media_box,
                crop_box,
                bleed_box,
                trim_box,
                art_box,
                last_modified,
                box_color_info,
                group,
                thumb,
                b,
                dur,
                trans,
                annots,
                aa: tail.aa,
                metadata: tail.metadata,
                piece_info: tail.piece_info,
                struct_parents: tail.struct_parents,
                id: tail.id,
                pz: tail.pz,
                separation_info: tail.separation_info,
                tabs: tail.tabs,
                template_instantiated: tail.template_instantiated,
                pres_steps: tail.pres_steps,
                vp: tail.vp,
            },
        )
    }
}

/// The rectangle `r` is what the page `d` gives for the box `key`: the
/// rectangle of the entry when there is one, else `default`.
pub open spec fn box_or(d: Entries, key: Seq<char>, r: RectangleModel, default: RectangleModel) -> bool {
    match dict_get(d, key) {
        Some(x) => spec_rectangle(x) == Ok::<RectangleModel, ArrayError>(r),
        None => r == default,
    }
}

/// The boxes, rotation and user unit of a page that was read from the
/// dictionary `d` with the attributes `a` inherited: each box that the page
/// gives is the rectangle of its entry. Without `MediaBox` the media box is
/// the inherited one; without `CropBox` the crop box is the inherited one,
/// else the media box; without `BleedBox`, `TrimBox` or `ArtBox` that box is
/// the crop box. Without `Rotate` the rotation is the inherited one, else 0;
/// without `UserUnit` the user unit is 1.
pub proof fn lemma_page_boxes(m: crate::objects::ObjectsModel, d: Entries, a: AttributesModel, p: Page)
    requires
        page_read(m, d, a, p),
    ensures
        box_or(d, "MediaBox"@, p.media_box@, p.media_box@),
        dict_get(d, "MediaBox"@) is None ==> a.media_box == Some(p.media_box@),
        box_or(
            d,
            "CropBox"@,
            p.crop_box@,
            match a.crop_box {
                Some(c) => c,
                None => p.media_box@,
            },
        ),
        box_or(d, "BleedBox"@, p.bleed_box@, p.crop_box@),
        box_or(d, "TrimBox"@, p.trim_box@, p.crop_box@),
        box_or(d, "ArtBox"@, p.art_box@, p.crop_box@),
        match dict_get(d, "Rotate"@) {
            Some(x) => spec_as_u16(x) == Ok::<u16, ObjectError>(p.rotate),
            None => p.rotate == match a.rotate {
                Some(r) => r,
                None => 0u16,
            },
        },
        match dict_get(d, "UserUnit"@) {
            Some(x) => spec_as_number(x) == Ok::<NumericModel, ObjectError>(p.user_unit@),
            None => p.user_unit@ == NumericModel::Integer(1),
        },
{
}

/// The tab order of a page that was read: rows exactly when `Tabs` is the
/// name `R`, columns exactly when it is `C`, the structure order exactly when
/// it is `S`, and none given otherwise, also when `Tabs` is absent.
pub proof fn lemma_page_tabs(m: crate::objects::ObjectsModel, d: Entries, a: AttributesModel, p: Page)
    requires
        page_read(m, d, a, p),
    ensures
        (p.tabs is Row) <==> (dict_get(d, "Tabs"@) matches Some(x) && spec_as_name(x) == Ok::<Seq<char>, ObjectError>("R"@)),
        (p.tabs is Column) <==> (dict_get(d, "Tabs"@) matches Some(x) && spec_as_name(x) == Ok::<Seq<char>, ObjectError>("C"@)),
        (p.tabs is Structure) <==> (dict_get(d, "Tabs"@) matches Some(x) && spec_as_name(x) == Ok::<Seq<char>, ObjectError>("S"@)),
        dict_get(d, "Tabs"@) is None ==> p.tabs is Unspecified,
{
    reveal_strlit("R");
    reveal_strlit("C");
    reveal_strlit("S");
    assert("R"@ != "C"@ && "R"@ != "S"@ && "C"@ != "S"@) by {
        assert("R"@[0] != "C"@[0] && "R"@[0] != "S"@[0] && "C"@[0] != "S"@[0]);
    }
}

/// Content streams read stay so while more is read.
pub proof fn lemma_contents_stay(a: crate::objects::ObjectsModel, b: crate::objects::ObjectsModel, o: Option<ObjectModel>, v: Seq<StreamModel>)
    requires
        extends(a, b),
        contents_read(a, o, v),
    ensures
        contents_read(b, o, v),
{
    match o {
        None => {},
        Some(x) => {
            let t = choose|t: ObjectModel| #[trigger] stands_for(a, x, t) && match spec_as_stream_parts(t) {
                Ok(s) => v == seq![s],
                Err(_) => t matches ObjectModel::Array(items) && v.len() == items.len() && forall|i: int|
                    0 <= i < v.len() ==> #[trigger] element_stream(a, items[i], v[i]),
            };
            crate::objects::lemma_stands_for_stays(a, b, x, t);
            match t {
                ObjectModel::Array(items) => {
                    if spec_as_stream_parts(t) is Err {
                        assert forall|i: int| 0 <= i < v.len() implies #[trigger] element_stream(b, items[i], v[i]) by {
                            assert(element_stream(a, items[i], v[i]));
                            match items[i] {
                                ObjectModel::IndirectReference(id, g) => {
                                    crate::objects::lemma_resolved_stays(a, b, (id as usize, g as usize));
                                },
                                _ => {},
                            }
                        }
                    }
                },
                _ => {},
            }
        },
    }
}

/// A resource dictionary read stays so while more is read.
pub proof fn lemma_resources_stay(
    a: crate::objects::ObjectsModel,
    b: crate::objects::ObjectsModel,
    o: Option<ObjectModel>,
    inherited: Option<Entries>,
    r: Entries,
)
    requires
        extends(a, b),
        resources_read(a, o, inherited, r),
    ensures
        resources_read(b, o, inherited, r),
{
    match o {
        None => {},
        Some(x) => {
            let t = choose|t: ObjectModel| #[trigger] stands_for(a, x, t) && spec_as_dictionary(t) == Ok::<
                Entries,
                ObjectError,
            >(r);
            crate::objects::lemma_stands_for_stays(a, b, x, t);
        },
    }
}

} // verus!
