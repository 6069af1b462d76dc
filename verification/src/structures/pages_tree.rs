//! Nodes of the page tree: the kids of a `/Pages` node, its leaf count, and
//! the attributes that pages inherit from it.

use vstd::prelude::*;

use crate::structures::fields::{
    get_dictionary, get_rectangle, get_u16, opt_field,
};
use crate::structures::xref::spec_as_usize;
use crate::types::array::{spec_rectangle, ArrayError};
use crate::types::dictionary::{dict_get, Dictionary};
use crate::types::indirect_object::IndirectReference;
use crate::types::numeric::NumericModel;
use crate::types::object::{
    spec_as_dictionary, spec_as_u16, Object, ObjectError, ObjectKind, ObjectModel,
};
use crate::types::rectangle::Rectangle;

verus! {

/// A field of a page tree node.
#[derive(Debug, Clone, Copy, PartialEq, Eq, Structural)]
pub enum PagesTreeField {
    Kids,
    Count,
    Resources,
    MediaBox,
    CropBox,
    Rotate,
}

/// Why a page tree node could not be read.
#[derive(Debug, PartialEq)]
pub enum PagesTreeError {
    FieldNotFound { field: PagesTreeField },
    InvalidType { field: PagesTreeField, source: ObjectError },
    InvalidArray { field: PagesTreeField, source: ArrayError },
}

/// The value of a rectangle: its four numbers.
pub type RectangleModel = (NumericModel, NumericModel, NumericModel, NumericModel);

/// Attributes that a page inherits from the nodes above it.
#[derive(Debug, PartialEq)]
pub struct InheritableAttributes {
    pub resources: Option<Dictionary>,
    pub media_box: Option<Rectangle>,
    pub crop_box: Option<Rectangle>,
    pub rotate: Option<u16>,
}

/// The value of [`InheritableAttributes`].
pub struct AttributesModel {
    pub resources: Option<Seq<(Seq<char>, ObjectModel)>>,
    pub media_box: Option<RectangleModel>,
    pub crop_box: Option<RectangleModel>,
    pub rotate: Option<u16>,
}

impl View for InheritableAttributes {
    type V = AttributesModel;

    open spec fn view(&self) -> AttributesModel {
        AttributesModel {
            resources: match self.resources {
                Some(d) => Some(d@),
                None => None,
            },
            media_box: match self.media_box {
                Some(b) => Some(b@),
                None => None,
            },
            crop_box: match self.crop_box {
                Some(b) => Some(b@),
                None => None,
            },
            rotate: self.rotate,
        }
    }
}

/// No inherited attributes.
pub open spec fn no_attributes() -> AttributesModel {
    AttributesModel { resources: None, media_box: None, crop_box: None, rotate: None }
}

/// `new` where it is given, else `old`.
pub open spec fn or_keep<T>(new: Option<T>, old: Option<T>) -> Option<T> {
    if new is Some {
        new
    } else {
        old
    }
}

/// The attributes after reading the node `d`: each attribute that `d` gives
/// replaces the inherited one; the first entry of the wrong kind fails.
pub open spec fn spec_read_attributes(a: AttributesModel, d: Seq<(Seq<char>, ObjectModel)>) -> Result<
    AttributesModel,
    PagesTreeError,
> {
    match opt_field(dict_get(d, "Resources"@), |o: ObjectModel| spec_as_dictionary(o)) {
        Err(e) => Err(PagesTreeError::InvalidType { field: PagesTreeField::Resources, source: e }),
        Ok(res) => match opt_field(dict_get(d, "MediaBox"@), |o: ObjectModel| spec_rectangle(o)) {
            Err(e) => Err(PagesTreeError::InvalidArray { field: PagesTreeField::MediaBox, source: e }),
            Ok(mb) => match opt_field(dict_get(d, "CropBox"@), |o: ObjectModel| spec_rectangle(o)) {
                Err(e) => Err(
                    PagesTreeError::InvalidArray { field: PagesTreeField::CropBox, source: e },
                ),
                Ok(cb) => match opt_field(dict_get(d, "Rotate"@), |o: ObjectModel| spec_as_u16(o)) {
                    Err(e) => Err(
                        PagesTreeError::InvalidType { field: PagesTreeField::Rotate, source: e },
                    ),
                    Ok(rot) => Ok(
                        AttributesModel {
                            resources: or_keep(res, a.resources),
                            media_box: or_keep(mb, a.media_box),
                            crop_box: or_keep(cb, a.crop_box),
                            rotate: or_keep(rot, a.rotate),
                        },
                    ),
                },
            },
        },
    }
}

/// The references that the elements of an array hold; the first element
/// that is not one gives the error.
pub open spec fn spec_references(items: Seq<ObjectModel>) -> Result<Seq<IndirectReference>, ObjectError>
    decreases items.len(),
{
    if items.len() == 0 {
        Ok(Seq::empty())
    } else {
        match spec_references(items.drop_last()) {
            Ok(rs) => match items.last() {
                ObjectModel::IndirectReference(id, g) => Ok(
                    rs.push(IndirectReference { id: id as usize, gen_id: g as usize }),
                ),
                _ => Err(ObjectError::UnexpectedObjectType { expected: ObjectKind::IndirectReference }),
            },
            Err(e) => Err(e),
        }
    }
}

/// An object read as an array of references.
pub open spec fn spec_kids(o: ObjectModel) -> Result<Seq<IndirectReference>, ArrayError> {
    match o {
        ObjectModel::Array(items) => match spec_references(items) {
            Ok(rs) => Ok(rs),
            Err(e) => Err(ArrayError::FailedArrayConvertion(e)),
        },
        _ => Err(ArrayError::UnexpectedObjectType),
    }
}

/// What reading the node `d` gives, with the attributes `inherited` from
/// above it: the leaf count, the kids and the attributes.
pub open spec fn spec_node(d: Seq<(Seq<char>, ObjectModel)>, inherited: AttributesModel) -> Result<
    (usize, Seq<IndirectReference>, AttributesModel),
    PagesTreeError,
> {
    match dict_get(d, "Kids"@) {
        None => Err(PagesTreeError::FieldNotFound { field: PagesTreeField::Kids }),
        Some(k) => match spec_kids(k) {
            Err(e) => Err(PagesTreeError::InvalidArray { field: PagesTreeField::Kids, source: e }),
            Ok(kids) => match dict_get(d, "Count"@) {
                None => Err(PagesTreeError::FieldNotFound { field: PagesTreeField::Count }),
                Some(c) => match spec_as_usize(c) {
                    Err(e) => Err(PagesTreeError::InvalidType { field: PagesTreeField::Count, source: e }),
                    Ok(count) => match spec_read_attributes(inherited, d) {
                        Err(e) => Err(e),
                        Ok(a) => Ok((count, kids, a)),
                    },
                },
            },
        },
    }
}

/// The references held by the elements of the array `o`.
fn kids_of(o: &Object) -> (r: Result<Vec<IndirectReference>, ArrayError>)
    ensures
        match spec_kids(o@) {
            Ok(v) => r matches Ok(x) && x@ == v,
            Err(e) => r == Err::<Vec<IndirectReference>, ArrayError>(e),
        },
{
    let items = match o {
        Object::Array(a) => &a.data,
        _ => {
            return Err(ArrayError::UnexpectedObjectType);
        },
    };
    proof {
        crate::types::object::lemma_objects_view(items@);
    }
    let ghost iv = crate::types::object::objects_view(items@);
    let mut out: Vec<IndirectReference> = Vec::new();
    let mut i: usize = 0;
    while i < items.len()
        invariant
            i <= items@.len(),
            iv == crate::types::object::objects_view(items@),
            iv.len() == items@.len(),
            o@ == ObjectModel::Array(iv),
            forall|j: int| 0 <= j < items@.len() ==> #[trigger] iv[j] == items@[j]@,
            spec_references(iv.take(i as int)) == Ok::<Seq<IndirectReference>, ObjectError>(out@),
        decreases items@.len() - i,
    {
        assert(iv.take(i + 1).drop_last() =~= iv.take(i as int));
        match items[i].as_indirect_ref() {
            Ok(x) => {
                out.push(*x);
            },
            Err(e) => {
                proof {
                    lemma_references_error(iv, (i + 1) as int, iv.len() as int);
                    assert(iv.take(iv.len() as int) =~= iv);
                }
                return Err(ArrayError::FailedArrayConvertion(e));
            },
        }
        i = i + 1;
    }
    assert(iv.take(iv.len() as int) =~= iv);
    Ok(out)
}

proof fn lemma_references_error(items: Seq<ObjectModel>, k: int, m: int)
    requires
        0 < k <= m <= items.len(),
        !(items[k - 1] is IndirectReference),
    ensures
        spec_references(items.take(m)) == Err::<Seq<IndirectReference>, ObjectError>(
            ObjectError::UnexpectedObjectType { expected: ObjectKind::IndirectReference },
        ),
    decreases m,
{
    assert(items.take(m).drop_last() =~= items.take(m - 1));
    if m > k {
        lemma_references_error(items, k, m - 1);
    } else {
        lemma_references_error_value(items.take(m - 1));
    }
}

proof fn lemma_references_error_value(items: Seq<ObjectModel>)
    ensures
        spec_references(items) is Err ==> spec_references(items) == Err::<Seq<IndirectReference>, ObjectError>(
            ObjectError::UnexpectedObjectType { expected: ObjectKind::IndirectReference },
        ),
    decreases items.len(),
{
    if items.len() > 0 {
        lemma_references_error_value(items.drop_last());
    }
}

impl InheritableAttributes {
    /// A copy of the attributes.
    pub fn copy(&self) -> (r: Self)
        ensures
            r@ == self@,
    {
        InheritableAttributes {
            resources: match &self.resources {
                Some(d) => Some(d.copy()),
                None => None,
            },
            media_box: match &self.media_box {
                Some(b) => Some(b.copy()),
                None => None,
            },
            crop_box: match &self.crop_box {
                Some(b) => Some(b.copy()),
                None => None,
            },
            rotate: self.rotate,
        }
    }

    /// No attributes.
    pub fn new() -> (r: Self)
        ensures
            r@ == no_attributes(),
    {
        InheritableAttributes { resources: None, media_box: None, crop_box: None, rotate: None }
    }

    /// Reads the attributes of the node `dictionary`: each one it gives
    /// replaces the inherited one. On an error nothing is changed.
    pub fn read(&mut self, dictionary: &Dictionary) -> (r: Result<(), PagesTreeError>)
        ensures
            match spec_read_attributes(old(self)@, dictionary@) {
                Ok(a) => r is Ok && final(self)@ == a,
                Err(e) => r == Err::<(), PagesTreeError>(e) && final(self)@ == old(self)@,
            },
    {
        let resources = match get_dictionary(dictionary, "Resources") {
            Ok(v) => v,
            Err(e) => {
                return Err(PagesTreeError::InvalidType { field: PagesTreeField::Resources, source: e });
            },
        };
        let media_box = match get_rectangle(dictionary, "MediaBox") {
            Ok(v) => v,
            Err(e) => {
                return Err(PagesTreeError::InvalidArray { field: PagesTreeField::MediaBox, source: e });
            },
        };
        let crop_box = match get_rectangle(dictionary, "CropBox") {
            Ok(v) => v,
            Err(e) => {
                return Err(PagesTreeError::InvalidArray { field: PagesTreeField::CropBox, source: e });
            },
        };
        let rotate = match get_u16(dictionary, "Rotate") {
            Ok(v) => v,
            Err(e) => {
                return Err(PagesTreeError::InvalidType { field: PagesTreeField::Rotate, source: e });
            },
        };
        if resources.is_some() {
            self.resources = resources;
        }
        if media_box.is_some() {
            self.media_box = media_box;
        }
        if crop_box.is_some() {
            self.crop_box = crop_box;
        }
        if rotate.is_some() {
            self.rotate = rotate;
        }
        Ok(())
    }
}

impl Default for InheritableAttributes {
    fn default() -> (r: Self)
        ensures
            r@ == no_attributes(),
    {
        InheritableAttributes::new()
    }
}

/// A `/Pages` node of the page tree.
#[derive(Debug, PartialEq)]
pub struct PagesTreeNode {
    pub leaf_count: usize,
    pub kids: Vec<IndirectReference>,
    pub inheritable_attributes: InheritableAttributes,
}

impl View for PagesTreeNode {
    type V = (usize, Seq<IndirectReference>, AttributesModel);

    open spec fn view(&self) -> (usize, Seq<IndirectReference>, AttributesModel) {
        (self.leaf_count, self.kids@, self.inheritable_attributes@)
    }
}

impl PagesTreeNode {
    /// Reads a `/Pages` node: its `Kids` (references), its `Count` and the
    /// attributes it gives, over those `inheritable_attributes` from above
    /// (none when not given).
    pub fn from_dictionary(
        dictionary: &Dictionary,
        inheritable_attributes: Option<InheritableAttributes>,
    ) -> (r: Result<PagesTreeNode, PagesTreeError>)
        ensures
            match spec_node(
                dictionary@,
                match inheritable_attributes {
                    Some(a) => a@,
                    None => no_attributes(),
                },
            ) {
                Ok(v) => r matches Ok(n) && n@ == v,
                Err(e) => r == Err::<PagesTreeNode, PagesTreeError>(e),
            },
    {
        let kids = match dictionary.get("Kids") {
            None => {
                return Err(PagesTreeError::FieldNotFound { field: PagesTreeField::Kids });
            },
            Some(o) => match kids_of(o) {
                Ok(k) => k,
                Err(e) => {
                    return Err(PagesTreeError::InvalidArray { field: PagesTreeField::Kids, source: e });
                },
            },
        };
        let count = match dictionary.get("Count") {
            None => {
                return Err(PagesTreeError::FieldNotFound { field: PagesTreeField::Count });
            },
            Some(o) => match o.as_usize() {
                Ok(c) => c,
                Err(e) => {
                    return Err(PagesTreeError::InvalidType { field: PagesTreeField::Count, source: e });
                },
            },
        };
        let mut attributes = match inheritable_attributes {
            Some(a) => a,
            None => InheritableAttributes::new(),
        };
        match attributes.read(dictionary) {
            Ok(()) => {},
            Err(e) => {
                return Err(e);
            },
        }
        Ok(PagesTreeNode { leaf_count: count, kids, inheritable_attributes: attributes })
    }
}

} // verus!
