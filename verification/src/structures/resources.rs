//! The resources of a page: the named graphics states, colour spaces,
//! patterns, shadings, external objects, fonts, procedure sets and property
//! lists that its content streams refer to.

use vstd::prelude::*;
use vstd::utf8::encode_utf8;

use crate::objects::{extends, lemma_stands_for_stays, pinned, stands_for, Objects};
use crate::types::array::ArrayError;
use crate::types::copy::copy_object;
use crate::types::dictionary::{
    dict_get, dict_insert, find_from, insert_pos, lemma_encode_injective, lemma_insert_sorted,
    order_bytes, pos_from, sorted_keys, ByteOrder, Dictionary,
};
use crate::types::object::{
    lemma_objects_view, lemma_records_view, objects_view, spec_as_dictionary, Object,
    ObjectError, ObjectKind, ObjectModel,
};

verus! {

broadcast use vstd::utf8::group_utf8_lib;

/// An entry of a resource dictionary: the kind of resource it holds.
#[derive(Debug, Clone, Copy, PartialEq, Eq, Structural)]
pub enum ResourceField {
    ExtGState,
    ColorSpace,
    Pattern,
    Shading,
    XObject,
    Font,
    ProcSet,
    Properties,
}

impl ResourceField {
    /// The key of the entry.
    pub open spec fn spec_key(self) -> Seq<char> {
        match self {
            ResourceField::ExtGState => "ExtGState"@,
            ResourceField::ColorSpace => "ColorSpace"@,
            ResourceField::Pattern => "Pattern"@,
            ResourceField::Shading => "Shading"@,
            ResourceField::XObject => "XObject"@,
            ResourceField::Font => "Font"@,
            ResourceField::ProcSet => "ProcSet"@,
            ResourceField::Properties => "Properties"@,
        }
    }

    /// The key of the entry, which is also the name of the kind.
    pub fn key(&self) -> (r: &'static str)
        ensures
            r@ == self.spec_key(),
    {
        match self {
            ResourceField::ExtGState => "ExtGState",
            ResourceField::ColorSpace => "ColorSpace",
            ResourceField::Pattern => "Pattern",
            ResourceField::Shading => "Shading",
            ResourceField::XObject => "XObject",
            ResourceField::Font => "Font",
            ResourceField::ProcSet => "ProcSet",
            ResourceField::Properties => "Properties",
        }
    }
}

/// A named resource: the object that a category binds to the name, or, for
/// a procedure set, only the name.
#[derive(Debug, PartialEq)]
pub enum Resource {
    ExtGState { object: Object },
    ColorSpace { object: Object },
    Pattern { object: Object },
    Shading { object: Object },
    XObject { object: Object },
    Font { object: Object },
    ProcSet,
    Properties { object: Object },
}

/// The value of a [`Resource`]: the category and its object, or a procedure
/// set.
pub enum ResourceModel {
    Entry(ResourceField, ObjectModel),
    ProcSet,
}

impl View for Resource {
    type V = ResourceModel;

    open spec fn view(&self) -> ResourceModel {
        match self {
            Resource::ExtGState { object } => ResourceModel::Entry(ResourceField::ExtGState, object@),
            Resource::ColorSpace { object } => ResourceModel::Entry(ResourceField::ColorSpace, object@),
            Resource::Pattern { object } => ResourceModel::Entry(ResourceField::Pattern, object@),
            Resource::Shading { object } => ResourceModel::Entry(ResourceField::Shading, object@),
            Resource::XObject { object } => ResourceModel::Entry(ResourceField::XObject, object@),
            Resource::Font { object } => ResourceModel::Entry(ResourceField::Font, object@),
            Resource::ProcSet => ResourceModel::ProcSet,
            Resource::Properties { object } => ResourceModel::Entry(ResourceField::Properties, object@),
        }
    }
}

/// The kind of a resource value.
pub open spec fn kind_of(r: ResourceModel) -> ResourceField {
    match r {
        ResourceModel::Entry(f, _) => f,
        ResourceModel::ProcSet => ResourceField::ProcSet,
    }
}

impl Resource {
    /// The resource of kind `field` that holds `object`.
    pub fn new(field: ResourceField, object: Object) -> (r: Resource)
        ensures
            r@ == if field is ProcSet {
                ResourceModel::ProcSet
            } else {
                ResourceModel::Entry(field, object@)
            },
    {
        match field {
            ResourceField::ExtGState => Resource::ExtGState { object },
            ResourceField::ColorSpace => Resource::ColorSpace { object },
            ResourceField::Pattern => Resource::Pattern { object },
            ResourceField::Shading => Resource::Shading { object },
            ResourceField::XObject => Resource::XObject { object },
            ResourceField::Font => Resource::Font { object },
            ResourceField::ProcSet => Resource::ProcSet,
            ResourceField::Properties => Resource::Properties { object },
        }
    }

    /// The kind of the resource.
    pub fn kind(&self) -> (r: ResourceField)
        ensures
            r == kind_of(self@),
    {
        match self {
            Resource::ExtGState { .. } => ResourceField::ExtGState,
            Resource::ColorSpace { .. } => ResourceField::ColorSpace,
            Resource::Pattern { .. } => ResourceField::Pattern,
            Resource::Shading { .. } => ResourceField::Shading,
            Resource::XObject { .. } => ResourceField::XObject,
            Resource::Font { .. } => ResourceField::Font,
            Resource::ProcSet => ResourceField::ProcSet,
            Resource::Properties { .. } => ResourceField::Properties,
        }
    }
}

/// Why the resources could not be read.
#[derive(Debug, Clone, Copy, PartialEq, Eq)]
pub enum ResourcesError {
    /// A required entry is missing.
    FieldNotFound { field: ResourceField },
    /// An entry does not stand for a dictionary.
    InvalidType { field: ResourceField, source: ObjectError },
    /// The procedure sets are not an array of names.
    InvalidArray { field: ResourceField, source: ArrayError },
}

/// The named resources, each name once, in increasing order of the names'
/// UTF-8 bytes.
#[derive(Debug, PartialEq)]
pub struct Resources {
    data: Vec<(String, Resource)>,
}

/// The value of a list of named resources.
pub open spec fn named_view(s: Seq<(String, Resource)>) -> Seq<(Seq<char>, ResourceModel)> {
    s.map_values(|e: (String, Resource)| (e.0@, e.1@))
}

impl View for Resources {
    type V = Seq<(Seq<char>, ResourceModel)>;

    closed spec fn view(&self) -> Seq<(Seq<char>, ResourceModel)> {
        named_view(self.data@)
    }
}

impl Resources {
    /// No resources.
    fn empty() -> (r: Self)
        ensures
            r@ == Seq::<(Seq<char>, ResourceModel)>::empty(),
    {
        let r = Resources { data: Vec::new() };
        assert(r@ =~= Seq::<(Seq<char>, ResourceModel)>::empty());
        r
    }

    /// The number of named resources.
    pub fn len(&self) -> (r: usize)
        ensures
            r == self@.len(),
    {
        self.data.len()
    }

    /// The named resources, in increasing order of their names.
    pub fn entries(&self) -> (r: &[(String, Resource)])
        ensures
            named_view(r@) == self@,
    {
        self.data.as_slice()
    }

    /// Binds `name` to `value`, replacing the resource of that name.
    fn insert(&mut self, name: String, value: Resource)
        ensures
            final(self)@ == dict_insert(old(self)@, name@, value@),
    {
        let ghost rs = self@;
        let mut i: usize = 0;
        let n = self.data.len();
        loop
            invariant
                n == self.data@.len(),
                i <= n,
                rs == self@,
                rs == old(self)@,
                rs.len() == n,
                pos_from(rs, name@, i as int) == insert_pos(rs, name@),
            ensures
                i <= n,
                rs == self@,
                rs == old(self)@,
                n == self.data@.len(),
                pos_from(rs, name@, i as int) == insert_pos(rs, name@),
                i == n || (!crate::types::dictionary::key_lt(rs[i as int].0, name@) && rs[i as int].0
                    != name@),
            decreases n - i,
        {
            if i == n {
                break;
            }
            let o = order_bytes(self.data[i].0.as_str().as_bytes(), name.as_str().as_bytes());
            match o {
                ByteOrder::Before => {
                    i = i + 1;
                },
                ByteOrder::Same => {
                    proof {
                        lemma_encode_injective(self.data@[i as int].0@, name@);
                        assert(pos_from(rs, name@, i as int) == i as int);
                    }
                    let ghost nv = name@;
                    let ghost vv = value@;
                    self.data.set(i, (name, value));
                    proof {
                        assert(self@ =~= dict_insert(rs, nv, vv));
                    }
                    return;
                },
                ByteOrder::After => {
                    proof {
                        if self.data@[i as int].0@ == name@ {
                            assert(encode_utf8(self.data@[i as int].0@) == encode_utf8(name@));
                        }
                    }
                    break;
                },
            }
        }
        proof {
            assert(pos_from(rs, name@, i as int) == i as int);
        }
        let ghost nv = name@;
        let ghost vv = value@;
        self.data.insert(i, (name, value));
        proof {
            assert(self@ =~= dict_insert(rs, nv, vv));
        }
    }

    /// The resource named `name`.
    pub fn get(&self, name: &str) -> (r: Option<&Resource>)
        ensures
            r matches Some(x) ==> dict_get(self@, name@) == Some(x@),
            r is None ==> dict_get(self@, name@) is None,
    {
        let ghost rs = self@;
        let mut i: usize = 0;
        let n = self.data.len();
        while i < n
            invariant
                n == self.data@.len(),
                i <= n,
                rs == self@,
                rs.len() == n,
                find_from(rs, name@, i as int) == find_from(rs, name@, 0),
            decreases n - i,
        {
            let same = match order_bytes(self.data[i].0.as_str().as_bytes(), name.as_bytes()) {
                ByteOrder::Same => true,
                _ => false,
            };
            if same {
                proof {
                    lemma_encode_injective(self.data@[i as int].0@, name@);
                }
                return Some(&self.data[i].1);
            }
            proof {
                if self.data@[i as int].0@ == name@ {
                    assert(encode_utf8(self.data@[i as int].0@) == encode_utf8(name@));
                }
            }
            i = i + 1;
        }
        None
    }
}

/// A list of named resources.
pub type Named = Seq<(Seq<char>, ResourceModel)>;

/// The names that the elements of a procedure-set array hold, when every
/// element is a name.
pub open spec fn spec_names(items: Seq<ObjectModel>) -> Result<Seq<Seq<char>>, ObjectError> {
    if forall|i: int| 0 <= i < items.len() ==> #[trigger] items[i] is Name {
        Ok(items.map_values(|o: ObjectModel| o->Name_0))
    } else {
        Err(ObjectError::UnexpectedObjectType { expected: ObjectKind::Name })
    }
}

/// The named resources that the category `f` gives when its entry stands
/// for `t`: the entries of the dictionary `t`, each tagged with `f`, or,
/// for procedure sets, the names in the array `t`.
pub open spec fn category_entries(f: ResourceField, t: ObjectModel) -> Result<Named, ResourcesError> {
    if f is ProcSet {
        match t {
            ObjectModel::Array(items) => match spec_names(items) {
                Ok(ns) => Ok(ns.map_values(|n: Seq<char>| (n, ResourceModel::ProcSet))),
                Err(e) => Err(
                    ResourcesError::InvalidArray {
                        field: f,
                        source: ArrayError::FailedArrayConvertion(e),
                    },
                ),
            },
            _ => Err(ResourcesError::InvalidArray { field: f, source: ArrayError::UnexpectedObjectType }),
        }
    } else {
        match spec_as_dictionary(t) {
            Ok(d) => Ok(d.map_values(|e: (Seq<char>, ObjectModel)| (e.0, ResourceModel::Entry(f, e.1)))),
            Err(e) => Err(ResourcesError::InvalidType { field: f, source: e }),
        }
    }
}

/// `rs` with the entries `es` bound one after another: a later binding of
/// a name replaces an earlier one.
pub open spec fn insert_all(rs: Named, es: Named) -> Named
    decreases es.len(),
{
    if es.len() == 0 {
        rs
    } else {
        dict_insert(insert_all(rs, es.drop_last()), es.last().0, es.last().1)
    }
}

/// What the name `k` is bound to after the entries `es` are bound one after
/// another on top of `before`: the resource of the last entry named `k`, or
/// `before` when no entry is.
pub open spec fn last_binding(es: Named, k: Seq<char>, before: Option<ResourceModel>) -> Option<ResourceModel>
    decreases es.len(),
{
    if es.len() == 0 {
        before
    } else if es.last().0 == k {
        Some(es.last().1)
    } else {
        last_binding(es.drop_last(), k, before)
    }
}

/// What the name `k` is bound to after the parts are bound one after
/// another: the resource that the last part naming `k` gives it.
pub open spec fn parts_binding(parts: Seq<Named>, k: Seq<char>) -> Option<ResourceModel>
    decreases parts.len(),
{
    if parts.len() == 0 {
        None
    } else {
        last_binding(parts.last(), k, parts_binding(parts.drop_last(), k))
    }
}

/// Binding entries one after another: a name is bound to the resource of
/// the last entry that names it, and keeps its earlier resource when none
/// does.
pub proof fn lemma_get_insert_all(rs: Named, es: Named, k: Seq<char>)
    ensures
        dict_get(insert_all(rs, es), k) == last_binding(es, k, dict_get(rs, k)),
    decreases es.len(),
{
    if es.len() > 0 {
        lemma_get_insert_all(rs, es.drop_last(), k);
        crate::types::dictionary::lemma_get_insert(insert_all(rs, es.drop_last()), es.last().0, es.last().1, k);
    }
}

/// Binding the categories one after another: a name is bound to the
/// resource that the last category naming it gives, so a later category
/// overrides an earlier one, and a name that no category gives is unbound.
pub proof fn lemma_get_insert_parts(parts: Seq<Named>, k: Seq<char>)
    ensures
        dict_get(insert_parts(parts), k) == parts_binding(parts, k),
    decreases parts.len(),
{
    if parts.len() > 0 {
        lemma_get_insert_parts(parts.drop_last(), k);
        lemma_get_insert_all(insert_parts(parts.drop_last()), parts.last(), k);
    } else {
        assert(dict_get(Seq::<(Seq<char>, ResourceModel)>::empty(), k) is None);
    }
}

/// `c` is what the category `f` of the resource dictionary `d` gives in
/// `m`: nothing when `d` has no such entry; otherwise what the object that
/// the entry stands for gives (for fonts, the entry itself, which is not
/// looked up).
pub open spec fn category_read(
    m0: crate::objects::ObjectsModel,
    m: crate::objects::ObjectsModel,
    d: Seq<(Seq<char>, ObjectModel)>,
    f: ResourceField,
    c: Result<Named, ResourcesError>,
) -> bool {
    match dict_get(d, f.spec_key()) {
        None => c == Ok::<Named, ResourcesError>(Seq::empty()),
        Some(x) => if f is Font {
            c == category_entries(f, x)
        } else {
            exists|t: ObjectModel| #![trigger stands_for(m, x, t)] stands_for(m, x, t) && pinned(m0, x, t) && c == category_entries(f, t)
        },
    }
}

/// The categories in the order in which they are read.
pub open spec fn field_at(i: int) -> ResourceField {
    if i == 0 {
        ResourceField::ExtGState
    } else if i == 1 {
        ResourceField::ColorSpace
    } else if i == 2 {
        ResourceField::Pattern
    } else if i == 3 {
        ResourceField::Shading
    } else if i == 4 {
        ResourceField::XObject
    } else if i == 5 {
        ResourceField::Font
    } else if i == 6 {
        ResourceField::ProcSet
    } else {
        ResourceField::Properties
    }
}

/// The number of categories.
pub const CATEGORIES: usize = 8;

/// Each part `parts[i]` is what the category `field_at(i)` of the resource
/// dictionary `d` gives in `m`.
pub open spec fn parts_read(
    m0: crate::objects::ObjectsModel,
    m: crate::objects::ObjectsModel, d: Seq<(Seq<char>, ObjectModel)>, parts: Seq<Named>) -> bool {
    forall|i: int|
        0 <= i < parts.len() ==> #[trigger] category_read(m0, 
            m,
            d,
            field_at(i),
            Ok::<Named, ResourcesError>(parts[i]),
        )
}

/// The parts bound one after another, from the first.
pub open spec fn insert_parts(parts: Seq<Named>) -> Named
    decreases parts.len(),
{
    if parts.len() == 0 {
        Seq::empty()
    } else {
        insert_all(insert_parts(parts.drop_last()), parts.last())
    }
}

/// `v` are the named resources that the first `k` categories of the
/// resource dictionary `d` give in `m`, bound in that order.
pub open spec fn categories_read(
    m0: crate::objects::ObjectsModel,
    m: crate::objects::ObjectsModel, d: Seq<(Seq<char>, ObjectModel)>, k: nat, v: Named) -> bool {
    exists|parts: Seq<Named>| #[trigger] parts_read(m0, m, d, parts) && parts.len() == k && v == insert_parts(parts)
}

/// `k` names one of the entries `es`.
pub open spec fn names_in(es: Named, k: Seq<char>) -> bool {
    exists|j: int| 0 <= j < es.len() && (#[trigger] es[j]).0 == k
}

/// Binding entries on top of `before` leaves `k` as it was when no entry
/// names it, and binds it to the resource of an entry naming it otherwise.
proof fn lemma_last_binding_cases(es: Named, k: Seq<char>, before: Option<ResourceModel>)
    ensures
        !names_in(es, k) ==> last_binding(es, k, before) == before,
        names_in(es, k) ==> exists|j: int|
            0 <= j < es.len() && (#[trigger] es[j]).0 == k && last_binding(es, k, before) == Some(es[j].1),
    decreases es.len(),
{
    if es.len() > 0 {
        let rest = es.drop_last();
        lemma_last_binding_cases(rest, k, before);
        if es.last().0 == k {
            assert(es[es.len() - 1].0 == k);
        } else {
            assert forall|j: int| 0 <= j < rest.len() implies #[trigger] rest[j] == es[j] by {}
            if names_in(es, k) {
                let j = choose|j: int| 0 <= j < es.len() && (#[trigger] es[j]).0 == k;
                assert(j < rest.len());
                assert(rest[j] == es[j]);
                let j2 = choose|j2: int|
                    0 <= j2 < rest.len() && (#[trigger] rest[j2]).0 == k && last_binding(rest, k, before) == Some(
                        rest[j2].1,
                    );
                assert(es[j2] == rest[j2]);
            } else {
                assert forall|j: int| 0 <= j < rest.len() implies (#[trigger] rest[j]).0 != k by {
                    assert(rest[j] == es[j]);
                }
            }
        }
    }
}

/// A name that no part names is unbound.
proof fn lemma_parts_binding_none(parts: Seq<Named>, k: Seq<char>)
    requires
        forall|j: int| 0 <= j < parts.len() ==> !names_in(#[trigger] parts[j], k),
    ensures
        parts_binding(parts, k) is None,
    decreases parts.len(),
{
    if parts.len() > 0 {
        let rest = parts.drop_last();
        assert forall|j: int| 0 <= j < rest.len() implies !names_in(#[trigger] rest[j], k) by {
            assert(rest[j] == parts[j]);
        }
        lemma_parts_binding_none(rest, k);
        assert(!names_in(parts[parts.len() - 1], k));
        lemma_last_binding_cases(parts.last(), k, parts_binding(rest, k));
    }
}

/// A name that some part names is bound.
proof fn lemma_parts_binding_some(parts: Seq<Named>, k: Seq<char>, i: int)
    requires
        0 <= i < parts.len(),
        names_in(parts[i], k),
    ensures
        parts_binding(parts, k) is Some,
    decreases parts.len(),
{
    let rest = parts.drop_last();
    if i == parts.len() - 1 {
        lemma_last_binding_cases(parts.last(), k, parts_binding(rest, k));
    } else {
        assert(rest[i] == parts[i]);
        lemma_parts_binding_some(rest, k, i);
        lemma_last_binding_cases(parts.last(), k, parts_binding(rest, k));
    }
}

/// A name that only the part `i` names is bound as that part binds it.
proof fn lemma_parts_binding_only(parts: Seq<Named>, k: Seq<char>, i: int)
    requires
        0 <= i < parts.len(),
        forall|j: int| 0 <= j < parts.len() && j != i ==> !names_in(#[trigger] parts[j], k),
    ensures
        parts_binding(parts, k) == last_binding(parts[i], k, None),
    decreases parts.len(),
{
    let rest = parts.drop_last();
    if i == parts.len() - 1 {
        assert forall|j: int| 0 <= j < rest.len() implies !names_in(#[trigger] rest[j], k) by {
            assert(rest[j] == parts[j]);
        }
        lemma_parts_binding_none(rest, k);
    } else {
        assert forall|j: int| 0 <= j < rest.len() && j != i implies !names_in(#[trigger] rest[j], k) by {
            assert(rest[j] == parts[j]);
        }
        assert(rest[i] == parts[i]);
        lemma_parts_binding_only(rest, k, i);
        assert(!names_in(parts[parts.len() - 1], k));
        lemma_last_binding_cases(parts.last(), k, parts_binding(rest, k));
    }
}

/// A category reads as at most one set of named resources.
proof fn lemma_category_unique(
    m0: crate::objects::ObjectsModel,
    m: crate::objects::ObjectsModel,
    d: Seq<(Seq<char>, ObjectModel)>,
    f: ResourceField,
    c1: Named,
    c2: Named,
)
    requires
        category_read(m0, m, d, f, Ok::<Named, ResourcesError>(c1)),
        category_read(m0, m, d, f, Ok::<Named, ResourcesError>(c2)),
    ensures
        c1 == c2,
{
    if let Some(x) = dict_get(d, f.spec_key()) {
        if !(f is Font) {
            let t1 = choose|t: ObjectModel| stands_for(m, x, t) && pinned(m0, x, t) && Ok::<Named, ResourcesError>(c1)
                == category_entries(f, t);
            let t2 = choose|t: ObjectModel| stands_for(m, x, t) && pinned(m0, x, t) && Ok::<Named, ResourcesError>(c2)
                == category_entries(f, t);
            if x is IndirectReference {
                assert(category_entries(f, x) is Err);
            }
        }
    }
}

/// Each resource that a category gives is of that category.
proof fn lemma_category_kinds(
    m0: crate::objects::ObjectsModel,
    m: crate::objects::ObjectsModel,
    d: Seq<(Seq<char>, ObjectModel)>,
    f: ResourceField,
    c: Named,
)
    requires
        category_read(m0, m, d, f, Ok::<Named, ResourcesError>(c)),
    ensures
        forall|j: int| 0 <= j < c.len() ==> kind_of((#[trigger] c[j]).1) == f,
{
    if let Some(x) = dict_get(d, f.spec_key()) {
        let t = if f is Font {
            x
        } else {
            choose|t: ObjectModel| stands_for(m, x, t) && pinned(m0, x, t) && Ok::<Named, ResourcesError>(c)
                == category_entries(f, t)
        };
        assert(category_entries(f, t) == Ok::<Named, ResourcesError>(c));
    }
}

/// The step at which the category `f` is read; no other step reads it.
proof fn lemma_field_index(f: ResourceField) -> (i: int)
    ensures
        0 <= i < CATEGORIES,
        field_at(i) == f,
        forall|j: int| 0 <= j < CATEGORIES && j != i ==> field_at(j) != f,
{
    match f {
        ResourceField::ExtGState => 0,
        ResourceField::ColorSpace => 1,
        ResourceField::Pattern => 2,
        ResourceField::Shading => 3,
        ResourceField::XObject => 4,
        ResourceField::Font => 5,
        ResourceField::ProcSet => 6,
        ResourceField::Properties => 7,
    }
}

/// Every category of a resource dictionary is read: each name that a
/// category gives (fonts, images and other `XObject`s, color spaces,
/// patterns, shadings, graphics states, procedure sets, properties) is bound
/// in the resources read from the dictionary, and a name that no other
/// category gives is bound to a resource of that category, the one of the
/// last of its entries that names it.
pub proof fn lemma_category_names_bound(
    m0: crate::objects::ObjectsModel,
    m: crate::objects::ObjectsModel,
    d: Seq<(Seq<char>, ObjectModel)>,
    v: Named,
    f: ResourceField,
    es: Named,
    k: Seq<char>,
)
    requires
        categories_read(m0, m, d, CATEGORIES as nat, v),
        category_read(m0, m, d, f, Ok::<Named, ResourcesError>(es)),
        names_in(es, k),
    ensures
        dict_get(v, k) is Some,
        (forall|g: ResourceField, c: Named|
            #![trigger category_read(m0, m, d, g, Ok::<Named, ResourcesError>(c))]
            g != f && category_read(m0, m, d, g, Ok::<Named, ResourcesError>(c)) ==> !names_in(c, k))
            ==> dict_get(v, k) == last_binding(es, k, None) && kind_of(dict_get(v, k)->Some_0) == f,
{
    let parts = choose|parts: Seq<Named>| #[trigger] parts_read(m0, m, d, parts) && parts.len() == CATEGORIES as nat
        && v == insert_parts(parts);
    lemma_get_insert_parts(parts, k);
    let i = lemma_field_index(f);
    assert(category_read(m0, m, d, field_at(i), Ok::<Named, ResourcesError>(parts[i])));
    lemma_category_unique(m0, m, d, f, parts[i], es);
    lemma_parts_binding_some(parts, k, i);
    if forall|g: ResourceField, c: Named|
        #![trigger category_read(m0, m, d, g, Ok::<Named, ResourcesError>(c))]
        g != f && category_read(m0, m, d, g, Ok::<Named, ResourcesError>(c)) ==> !names_in(c, k) {
        assert forall|j: int| 0 <= j < parts.len() && j != i implies !names_in(#[trigger] parts[j], k) by {
            assert(category_read(m0, m, d, field_at(j), Ok::<Named, ResourcesError>(parts[j])));
        }
        lemma_parts_binding_only(parts, k, i);
        lemma_last_binding_cases(es, k, None);
        lemma_category_kinds(m0, m, d, f, es);
    }
}

/// What a category gives stays so while more is read.
proof fn lemma_category_stays(
    m0: crate::objects::ObjectsModel,
    a: crate::objects::ObjectsModel,
    b: crate::objects::ObjectsModel,
    d: Seq<(Seq<char>, ObjectModel)>,
    f: ResourceField,
    c: Result<Named, ResourcesError>,
)
    requires
        extends(a, b),
        category_read(m0, a, d, f, c),
    ensures
        category_read(m0, b, d, f, c),
{
    match dict_get(d, f.spec_key()) {
        None => {},
        Some(x) => {
            if !(f is Font) {
                let t = choose|t: ObjectModel| stands_for(a, x, t) && pinned(m0, x, t) && c == category_entries(f, t);
                lemma_stands_for_stays(a, b, x, t);
            }
        },
    }
}

/// What a category gives, pinned where a later lookup began, is pinned
/// where an earlier one began.
proof fn lemma_category_earlier(
    m0: crate::objects::ObjectsModel,
    m1: crate::objects::ObjectsModel,
    m: crate::objects::ObjectsModel,
    d: Seq<(Seq<char>, ObjectModel)>,
    f: ResourceField,
    c: Result<Named, ResourcesError>,
)
    requires
        extends(m0, m1),
        category_read(m1, m, d, f, c),
    ensures
        category_read(m0, m, d, f, c),
{
    match dict_get(d, f.spec_key()) {
        None => {},
        Some(x) => {
            if !(f is Font) {
                let t = choose|t: ObjectModel| stands_for(m, x, t) && pinned(m1, x, t) && c == category_entries(f, t);
                crate::objects::lemma_pinned_earlier(m0, m1, x, t);
            }
        },
    }
}

/// What the first categories give stays so while more is read.
proof fn lemma_categories_stay(
    m0: crate::objects::ObjectsModel,
    a: crate::objects::ObjectsModel,
    b: crate::objects::ObjectsModel,
    d: Seq<(Seq<char>, ObjectModel)>,
    k: nat,
    v: Named,
)
    requires
        extends(a, b),
        categories_read(m0, a, d, k, v),
    ensures
        categories_read(m0, b, d, k, v),
{
    let parts = choose|parts: Seq<Named>| #[trigger] parts_read(m0, a, d, parts) && parts.len() == k && v == insert_parts(parts);
    assert forall|i: int| 0 <= i < parts.len() implies #[trigger] category_read(m0, 
        b,
        d,
        field_at(i),
        Ok::<Named, ResourcesError>(parts[i]),
    ) by {
        lemma_category_stays(m0, a, b, d, field_at(i), Ok::<Named, ResourcesError>(parts[i]));
    }
    assert(parts_read(m0, b, d, parts));
}

/// Reading one more category extends what the first ones give.
proof fn lemma_categories_step(
    m0: crate::objects::ObjectsModel,
    m: crate::objects::ObjectsModel,
    d: Seq<(Seq<char>, ObjectModel)>,
    k: nat,
    w: Named,
    es: Named,
)
    requires
        categories_read(m0, m, d, k, w),
        category_read(m0, m, d, field_at(k as int), Ok::<Named, ResourcesError>(es)),
    ensures
        categories_read(m0, m, d, k + 1, insert_all(w, es)),
{
    let parts = choose|parts: Seq<Named>| #[trigger] parts_read(m0, m, d, parts) && parts.len() == k && w == insert_parts(parts);
    let next = parts.push(es);
    assert(next.drop_last() =~= parts);
    assert forall|i: int| 0 <= i < next.len() implies #[trigger] category_read(m0, 
        m,
        d,
        field_at(i),
        Ok::<Named, ResourcesError>(next[i]),
    ) by {
        if i < parts.len() {
            assert(next[i] == parts[i]);
        }
    }
    assert(parts_read(m0, m, d, next));
    assert(insert_parts(next) == insert_all(w, es));
}

/// The category read at step `i`.
fn field_at_index(i: usize) -> (r: ResourceField)
    requires
        i < CATEGORIES,
    ensures
        r == field_at(i as int),
{
    if i == 0 {
        ResourceField::ExtGState
    } else if i == 1 {
        ResourceField::ColorSpace
    } else if i == 2 {
        ResourceField::Pattern
    } else if i == 3 {
        ResourceField::Shading
    } else if i == 4 {
        ResourceField::XObject
    } else if i == 5 {
        ResourceField::Font
    } else if i == 6 {
        ResourceField::ProcSet
    } else {
        ResourceField::Properties
    }
}

/// The names that the elements of the array `array` hold.
fn read_names(array: &Object) -> (r: Result<Vec<String>, ArrayError>)
    ensures
        match array@ {
            ObjectModel::Array(items) => match spec_names(items) {
                Ok(ns) => r matches Ok(v) && v@.map_values(|s: String| s@) == ns,
                Err(e) => r == Err::<Vec<String>, ArrayError>(ArrayError::FailedArrayConvertion(e)),
            },
            _ => r == Err::<Vec<String>, ArrayError>(ArrayError::UnexpectedObjectType),
        },
{
    let name_of = |o: &Object| -> (n: Result<String, ObjectError>)
        ensures
            match o@ {
                ObjectModel::Name(t) => n matches Ok(s) && s@ == t,
                _ => n == Err::<String, ObjectError>(
                    ObjectError::UnexpectedObjectType { expected: ObjectKind::Name },
                ),
            },
        {
            match o.as_name() {
                Ok(t) => Ok(t.to_owned()),
                Err(e) => Err(e),
            }
        };
    let r = array.as_array().of(name_of);
    proof {
        if let Object::Array(a) = array {
            lemma_objects_view(a.data@);
            let items = objects_view(a.data@);
            assert(array@ == ObjectModel::Array(items));
            if r is Ok {
                let v = r->Ok_0;
                assert forall|i: int| 0 <= i < items.len() implies #[trigger] items[i] is Name by {
                    assert(name_of.ensures((&a.data@[i],), Ok::<String, ObjectError>(v@[i])));
                }
                assert(v@.map_values(|s: String| s@) =~= items.map_values(|o: ObjectModel| o->Name_0)) by {
                    assert forall|i: int| 0 <= i < items.len() implies v@[i]@ == items[i]->Name_0 by {
                        assert(name_of.ensures((&a.data@[i],), Ok::<String, ObjectError>(v@[i])));
                    }
                }
            } else if r->Err_0 is FailedArrayConvertion {
                let e = r->Err_0->FailedArrayConvertion_0;
                let i = choose|i: int|
                    0 <= i < a.data@.len() && #[trigger] name_of.ensures(
                        (&a.data@[i],),
                        Err::<String, ObjectError>(e),
                    );
                assert(!(items[i] is Name));
            }
        }
    }
    r
}

/// Reads the category `f` of the resource dictionary `dictionary`: binds
/// each resource that it names in `acc`.
fn read_category(dictionary: &Dictionary, f: ResourceField, objects: &mut Objects, acc: &mut Resources) -> (r: Result<
    (),
    ResourcesError,
>)
    ensures
        extends(old(objects)@, final(objects)@),
        r is Ok ==> exists|es: Named|
            #[trigger] category_read(old(objects)@, final(objects)@, dictionary@, f, Ok::<Named, ResourcesError>(es))
                && final(acc)@ == insert_all(old(acc)@, es),
        r matches Err(e) ==> category_read(old(objects)@, final(objects)@, dictionary@, f, Err::<Named, ResourcesError>(e)),
        sorted_keys(old(acc)@) ==> sorted_keys(final(acc)@),
{
    let ghost m0 = objects@;
    let entry = match dictionary.get(f.key()) {
        None => {
            assert(category_read(m0, objects@, dictionary@, f, Ok::<Named, ResourcesError>(Seq::empty())));
            assert(acc@ == insert_all(acc@, Seq::empty()));
            return Ok(());
        },
        Some(x) => x,
    };
    let target = match f {
        ResourceField::Font => copy_object(entry),
        _ => entry.direct(objects),
    };
    assert(f is Font ==> objects@ == m0);
    assert(!(f is Font) ==> stands_for(objects@, entry@, target@));
    let ghost c = category_entries(f, target@);
    assert(category_read(m0, objects@, dictionary@, f, c));
    let ghost acc0 = acc@;
    match f {
        ResourceField::ProcSet => {
            let names = match read_names(&target) {
                Ok(v) => v,
                Err(e) => {
                    return Err(ResourcesError::InvalidArray { field: f, source: e });
                },
            };
            let ghost es = c->Ok_0;
            let mut j: usize = 0;
            while j < names.len()
                invariant
                    j <= names@.len(),
                    c is Ok,
                    es == c->Ok_0,
                    es.len() == names@.len(),
                    forall|i: int| 0 <= i < names@.len() ==> #[trigger] es[i] == (names@[i]@, ResourceModel::ProcSet),
                    acc@ == insert_all(acc0, es.take(j as int)),
                    sorted_keys(acc0) ==> sorted_keys(acc@),
                decreases names@.len() - j,
            {
                assert(es.take(j + 1).drop_last() =~= es.take(j as int));
                proof {
                    if sorted_keys(acc@) {
                        lemma_insert_sorted(acc@, names@[j as int]@, ResourceModel::ProcSet);
                    }
                }
                acc.insert(names[j].clone(), Resource::ProcSet);
                j = j + 1;
            }
            assert(es.take(names@.len() as int) =~= es);
            Ok(())
        },
        _ => {
            let d = match target.as_dictionary() {
                Ok(d) => d,
                Err(e) => {
                    return Err(ResourcesError::InvalidType { field: f, source: e });
                },
            };
            let entries = d.entries();
            proof {
                lemma_records_view(d.records@);
            }
            let ghost es = c->Ok_0;
            let mut j: usize = 0;
            while j < entries.len()
                invariant
                    j <= entries@.len(),
                    entries@ == d.records@,
                    !(f is ProcSet),
                    c is Ok,
                    es == c->Ok_0,
                    es.len() == entries@.len(),
                    forall|i: int| 0 <= i < entries@.len() ==> #[trigger] es[i] == (entries@[i].0@, ResourceModel::Entry(f, entries@[i].1@)),
                    acc@ == insert_all(acc0, es.take(j as int)),
                    sorted_keys(acc0) ==> sorted_keys(acc@),
                decreases entries@.len() - j,
            {
                assert(es.take(j + 1).drop_last() =~= es.take(j as int));
                proof {
                    if sorted_keys(acc@) {
                        lemma_insert_sorted(acc@, entries@[j as int].0@, ResourceModel::Entry(f, entries@[j as int].1@));
                    }
                }
                let value = Resource::new(f, copy_object(&entries[j].1));
                acc.insert(entries[j].0.clone(), value);
                j = j + 1;
            }
            assert(es.take(entries@.len() as int) =~= es);
            Ok(())
        },
    }
}

impl Resources {
    /// Reads the resource dictionary `dictionary`. The categories are read
    /// in the order `ExtGState`, `ColorSpace`, `Pattern`, `Shading`,
    /// `XObject`, `Font`, `ProcSet`, `Properties`; each entry but `Font` is
    /// looked up among the objects. Every name in every category is bound to
    /// its resource; a name given by a later category replaces the one
    /// given by an earlier category. The first category that is not a
    /// dictionary (for `ProcSet`, an array of names) gives the error.
    pub fn from_dictionary(dictionary: &Dictionary, objects: &mut Objects) -> (r: Result<Resources, ResourcesError>)
        ensures
            extends(old(objects)@, final(objects)@),
            r matches Ok(res) ==> categories_read(old(objects)@, final(objects)@, dictionary@, CATEGORIES as nat, res@)
                && sorted_keys(res@),
            r matches Err(e) ==> exists|k: nat, w: Named|
                k < CATEGORIES && #[trigger] categories_read(old(objects)@, final(objects)@, dictionary@, k, w) && category_read(old(objects)@, 
                    final(objects)@,
                    dictionary@,
                    field_at(k as int),
                    Err::<Named, ResourcesError>(e),
                ),
    {
        let ghost m0 = objects@;
        let mut acc = Resources::empty();
        let mut i: usize = 0;
        assert(parts_read(m0, objects@, dictionary@, Seq::<Named>::empty()));
        assert(categories_read(m0, objects@, dictionary@, 0, acc@));
        while i < CATEGORIES
            invariant
                i <= CATEGORIES,
                extends(old(objects)@, objects@),
                m0 == old(objects)@,
                categories_read(m0, objects@, dictionary@, i as nat, acc@),
                sorted_keys(acc@),
            decreases CATEGORIES - i,
        {
            let ghost m1 = objects@;
            let ghost acc1 = acc@;
            let f = field_at_index(i);
            let res = read_category(dictionary, f, objects, &mut acc);
            proof {
                crate::objects::lemma_extends_trans(old(objects)@, m1, objects@);
                lemma_categories_stay(m0, m1, objects@, dictionary@, i as nat, acc1);
            }
            match res {
                Ok(()) => {
                    proof {
                        let es = choose|es: Named|
                            #[trigger] category_read(m1, objects@, dictionary@, f, Ok::<Named, ResourcesError>(es))
                                && acc@ == insert_all(acc1, es);
                        lemma_category_earlier(m0, m1, objects@, dictionary@, f, Ok::<Named, ResourcesError>(es));
                        lemma_categories_step(m0, objects@, dictionary@, i as nat, acc1, es);
                    }
                },
                Err(e) => {
                    proof {
                        lemma_category_earlier(m0, m1, objects@, dictionary@, f, Err::<Named, ResourcesError>(e));
                        assert(categories_read(m0, objects@, dictionary@, i as nat, acc1));
                    }
                    return Err(e);
                },
            }
            i = i + 1;
        }
        Ok(acc)
    }
}

/// The text of the named resources: a line `name: Kind` for each, in their
/// order.
pub open spec fn resources_text(rs: Named) -> Seq<u8>
    decreases rs.len(),
{
    if rs.len() == 0 {
        Seq::empty()
    } else {
        resources_text(rs.drop_last()) + encode_utf8(rs.last().0) + seq![0x3au8, 0x20u8] + encode_utf8(
            kind_of(rs.last().1).spec_key(),
        ) + seq![0x0au8]
    }
}

/// The text of the named resources is UTF-8.
proof fn lemma_resources_text_valid(rs: Named)
    ensures
        vstd::utf8::valid_utf8(resources_text(rs)),
    decreases rs.len(),
{
    if rs.len() > 0 {
        let a = resources_text(rs.drop_last());
        let b = encode_utf8(rs.last().0);
        let c = seq![0x3au8, 0x20u8];
        let e = encode_utf8(kind_of(rs.last().1).spec_key());
        let n = seq![0x0au8];
        lemma_resources_text_valid(rs.drop_last());
        crate::parser::process_stream_buffer::lemma_ascii_valid(c);
        crate::parser::process_stream_buffer::lemma_ascii_valid(n);
        vstd::utf8::encode_utf8_valid_utf8(rs.last().0);
        vstd::utf8::encode_utf8_valid_utf8(kind_of(rs.last().1).spec_key());
        vstd::utf8::valid_utf8_concat(a, b);
        vstd::utf8::valid_utf8_concat(a + b, c);
        vstd::utf8::valid_utf8_concat(a + b + c, e);
        vstd::utf8::valid_utf8_concat(a + b + c + e, n);
    } else {
        crate::parser::process_stream_buffer::lemma_ascii_valid(Seq::<u8>::empty());
    }
}

/// Appends `b` to `out`.
fn push_all(out: &mut Vec<u8>, b: &[u8])
    ensures
        final(out)@ == old(out)@ + b@,
{
    let mut i: usize = 0;
    while i < b.len()
        invariant
            i <= b@.len(),
            out@ == old(out)@ + b@.take(i as int),
        decreases b@.len() - i,
    {
        out.push(b[i]);
        i = i + 1;
        assert(out@ =~= old(out)@ + b@.take(i as int));
    }
    assert(b@.take(b@.len() as int) =~= b@);
}

impl Resources {
    /// The resources as text: a line `name: Kind` for each, in increasing
    /// order of the names.
    pub fn to_text(&self) -> (r: String)
        ensures
            r@ == vstd::utf8::decode_utf8(resources_text(self@)),
    {
        let mut out: Vec<u8> = Vec::new();
        let mut i: usize = 0;
        while i < self.data.len()
            invariant
                i <= self.data@.len(),
                out@ == resources_text(self@.take(i as int)),
            decreases self.data@.len() - i,
        {
            let ghost before = out@;
            push_all(&mut out, self.data[i].0.as_str().as_bytes());
            out.push(0x3a);
            out.push(0x20);
            push_all(&mut out, self.data[i].1.kind().key().as_bytes());
            out.push(0x0a);
            proof {
                let t = self@.take(i + 1);
                assert(t.drop_last() =~= self@.take(i as int));
                assert(out@ =~= resources_text(t));
            }
            i = i + 1;
        }
        proof {
            assert(self@.take(self.data@.len() as int) =~= self@);
            lemma_resources_text_valid(self@);
        }
        crate::text::string_from_utf8(out).unwrap()
    }
}

} // verus!
