//! The document catalog: the root of the page tree, the name dictionary,
//! and how the document is to be shown.

use vstd::prelude::*;

use crate::objects::{extends, lemma_extends_trans, lemma_stands_for_stays, obtainable, stands_for, Objects};
use crate::structures::fields::{get_bool, get_name, get_reference, opt_field};
use crate::structures::names::{spec_names, Names, NamesError};
use crate::structures::pages_tree::{no_attributes, spec_node, AttributesModel, PagesTreeError, PagesTreeNode};
use crate::structures::version::{version_of, Version, VersionError};
use crate::text::same_text;
use crate::types::dictionary::dict_get;
use crate::types::indirect_object::IndirectReference;
use crate::types::object::{
    spec_as_bool, spec_as_dictionary, spec_as_name, spec_as_reference, Object, ObjectError,
    ObjectModel,
};

verus! {

/// How pages are laid out when the document is opened.
#[derive(Debug, Clone, Copy, PartialEq, Eq, Structural)]
pub enum PageLayout {
    SinglePage,
    OneColumn,
    TwoColumnLeft,
    TwoColumnRight,
    TwoPageLeft,
    TwoPageRight,
}

impl Default for PageLayout {
    /// One page at a time.
    fn default() -> (r: Self)
        ensures
            r == PageLayout::SinglePage,
    {
        PageLayout::SinglePage
    }
}

/// What is shown beside the pages when the document is opened.
#[derive(Debug, Clone, Copy, PartialEq, Eq, Structural)]
pub enum PageMode {
    UseNone,
    UseOutlines,
    UseThumbs,
    FullScreen,
    UseOC,
    UseAttachments,
}

impl Default for PageMode {
    /// Nothing beside the pages.
    fn default() -> (r: Self)
        ensures
            r == PageMode::UseNone,
    {
        PageMode::UseNone
    }
}

/// The layout that a name stands for.
pub open spec fn page_layout_of(n: Seq<char>) -> Option<PageLayout> {
    if n == "SinglePage"@ {
        Some(PageLayout::SinglePage)
    } else if n == "OneColumn"@ {
        Some(PageLayout::OneColumn)
    } else if n == "TwoColumnLeft"@ {
        Some(PageLayout::TwoColumnLeft)
    } else if n == "TwoColumnRight"@ {
        Some(PageLayout::TwoColumnRight)
    } else if n == "TwoPageLeft"@ {
        Some(PageLayout::TwoPageLeft)
    } else if n == "TwoPageRight"@ {
        Some(PageLayout::TwoPageRight)
    } else {
        None
    }
}

/// The mode that a name stands for.
pub open spec fn page_mode_of(n: Seq<char>) -> Option<PageMode> {
    if n == "UseNone"@ {
        Some(PageMode::UseNone)
    } else if n == "UseOutlines"@ {
        Some(PageMode::UseOutlines)
    } else if n == "UseThumbs"@ {
        Some(PageMode::UseThumbs)
    } else if n == "FullScreen"@ {
        Some(PageMode::FullScreen)
    } else if n == "UseOC"@ {
        Some(PageMode::UseOC)
    } else if n == "UseAttachments"@ {
        Some(PageMode::UseAttachments)
    } else {
        None
    }
}

impl PageLayout {
    /// The layout named `name`, if there is one.
    pub fn from_name(name: &str) -> (r: Option<PageLayout>)
        ensures
            r == page_layout_of(name@),
    {
        if same_text(name, "SinglePage") {
            Some(PageLayout::SinglePage)
        } else if same_text(name, "OneColumn") {
            Some(PageLayout::OneColumn)
        } else if same_text(name, "TwoColumnLeft") {
            Some(PageLayout::TwoColumnLeft)
        } else if same_text(name, "TwoColumnRight") {
            Some(PageLayout::TwoColumnRight)
        } else if same_text(name, "TwoPageLeft") {
            Some(PageLayout::TwoPageLeft)
        } else if same_text(name, "TwoPageRight") {
            Some(PageLayout::TwoPageRight)
        } else {
            None
        }
    }
}

impl PageMode {
    /// The mode named `name`, if there is one.
    pub fn from_name(name: &str) -> (r: Option<PageMode>)
        ensures
            r == page_mode_of(name@),
    {
        if same_text(name, "UseNone") {
            Some(PageMode::UseNone)
        } else if same_text(name, "UseOutlines") {
            Some(PageMode::UseOutlines)
        } else if same_text(name, "UseThumbs") {
            Some(PageMode::UseThumbs)
        } else if same_text(name, "FullScreen") {
            Some(PageMode::FullScreen)
        } else if same_text(name, "UseOC") {
            Some(PageMode::UseOC)
        } else if same_text(name, "UseAttachments") {
            Some(PageMode::UseAttachments)
        } else {
            None
        }
    }
}

/// Why the catalog could not be read.
#[derive(Debug, PartialEq)]
pub enum RootError {
    InvalidObject(ObjectError),
    InvalidVersion(VersionError),
    InvalidType(ObjectError),
    PagesNotFound,
    InvalidPages(PagesTreeError),
    InvalidNamesDictionary(NamesError),
    UnexpectedPageLayout { value: String },
}

/// The kinds of [`RootError`], as values.
pub enum RootFailure {
    InvalidVersion,
    InvalidType(ObjectError),
    PagesNotFound,
    InvalidPages(PagesTreeError),
    UnexpectedPageLayout(Seq<char>),
}

/// An error agrees with a failure.
pub open spec fn root_error_agrees(e: RootError, f: RootFailure) -> bool {
    match f {
        RootFailure::InvalidVersion => e is InvalidVersion,
        RootFailure::InvalidType(x) => e == RootError::InvalidType(x),
        RootFailure::PagesNotFound => e is PagesNotFound,
        RootFailure::InvalidPages(x) => e == RootError::InvalidPages(x),
        RootFailure::UnexpectedPageLayout(n) => e matches RootError::UnexpectedPageLayout { value }
            && value@ == n,
    }
}

/// The document catalog.
#[derive(Debug)]
pub struct Root {
    pub version: Option<Version>,
    pub pages: PagesTreeNode,
    pub names: Option<Names>,
    pub page_layout: PageLayout,
    pub page_mode: PageMode,
    pub outlines: Option<IndirectReference>,
    pub threads: Option<IndirectReference>,
    pub metadata: Option<IndirectReference>,
    pub needs_rendering: Option<bool>,
}

/// The value of a [`Root`].
pub struct RootModel {
    pub version: Option<Version>,
    pub pages: (usize, Seq<IndirectReference>, AttributesModel),
    pub names: Option<Seq<Option<ObjectModel>>>,
    pub page_layout: PageLayout,
    pub page_mode: PageMode,
    pub outlines: Option<(int, int)>,
    pub threads: Option<(int, int)>,
    pub metadata: Option<(int, int)>,
    pub needs_rendering: Option<bool>,
}

/// The value of an optional reference.
pub open spec fn opt_ref_view(r: Option<IndirectReference>) -> Option<(int, int)> {
    match r {
        Some(x) => Some(x@),
        None => None,
    }
}

impl View for Root {
    type V = RootModel;

    open spec fn view(&self) -> RootModel {
        RootModel {
            version: self.version,
            pages: self.pages@,
            names: match self.names {
                Some(n) => Some(n@),
                None => None,
            },
            page_layout: self.page_layout,
            page_mode: self.page_mode,
            outlines: opt_ref_view(self.outlines),
            threads: opt_ref_view(self.threads),
            metadata: opt_ref_view(self.metadata),
            needs_rendering: self.needs_rendering,
        }
    }
}

/// An object read as a version name.
pub open spec fn spec_version_object(o: ObjectModel) -> Result<Version, RootFailure> {
    match o {
        ObjectModel::Name(n) => match version_of(n) {
            Some(v) => Ok(v),
            None => Err(RootFailure::InvalidVersion),
        },
        _ => Err(RootFailure::InvalidVersion),
    }
}

/// An optional name entry read with `f`, or `default` when absent.
pub open spec fn named<T>(o: Option<ObjectModel>, f: spec_fn(Seq<char>) -> Option<T>, default: T) -> Result<
    T,
    RootFailure,
> {
    match o {
        None => Ok(default),
        Some(x) => match spec_as_name(x) {
            Err(e) => Err(RootFailure::InvalidType(e)),
            Ok(n) => match f(n) {
                Some(v) => Ok(v),
                None => Err(RootFailure::UnexpectedPageLayout(n)),
            },
        },
    }
}

/// An optional entry read with `f`, its error a wrong type.
pub open spec fn typed<V>(o: Option<ObjectModel>, f: spec_fn(ObjectModel) -> Result<V, ObjectError>) -> Result<
    Option<V>,
    RootFailure,
> {
    match opt_field(o, f) {
        Ok(v) => Ok(v),
        Err(e) => Err(RootFailure::InvalidType(e)),
    }
}

/// The entries of the catalog `d` after `Names`: `Outlines`, `Threads`,
/// `Metadata`, `NeedsRendering`, `PageLayout`, `PageMode`.
pub open spec fn spec_root_tail(d: Seq<(Seq<char>, ObjectModel)>) -> Result<
    (Option<(int, int)>, Option<(int, int)>, Option<(int, int)>, Option<bool>, PageLayout, PageMode),
    RootFailure,
> {
    match typed(dict_get(d, "Outlines"@), |o: ObjectModel| spec_as_reference(o)) {
        Err(f) => Err(f),
        Ok(outlines) => match typed(dict_get(d, "Threads"@), |o: ObjectModel| spec_as_reference(o)) {
            Err(f) => Err(f),
            Ok(threads) => match typed(dict_get(d, "Metadata"@), |o: ObjectModel| spec_as_reference(o)) {
                Err(f) => Err(f),
                Ok(metadata) => match typed(
                    dict_get(d, "NeedsRendering"@),
                    |o: ObjectModel| spec_as_bool(o),
                ) {
                    Err(f) => Err(f),
                    Ok(nr) => match named(
                        dict_get(d, "PageLayout"@),
                        |n: Seq<char>| page_layout_of(n),
                        PageLayout::SinglePage,
                    ) {
                        Err(f) => Err(f),
                        Ok(layout) => match named(
                            dict_get(d, "PageMode"@),
                            |n: Seq<char>| page_mode_of(n),
                            PageMode::UseNone,
                        ) {
                            Err(f) => Err(f),
                            Ok(mode) => Ok((outlines, threads, metadata, nr, layout, mode)),
                        },
                    },
                },
            },
        },
    }
}

/// The head of the catalog `d`: its version, the page tree root read from
/// `pages` (what its `Pages` entry stands for) and the name dictionary read
/// from `names` (what its `Names` entry stands for); each is `None` when
/// the entry is absent.
pub open spec fn spec_root_head(
    d: Seq<(Seq<char>, ObjectModel)>,
    pages: Option<ObjectModel>,
    names: Option<ObjectModel>,
) -> Result<
    (Option<Version>, (usize, Seq<IndirectReference>, AttributesModel), Option<Seq<Option<ObjectModel>>>),
    RootFailure,
> {
    match opt_field(dict_get(d, "Version"@), |o: ObjectModel| spec_version_object(o)) {
        Err(f) => Err(f),
        Ok(version) => match pages {
            None => Err(RootFailure::PagesNotFound),
            Some(p) => match spec_as_dictionary(p) {
                Err(e) => Err(RootFailure::InvalidType(e)),
                Ok(pd) => match spec_node(pd, no_attributes()) {
                    Err(e) => Err(RootFailure::InvalidPages(e)),
                    Ok(node) => match names {
                        None => Ok((version, node, None)),
                        Some(no) => match spec_as_dictionary(no) {
                            Err(e) => Err(RootFailure::InvalidType(e)),
                            Ok(nd) => Ok((version, node, Some(spec_names(nd)))),
                        },
                    },
                },
            },
        },
    }
}

/// What reading the catalog `d` gives, where `pages` and `names` are what
/// its `Pages` and `Names` entries stand for.
pub open spec fn spec_root(
    d: Seq<(Seq<char>, ObjectModel)>,
    pages: Option<ObjectModel>,
    names: Option<ObjectModel>,
) -> Result<RootModel, RootFailure> {
    match spec_root_head(d, pages, names) {
        Err(f) => Err(f),
        Ok((version, node, nm)) => match spec_root_tail(d) {
            Err(f) => Err(f),
            Ok((outlines, threads, metadata, nr, layout, mode)) => Ok(
                RootModel {
                    version,
                    pages: node,
                    names: nm,
                    page_layout: layout,
                    page_mode: mode,
                    outlines,
                    threads,
                    metadata,
                    needs_rendering: nr,
                },
            ),
        },
    }
}

/// The value of the head of a catalog.
pub open spec fn head_view(h: (Option<Version>, PagesTreeNode, Option<Names>)) -> (
    Option<Version>,
    (usize, Seq<IndirectReference>, AttributesModel),
    Option<Seq<Option<ObjectModel>>>,
) {
    (
        h.0,
        h.1@,
        match h.2 {
            Some(n) => Some(n@),
            None => None,
        },
    )
}

/// The value of the tail of a catalog.
pub open spec fn tail_view(
    t: (Option<IndirectReference>, Option<IndirectReference>, Option<IndirectReference>, Option<bool>, PageLayout, PageMode),
) -> (Option<(int, int)>, Option<(int, int)>, Option<(int, int)>, Option<bool>, PageLayout, PageMode) {
    (opt_ref_view(t.0), opt_ref_view(t.1), opt_ref_view(t.2), t.3, t.4, t.5)
}

/// `t` is what the optional entry `o` stands for: the object that can be
/// had for it from `m0`, where the lookups began, when it is a reference to
/// one; else what it stands for in `m`.
pub open spec fn entry_target(
    m0: crate::objects::ObjectsModel,
    m: crate::objects::ObjectsModel,
    o: Option<ObjectModel>,
    t: Option<ObjectModel>,
) -> bool {
    match o {
        None => t is None,
        Some(x) => t matches Some(y) && match x {
            ObjectModel::IndirectReference(id, g) => match obtainable(m0, (id as usize, g as usize)) {
                Some(v) => y == v,
                None => stands_for(m, x, y),
            },
            _ => y == x,
        },
    }
}

/// The optional entry `o` can be had from what `m` holds: it is absent, no
/// reference, or a reference to an object that can be had.
pub open spec fn entry_known(m: crate::objects::ObjectsModel, o: Option<ObjectModel>) -> bool {
    match o {
        Some(ObjectModel::IndirectReference(id, g)) => obtainable(m, (id as usize, g as usize)) is Some,
        _ => true,
    }
}

/// An entry that can be had from `m0` stands for what [`pin_target`] gives.
proof fn lemma_known_target(
    m0: crate::objects::ObjectsModel,
    m: crate::objects::ObjectsModel,
    o: Option<ObjectModel>,
    t: Option<ObjectModel>,
)
    requires
        entry_known(m0, o),
        entry_target(m0, m, o, t),
    ensures
        t == pin_target(m0, o),
{
}

/// What the optional entry `o` stands for from what `m` holds: the object
/// that can be had for it when it is a reference to one, else itself.
pub open spec fn pin_target(m: crate::objects::ObjectsModel, o: Option<ObjectModel>) -> Option<ObjectModel> {
    match o {
        Some(ObjectModel::IndirectReference(id, g)) => match obtainable(m, (id as usize, g as usize)) {
            Some(v) => Some(v),
            None => o,
        },
        _ => o,
    }
}

/// A result agrees with what the catalog reads as.
pub open spec fn root_agrees(r: Result<Root, RootError>, s: Result<RootModel, RootFailure>) -> bool {
    match s {
        Ok(m) => r matches Ok(root) && root@ == m,
        Err(f) => r matches Err(e) && root_error_agrees(e, f),
    }
}

/// `r` is the catalog that the object `o` reads as in `m`: `o` is a
/// dictionary whose `Pages` and `Names` entries stand for the objects that
/// the catalog is read with.
pub open spec fn catalog_read(m0: crate::objects::ObjectsModel, m: crate::objects::ObjectsModel, o: ObjectModel, r: RootModel) -> bool {
    spec_as_dictionary(o) matches Ok(d) && exists|pt: Option<ObjectModel>, nt: Option<ObjectModel>|
        #![trigger entry_target(m0, m, dict_get(d, "Pages"@), pt), entry_target(m0, m, dict_get(d, "Names"@), nt)]
        entry_target(m0, m, dict_get(d, "Pages"@), pt) && entry_target(m0, m, dict_get(d, "Names"@), nt)
            && spec_root(d, pt, nt) == Ok::<RootModel, RootFailure>(r)
}

/// What an entry stands for stays so while more is read.
proof fn lemma_entry_target_stays(
    m0: crate::objects::ObjectsModel,
    a: crate::objects::ObjectsModel,
    b: crate::objects::ObjectsModel,
    o: Option<ObjectModel>,
    t: Option<ObjectModel>,
)
    requires
        extends(a, b),
        entry_target(m0, a, o, t),
    ensures
        entry_target(m0, b, o, t),
{
    if let Some(x) = o {
        if let ObjectModel::IndirectReference(id, g) = x {
            if obtainable(m0, (id as usize, g as usize)) is None {
                lemma_stands_for_stays(a, b, x, t->Some_0);
            }
        }
    }
}

/// The catalog that an object reads as stays so while more is read.
pub proof fn lemma_catalog_stays(
    m0: crate::objects::ObjectsModel,
    a: crate::objects::ObjectsModel,
    b: crate::objects::ObjectsModel,
    o: ObjectModel,
    r: RootModel,
)
    requires
        extends(a, b),
        catalog_read(m0, a, o, r),
    ensures
        catalog_read(m0, b, o, r),
{
    let d = spec_as_dictionary(o)->Ok_0;
    let (pt, nt) = choose|pt: Option<ObjectModel>, nt: Option<ObjectModel>|
        entry_target(m0, a, dict_get(d, "Pages"@), pt) && entry_target(m0, a, dict_get(d, "Names"@), nt)
            && spec_root(d, pt, nt) == Ok::<RootModel, RootFailure>(r);
    lemma_entry_target_stays(m0, a, b, dict_get(d, "Pages"@), pt);
    lemma_entry_target_stays(m0, a, b, dict_get(d, "Names"@), nt);
}

/// Reads the entries of the catalog after `Names`.
fn read_tail(dictionary: &crate::types::dictionary::Dictionary) -> (r: Result<
    (Option<IndirectReference>, Option<IndirectReference>, Option<IndirectReference>, Option<bool>, PageLayout, PageMode),
    RootError,
>)
    ensures
        match spec_root_tail(dictionary@) {
            Ok(v) => r matches Ok(x) && tail_view(x) == v,
            Err(f) => r matches Err(e) && root_error_agrees(e, f),
        },
{
    let outlines = match get_reference(dictionary, "Outlines") {
        Ok(v) => v,
        Err(e) => {
            return Err(RootError::InvalidType(e));
        },
    };
    let threads = match get_reference(dictionary, "Threads") {
        Ok(v) => v,
        Err(e) => {
            return Err(RootError::InvalidType(e));
        },
    };
    let metadata = match get_reference(dictionary, "Metadata") {
        Ok(v) => v,
        Err(e) => {
            return Err(RootError::InvalidType(e));
        },
    };
    let needs_rendering = match get_bool(dictionary, "NeedsRendering") {
        Ok(v) => v,
        Err(e) => {
            return Err(RootError::InvalidType(e));
        },
    };
    let page_layout = match get_name(dictionary, "PageLayout") {
        Err(e) => {
            return Err(RootError::InvalidType(e));
        },
        Ok(None) => PageLayout::SinglePage,
        Ok(Some(n)) => match PageLayout::from_name(n.as_str()) {
            Some(l) => l,
            None => {
                return Err(RootError::UnexpectedPageLayout { value: n });
            },
        },
    };
    let page_mode = match get_name(dictionary, "PageMode") {
        Err(e) => {
            return Err(RootError::InvalidType(e));
        },
        Ok(None) => PageMode::UseNone,
        Ok(Some(n)) => match PageMode::from_name(n.as_str()) {
            Some(m) => m,
            None => {
                return Err(RootError::UnexpectedPageLayout { value: n });
            },
        },
    };
    Ok((outlines, threads, metadata, needs_rendering, page_layout, page_mode))
}

/// Reads the version, the page tree root and the name dictionary of the
/// catalog.
#[verifier::rlimit(60)]
fn read_head(dictionary: &crate::types::dictionary::Dictionary, objects: &mut Objects) -> (r: Result<
    (Option<Version>, PagesTreeNode, Option<Names>),
    RootError,
>)
    ensures
        extends(old(objects)@, final(objects)@),
        exists|pt: Option<ObjectModel>, nt: Option<ObjectModel>|
            #![trigger entry_target(old(objects)@, final(objects)@, dict_get(dictionary@, "Pages"@), pt), entry_target(old(objects)@, final(objects)@, dict_get(dictionary@, "Names"@), nt)]
            entry_target(old(objects)@, final(objects)@, dict_get(dictionary@, "Pages"@), pt) && entry_target(
                old(objects)@,
                final(objects)@,
                dict_get(dictionary@, "Names"@),
                nt,
            ) && match spec_root_head(dictionary@, pt, nt) {
                Ok(v) => r matches Ok(x) && head_view(x) == v,
                Err(f) => r matches Err(e) && root_error_agrees(e, f),
            },
{
    let ghost d = dictionary@;
    let ghost m0 = objects@;
    let ghost pt0 = dict_get(d, "Pages"@);
    let ghost nt0 = dict_get(d, "Names"@);
    let ghost pi = pin_target(m0, pt0);
    let ghost ni = pin_target(m0, nt0);
    assert(entry_target(m0, m0, pt0, pi));
    assert(entry_target(m0, m0, nt0, ni));
    let version = match dictionary.get("Version") {
        None => None,
        Some(o) => match Version::from_object(o) {
            Ok(v) => Some(v),
            Err(e) => {
                return Err(RootError::InvalidVersion(e));
            },
        },
    };
    let pages_entry = match dictionary.get("Pages") {
        None => {
            return Err(RootError::PagesNotFound);
        },
        Some(o) => o,
    };
    let pages_object = pages_entry.direct(objects);
    let ghost pt = Some(pages_object@);
    let ghost m1 = objects@;
    assert(entry_target(m0, m1, pt0, pt));
    assert(entry_target(m0, m1, nt0, ni));
    let pages_dictionary = match pages_object.as_dictionary() {
        Ok(x) => x,
        Err(e) => {
            return Err(RootError::InvalidType(e));
        },
    };
    let pages = match PagesTreeNode::from_dictionary(pages_dictionary, None) {
        Ok(p) => p,
        Err(e) => {
            return Err(RootError::InvalidPages(e));
        },
    };
    match dictionary.get("Names") {
        None => Ok((version, pages, None)),
        Some(o) => {
            let names_object = o.direct(objects);
            let ghost nt = Some(names_object@);
            proof {
                lemma_extends_trans(m0, m1, objects@);
                lemma_stands_for_stays(m1, objects@, pt0->0, pt->0);
                crate::objects::lemma_pinned_earlier(m0, m1, nt0->0, names_object@);
            }
            assert(entry_target(m0, objects@, pt0, pt));
            assert(entry_target(m0, objects@, nt0, nt));
            match names_object.as_dictionary() {
                Ok(nd) => match Names::from_dictionary(nd) {
                    Ok(n) => Ok((version, pages, Some(n))),
                    Err(e) => Err(RootError::InvalidNamesDictionary(e)),
                },
                Err(e) => Err(RootError::InvalidType(e)),
            }
        },
    }
}

impl Root {
    /// Reads the catalog: its version, the root of the page tree (the
    /// object that `Pages` stands for), the name dictionary, the outline,
    /// thread and metadata references, `NeedsRendering`, and the page
    /// layout and mode (single page and no extra panel when absent).
    pub fn from_object(object: Object, objects: &mut Objects) -> (r: Result<Root, RootError>)
        ensures
            extends(old(objects)@, final(objects)@),
            match spec_as_dictionary(object@) {
                Err(e) => r == Err::<Root, RootError>(RootError::InvalidObject(e)) && final(objects)@
                    == old(objects)@,
                Ok(d) => exists|pt: Option<ObjectModel>, nt: Option<ObjectModel>|
                    #![trigger entry_target(old(objects)@, final(objects)@, dict_get(d, "Pages"@), pt), entry_target(old(objects)@, final(objects)@, dict_get(d, "Names"@), nt)]
                    entry_target(old(objects)@, final(objects)@, dict_get(d, "Pages"@), pt) && entry_target(
                        old(objects)@,
                        final(objects)@,
                        dict_get(d, "Names"@),
                        nt,
                    ) && root_agrees(r, spec_root(d, pt, nt)),
            },
            spec_as_dictionary(object@) matches Ok(d) ==> (entry_known(old(objects)@, dict_get(d, "Pages"@))
                && entry_known(old(objects)@, dict_get(d, "Names"@)) ==> root_agrees(
                r,
                spec_root(
                    d,
                    pin_target(old(objects)@, dict_get(d, "Pages"@)),
                    pin_target(old(objects)@, dict_get(d, "Names"@)),
                ),
            )),
    {
        let ghost m0 = objects@;
        let dictionary = match object.as_dictionary() {
            Ok(d) => d,
            Err(e) => {
                return Err(RootError::InvalidObject(e));
            },
        };
        let (version, pages, names) = match read_head(dictionary, objects) {
            Ok(h) => h,
            Err(e) => {
                return Err(e);
            },
        };
        let (outlines, threads, metadata, needs_rendering, page_layout, page_mode) = match read_tail(
            dictionary,
        ) {
            Ok(t) => t,
            Err(e) => {
                return Err(e);
            },
        };
        let r = Root {
            version,
            pages,
            names,
            page_layout,
            page_mode,
            outlines,
            threads,
            metadata,
            needs_rendering,
        };
        proof {
            let d = dictionary@;
            let (pt, nt) = choose|pt: Option<ObjectModel>, nt: Option<ObjectModel>|
                entry_target(m0, objects@, dict_get(d, "Pages"@), pt) && entry_target(
                    m0,
                    objects@,
                    dict_get(d, "Names"@),
                    nt,
                ) && match spec_root_head(d, pt, nt) {
                    Ok(v) => head_view((version, pages, names)) == v,
                    Err(f) => false,
                };
            if entry_known(m0, dict_get(d, "Pages"@)) && entry_known(m0, dict_get(d, "Names"@)) {
                lemma_known_target(m0, objects@, dict_get(d, "Pages"@), pt);
                lemma_known_target(m0, objects@, dict_get(d, "Names"@), nt);
            }
        }
        Ok(r)
    }
}

} // verus!
