//! A document: its objects, its catalog and information dictionary, and the
//! size, version and identifier of its file.

use vstd::prelude::*;

use crate::objects::{
    extends, first_read, lemma_extends_trans, lemma_obtainable_stays, lemma_resolved_stays, obtainable, resolved,
    spec_start, Objects, ObjectsError,
    ObjectsModel,
};
use crate::structures::xref::table_readable;
use crate::types::dictionary::dict_get;
use crate::types::object::{spec_as_dictionary, ObjectModel};
use crate::structures::xref::TableOutcome;
use crate::pages::{finished, last_step, walk_trace, Pages, PagesError, PagesModel};
use crate::structures::info::{empty_info, spec_info, Info, InfoError, InfoFailure, InfoModel};
use crate::structures::page::{page_read, Page};
use crate::structures::info::{dates_fit, dictionary_entries};
use crate::structures::object_stream::ObjectStreamModel;
use crate::structures::root::{
    entry_known, pin_target,
    catalog_read, entry_target, lemma_catalog_stays, root_agrees, spec_root, Root, RootError, RootModel,
};
use crate::structures::pages_tree::AttributesModel;
use crate::structures::version::Version;
use crate::types::indirect_object::IndirectReference;

verus! {

/// Why a document could not be read.
#[derive(Debug, PartialEq)]
pub enum DocumentError {
    /// The file could not be read as objects.
    Objects(ObjectsError),
    /// An object named by the trailer could not be had.
    Object { object: IndirectReference, source: ObjectsError },
    /// The catalog could not be read.
    Root(RootError),
    /// The information dictionary could not be read.
    Info(InfoError),
}

/// A document.
#[derive(Debug)]
pub struct Document {
    root: Root,
    info: Info,
    objects: Objects,
    size: u64,
    version: Version,
    hash: Option<crate::structures::hash::Hash>,
}

/// The value of a [`Document`].
pub struct DocumentModel {
    pub root: RootModel,
    pub info: InfoModel,
    pub objects: ObjectsModel,
    pub size: u64,
    pub version: Version,
    pub hash: Option<(Seq<u8>, Seq<u8>)>,
    pub pages_root: (Seq<IndirectReference>, AttributesModel),
}

impl View for Document {
    type V = DocumentModel;

    closed spec fn view(&self) -> DocumentModel {
        DocumentModel {
            root: self.root@,
            info: self.info@,
            objects: self.objects@,
            size: self.size,
            version: self.version,
            hash: match self.hash {
                Some(h) => Some(h@),
                None => None,
            },
            pages_root: (self.root.pages.kids@, self.root.pages.inheritable_attributes@),
        }
    }
}

/// The document can be read from the objects `m` that the first
/// cross-reference section gives, with metadata `mv` (catalog, version,
/// identifier, information dictionary): the catalog is a dictionary whose
/// `Pages` and `Names` entries can be had and that reads as a catalog, and
/// the information dictionary, when named, can be had and reads without a
/// date whose offset overflows.
pub open spec fn document_readable(
    m: ObjectsModel,
    mv: (IndirectReference, Version, Option<(Seq<u8>, Seq<u8>)>, Option<IndirectReference>),
) -> bool {
    &&& match obtainable(m, (mv.0.id, mv.0.gen_id)) {
        Some(o) => match spec_as_dictionary(o) {
            Ok(d) => entry_known(m, dict_get(d, "Pages"@)) && entry_known(m, dict_get(d, "Names"@))
                && spec_root(d, pin_target(m, dict_get(d, "Pages"@)), pin_target(m, dict_get(d, "Names"@))) is Ok,
            Err(_) => false,
        },
        None => false,
    }
    &&& match mv.3 {
        Some(i) => match obtainable(m, (i.id, i.gen_id)) {
            Some(io) => dates_fit(dictionary_entries(io)) && spec_info(io) is Ok,
            None => false,
        },
        None => true,
    }
}

/// An entry that can be had from `a` is had, as the same object, from a
/// later `b`.
proof fn lemma_entry_stays(a: ObjectsModel, b: ObjectsModel, o: Option<ObjectModel>)
    requires
        extends(a, b),
    ensures
        entry_known(a, o) ==> entry_known(b, o) && pin_target(b, o) == pin_target(a, o),
{
    if let Some(ObjectModel::IndirectReference(id, g)) = o {
        if obtainable(a, (id as usize, g as usize)) is Some {
            lemma_obtainable_stays(a, b, (id as usize, g as usize));
        }
    }
}

impl Document {
    /// Reads the document in `file`, whose size is `size`: its objects,
    /// the catalog that the trailer names, and the information dictionary
    /// when the trailer names one (no metadata otherwise). An information
    /// dictionary with a date whose time zone offset does not fit in 32
    /// bits is refused with [`InfoError::UnreadableDate`].
    pub fn from_data(file: Vec<u8>, size: u64) -> (r: Result<Document, DocumentError>)
        ensures
            spec_start(file@) is None ==> r matches Err(DocumentError::Objects(_)),
            spec_start(file@) matches Some((v, off)) ==> {
                &&& !table_readable(file@, off as int) ==> r == Err::<Document, DocumentError>(
                    DocumentError::Objects(ObjectsError::Unreadable),
                )
                &&& table_readable(file@, off as int) ==> match first_read(file@, v, off).1 {
                    TableOutcome::Fail(e) => r == Err::<Document, DocumentError>(
                        DocumentError::Objects(ObjectsError::ReadXref(e)),
                    ),
                    TableOutcome::StreamFail => r matches Err(DocumentError::Objects(_)),
                    TableOutcome::Meta(mv) => document_readable(
                        ObjectsModel {
                            file: file@,
                            xref: first_read(file@, v, off).0,
                            streams: Map::<usize, ObjectStreamModel>::empty(),
                        },
                        mv,
                    ) ==> r is Ok,
                }
            },
            r matches Ok(d) ==> {
                &&& d@.size == size
                &&& d@.objects.file == file@
                &&& spec_start(file@) matches Some((v, off))
                &&& first_read(file@, v, off).1 matches TableOutcome::Meta(mv)
                &&& d@.version == mv.1
                &&& d@.hash == mv.2
                &&& resolved(d@.objects, (mv.0.id, mv.0.gen_id)) matches Some(o) && exists|m0: ObjectsModel|
                    #![trigger catalog_read(m0, d@.objects, o, d@.root)]
                    extends(m0, d@.objects) && resolved(m0, (mv.0.id, mv.0.gen_id)) == Some(o)
                        && catalog_read(m0, d@.objects, o, d@.root)
                &&& mv.3 is None ==> d@.info == empty_info()
                &&& mv.3 matches Some(i) ==> resolved(d@.objects, (i.id, i.gen_id)) matches Some(o)
                    && spec_info(o) == Ok::<InfoModel, InfoFailure>(d@.info)
            },
    {
        let (mut objects, metadata) = match Objects::from_data(file) {
            Ok(x) => x,
            Err(e) => {
                return Err(DocumentError::Objects(e));
            },
        };
        let ghost m0 = objects@;
        let root_object = match objects.get_object(&metadata.root_id) {
            Ok(o) => o,
            Err(e) => {
                return Err(DocumentError::Object { object: metadata.root_id, source: e });
            },
        };
        let ghost m1 = objects@;
        let ghost ro = root_object@;
        proof {
            if let Ok(d) = spec_as_dictionary(ro) {
                lemma_entry_stays(m0, m1, dict_get(d, "Pages"@));
                lemma_entry_stays(m0, m1, dict_get(d, "Names"@));
            }
            if let Some(i) = metadata.info_id {
                if obtainable(m0, (i.id, i.gen_id)) is Some {
                    lemma_obtainable_stays(m0, m1, (i.id, i.gen_id));
                }
            }
        }
        let root = match Root::from_object(root_object, &mut objects) {
            Ok(r) => r,
            Err(e) => {
                return Err(DocumentError::Root(e));
            },
        };
        let ghost m2 = objects@;
        proof {
            let d = spec_as_dictionary(ro)->Ok_0;
            let (pt, nt) = choose|pt: Option<ObjectModel>, nt: Option<ObjectModel>|
                entry_target(m1, m2, dict_get(d, "Pages"@), pt) && entry_target(m1, m2, dict_get(d, "Names"@), nt)
                    && root_agrees(Ok::<Root, RootError>(root), spec_root(d, pt, nt));
            assert(catalog_read(m1, m2, ro, root@));
            lemma_resolved_stays(m1, m2, (metadata.root_id.id, metadata.root_id.gen_id));
            lemma_extends_trans(m0, m1, m2);
            if let Some(i) = metadata.info_id {
                if obtainable(m1, (i.id, i.gen_id)) is Some {
                    lemma_obtainable_stays(m1, m2, (i.id, i.gen_id));
                }
            }
        }
        let info = match metadata.info_id {
            None => Info::new(),
            Some(id) => {
                let object = match objects.get_object(&id) {
                    Ok(o) => o,
                    Err(e) => {
                        return Err(DocumentError::Object { object: id, source: e });
                    },
                };
                proof {
                    lemma_catalog_stays(m1, m2, objects@, ro, root@);
                    lemma_extends_trans(m1, m2, objects@);
                    lemma_extends_trans(m0, m2, objects@);
                    lemma_resolved_stays(m2, objects@, (metadata.root_id.id, metadata.root_id.gen_id));
                }
                match Info::from_object_checked(object) {
                    None => {
                        return Err(DocumentError::Info(InfoError::UnreadableDate));
                    },
                    Some(Ok(info)) => info,
                    Some(Err(e)) => {
                        return Err(DocumentError::Info(e));
                    },
                }
            },
        };
        Ok(
            Document {
                root,
                info,
                objects,
                size,
                version: metadata.version,
                hash: metadata.hash,
            },
        )
    }

    /// The information dictionary.
    pub fn info(&self) -> (r: &Info)
        ensures
            r@ == self@.info,
    {
        &self.info
    }

    /// The version: the catalog's when it gives one, else the header's.
    pub fn version(&self) -> (r: Version)
        ensures
            r == match self@.root.version {
                Some(v) => v,
                None => self@.version,
            },
    {
        match self.root.version {
            Some(v) => v,
            None => self.version,
        }
    }

    /// The size of the file.
    pub fn filesize(&self) -> (r: u64)
        ensures
            r == self@.size,
    {
        self.size
    }

    /// The identifier of the file, if the trailer gives one.
    pub fn hash(&self) -> (r: Option<&crate::structures::hash::Hash>)
        ensures
            match r {
                Some(h) => self@.hash == Some(h@),
                None => self@.hash is None,
            },
    {
        self.hash.as_ref()
    }

    /// A walk over the pages of the document, from the root of its page
    /// tree.
    pub fn pages(&self) -> (r: Pages)
        ensures
            r@.current == self@.pages_root.0,
            r@.attributes == self@.pages_root.1,
            r@.position == 0,
            r@.stack.len() == 0,
    {
        Pages::new(&self.root.pages)
    }

    /// The next page of the walk `pages` over this document.
    pub fn next_page(&mut self, pages: &mut Pages) -> (r: Result<Option<Page>, PagesError>)
        ensures
            extends(old(self)@.objects, final(self)@.objects),
            r matches Ok(None) ==> finished(final(pages)@),
            finished(old(pages)@) ==> (r matches Ok(None) && final(pages)@ == old(pages)@ && final(self)@
                == old(self)@),
            r matches Ok(Some(p)) ==> exists|d: Seq<(Seq<char>, ObjectModel)>, a: AttributesModel|
                #[trigger] page_read(final(self)@.objects, d, a, p),
            exists|trace: Seq<PagesModel>|
                #[trigger] walk_trace(trace, final(self)@.objects) && trace.len() >= 1 && trace[0]
                    == old(pages)@ && last_step(old(self)@.objects, trace.last(), final(pages)@, r, final(self)@.objects),
            final(self)@.root == old(self)@.root && final(self)@.info == old(self)@.info
                && final(self)@.size == old(self)@.size && final(self)@.version == old(self)@.version
                && final(self)@.hash == old(self)@.hash,
    {
        pages.compute_next(&mut self.objects)
    }
}

} // verus!
