//! The name dictionary of the catalog: the name trees of a document, kept
//! as the objects that the dictionary holds.

use vstd::prelude::*;

use crate::structures::fields::get_cloned;
use crate::types::dictionary::{dict_get, Dictionary};
use crate::types::object::{Object, ObjectModel};

verus! {

/// The entries of a name dictionary.
#[derive(Debug, PartialEq)]
pub struct Names {
    pub dests: Option<Object>,
    pub ap: Option<Object>,
    pub javascript: Option<Object>,
    pub pages: Option<Object>,
    pub templates: Option<Object>,
    pub ids: Option<Object>,
    pub urls: Option<Object>,
    pub embedded_files: Option<Object>,
    pub alternate_presentations: Option<Object>,
    pub renditions: Option<Object>,
}

/// Why a name dictionary could not be read. Every dictionary can be read;
/// the kinds of failure are kept for the entries that may later be
/// required.
#[derive(Debug, PartialEq)]
pub enum NamesError {
    FieldNotFound,
    InvalidType,
}

/// The value of an optional object.
pub open spec fn opt_view(o: Option<Object>) -> Option<ObjectModel> {
    match o {
        Some(x) => Some(x@),
        None => None,
    }
}

impl View for Names {
    type V = Seq<Option<ObjectModel>>;

    /// The entries in the order `Dests`, `AP`, `Javascript`, `Pages`,
    /// `Templates`, `IDS`, `URLS`, `EmbeddedFiles`,
    /// `AlternatePresentations`, `Renditions`.
    open spec fn view(&self) -> Seq<Option<ObjectModel>> {
        seq![
            opt_view(self.dests),
            opt_view(self.ap),
            opt_view(self.javascript),
            opt_view(self.pages),
            opt_view(self.templates),
            opt_view(self.ids),
            opt_view(self.urls),
            opt_view(self.embedded_files),
            opt_view(self.alternate_presentations),
            opt_view(self.renditions),
        ]
    }
}

/// The entries of the name dictionary `d`, in the order of [`Names`].
pub open spec fn spec_names(d: Seq<(Seq<char>, ObjectModel)>) -> Seq<Option<ObjectModel>> {
    seq![
        dict_get(d, "Dests"@),
        dict_get(d, "AP"@),
        dict_get(d, "Javascript"@),
        dict_get(d, "Pages"@),
        dict_get(d, "Templates"@),
        dict_get(d, "IDS"@),
        dict_get(d, "URLS"@),
        dict_get(d, "EmbeddedFiles"@),
        dict_get(d, "AlternatePresentations"@),
        dict_get(d, "Renditions"@),
    ]
}

impl Names {
    /// Reads a name dictionary: a copy of each of its name trees.
    pub fn from_dictionary(dictionary: &Dictionary) -> (r: Result<Names, NamesError>)
        ensures
            r matches Ok(n) && n@ == spec_names(dictionary@),
    {
        let dests = get_cloned(dictionary, "Dests");
        let ap = get_cloned(dictionary, "AP");
        let javascript = get_cloned(dictionary, "Javascript");
        let pages = get_cloned(dictionary, "Pages");
        let templates = get_cloned(dictionary, "Templates");
        let ids = get_cloned(dictionary, "IDS");
        let urls = get_cloned(dictionary, "URLS");
        let embedded_files = get_cloned(dictionary, "EmbeddedFiles");
        let alternate_presentations = get_cloned(dictionary, "AlternatePresentations");
        let renditions = get_cloned(dictionary, "Renditions");
        let n = Names {
            dests,
            ap,
            javascript,
            pages,
            templates,
            ids,
            urls,
            embedded_files,
            alternate_presentations,
            renditions,
        };
        assert(n@ =~= spec_names(dictionary@));
        Ok(n)
    }
}

} // verus!
