//! The document information dictionary: title, author and other metadata.

use vstd::prelude::*;
use vstd::string::StringExecFns;

use crate::parser::date::{date_checked, date_of, date_overflows, spec_string_date, Date};
use crate::parser::object::{definition_parts, indirect_object, spec_indirect_object};
use crate::parser::outcome::Outcome;
use crate::types::dictionary::Dictionary;
use crate::text::same_text;
use crate::types::object::{lemma_records_view, spec_as_dictionary, Object, ObjectError, ObjectKind, ObjectModel};
use crate::types::string::{string_text, StringError, StringModel};

verus! {

/// Whether the document has been trapped.
#[derive(Debug, Clone, Copy, PartialEq, Eq, Structural)]
pub enum Trap {
    True,
    False,
    Unknown,
}

impl Default for Trap {
    /// Not known.
    fn default() -> (r: Self)
        ensures
            r == Trap::Unknown,
    {
        Trap::Unknown
    }
}

impl Trap {
    /// The name of the value: `True`, `False` or `Unknown`.
    pub fn as_str(&self) -> (r: &'static str)
        ensures
            r@ == trap_text(*self),
    {
        proof {
            reveal_strlit("True");
            reveal_strlit("False");
            reveal_strlit("Unknown");
        }
        match self {
            Trap::True => "True",
            Trap::False => "False",
            Trap::Unknown => "Unknown",
        }
    }
}

pub open spec fn trap_text(t: Trap) -> Seq<char> {
    match t {
        Trap::True => seq!['T', 'r', 'u', 'e'],
        Trap::False => seq!['F', 'a', 'l', 's', 'e'],
        Trap::Unknown => seq!['U', 'n', 'k', 'n', 'o', 'w', 'n'],
    }
}

/// The metadata of a document.
#[derive(Debug, PartialEq)]
pub struct Info {
    pub title: Option<String>,
    pub author: Option<String>,
    pub subject: Option<String>,
    pub keywords: Option<String>,
    pub creator: Option<String>,
    pub producer: Option<String>,
    pub creation_date: Option<Date>,
    pub mod_date: Option<Date>,
    pub trapped: Trap,
    pub other: Vec<(String, String)>,
}

/// Why an object is not an information dictionary.
#[derive(Debug, PartialEq)]
pub enum InfoError {
    /// The object is neither `null` nor a dictionary.
    NotDictionary(ObjectError),
    /// The value of the named entry is not a string.
    InvalidField { field: String, source: ObjectError },
    /// `Trapped` is not `True`, `False` or `Unknown`.
    UnexpectedTrapValue { value: String },
    /// A string is not text, or not a date.
    PdfString(StringError),
    /// No indirect object is defined at the offset.
    Parse { offset: usize },
    /// The offset of the time zone of a date does not fit in 32 bits while
    /// it is computed.
    UnreadableDate,
}

/// The value of an [`Info`].
pub struct InfoModel {
    pub title: Option<Seq<char>>,
    pub author: Option<Seq<char>>,
    pub subject: Option<Seq<char>>,
    pub keywords: Option<Seq<char>>,
    pub creator: Option<Seq<char>>,
    pub producer: Option<Seq<char>>,
    pub creation_date: Option<Date>,
    pub mod_date: Option<Date>,
    pub trapped: Trap,
    pub other: Seq<(Seq<char>, Seq<char>)>,
}

/// The text of an optional borrowed string.
pub open spec fn opt_text_ref(s: Option<&String>) -> Option<Seq<char>> {
    match s {
        Some(t) => Some(t@),
        None => None,
    }
}

pub open spec fn opt_text(s: Option<String>) -> Option<Seq<char>> {
    match s {
        Some(t) => Some(t@),
        None => None,
    }
}

impl View for Info {
    type V = InfoModel;

    open spec fn view(&self) -> InfoModel {
        InfoModel {
            title: opt_text(self.title),
            author: opt_text(self.author),
            subject: opt_text(self.subject),
            keywords: opt_text(self.keywords),
            creator: opt_text(self.creator),
            producer: opt_text(self.producer),
            creation_date: self.creation_date,
            mod_date: self.mod_date,
            trapped: self.trapped,
            other: self.other@.map_values(|p: (String, String)| (p.0@, p.1@)),
        }
    }
}

/// No metadata at all.
pub open spec fn empty_info() -> InfoModel {
    InfoModel {
        title: None,
        author: None,
        subject: None,
        keywords: None,
        creator: None,
        producer: None,
        creation_date: None,
        mod_date: None,
        trapped: Trap::Unknown,
        other: Seq::empty(),
    }
}

/// Why reading the information dictionary fails.
pub enum InfoFailure {
    NotDictionary(ObjectError),
    InvalidField(Seq<char>, ObjectError),
    UnexpectedTrap(Seq<char>),
    Encoding,
    DateParse(Seq<char>),
}

/// An error agrees with a failure.
pub open spec fn info_error_agrees(e: InfoError, f: InfoFailure) -> bool {
    match f {
        InfoFailure::NotDictionary(x) => e == InfoError::NotDictionary(x),
        InfoFailure::InvalidField(k, x) => e matches InfoError::InvalidField { field, source } && field@
            == k && source == x,
        InfoFailure::UnexpectedTrap(t) => e matches InfoError::UnexpectedTrapValue { value } && value@
            == t,
        InfoFailure::Encoding => e matches InfoError::PdfString(StringError::EncodingStr(_)),
        InfoFailure::DateParse(t) => e matches InfoError::PdfString(StringError::ParseTo(x)) && x@
            == t,
    }
}

pub open spec fn key_title() -> Seq<char> {
    seq!['T', 'i', 't', 'l', 'e']
}

pub open spec fn key_author() -> Seq<char> {
    seq!['A', 'u', 't', 'h', 'o', 'r']
}

pub open spec fn key_subject() -> Seq<char> {
    seq!['S', 'u', 'b', 'j', 'e', 'c', 't']
}

pub open spec fn key_keywords() -> Seq<char> {
    seq!['K', 'e', 'y', 'w', 'o', 'r', 'd', 's']
}

pub open spec fn key_creator() -> Seq<char> {
    seq!['C', 'r', 'e', 'a', 't', 'o', 'r']
}

pub open spec fn key_producer() -> Seq<char> {
    seq!['P', 'r', 'o', 'd', 'u', 'c', 'e', 'r']
}

pub open spec fn key_creation_date() -> Seq<char> {
    seq!['C', 'r', 'e', 'a', 't', 'i', 'o', 'n', 'D', 'a', 't', 'e']
}

pub open spec fn key_mod_date() -> Seq<char> {
    seq!['M', 'o', 'd', 'D', 'a', 't', 'e']
}

pub open spec fn key_trapped() -> Seq<char> {
    seq!['T', 'r', 'a', 'p', 'p', 'e', 'd']
}

/// The entry `k` of a field with the text of a string.
pub open spec fn with_text(m: InfoModel, k: Seq<char>, t: Seq<char>) -> InfoModel {
    if k == key_title() {
        InfoModel { title: Some(t), ..m }
    } else if k == key_author() {
        InfoModel { author: Some(t), ..m }
    } else if k == key_subject() {
        InfoModel { subject: Some(t), ..m }
    } else if k == key_keywords() {
        InfoModel { keywords: Some(t), ..m }
    } else if k == key_creator() {
        InfoModel { creator: Some(t), ..m }
    } else if k == key_producer() {
        InfoModel { producer: Some(t), ..m }
    } else {
        InfoModel { other: m.other.push((k, t)), ..m }
    }
}

/// Whether `k` names a date field.
pub open spec fn is_date_key(k: Seq<char>) -> bool {
    k == key_creation_date() || k == key_mod_date()
}

/// Reading one entry: every value must be a string; the text fields take its
/// text, the date fields its date, `Trapped` one of its three values, and
/// any other key is kept with its text.
pub open spec fn info_entry(m: InfoModel, k: Seq<char>, v: ObjectModel) -> Result<InfoModel, InfoFailure> {
    match v {
        ObjectModel::String(sm) => match string_text(sm) {
            None => Err(InfoFailure::Encoding),
            Some(t) => if is_date_key(k) {
                match spec_string_date(t) {
                    Some((d, secs, _)) => if k == key_creation_date() {
                        Ok(InfoModel { creation_date: Some(date_of(d, secs)), ..m })
                    } else {
                        Ok(InfoModel { mod_date: Some(date_of(d, secs)), ..m })
                    },
                    None => Err(InfoFailure::DateParse(t)),
                }
            } else if k == key_trapped() {
                if t == trap_text(Trap::True) {
                    Ok(InfoModel { trapped: Trap::True, ..m })
                } else if t == trap_text(Trap::False) {
                    Ok(InfoModel { trapped: Trap::False, ..m })
                } else if t == trap_text(Trap::Unknown) {
                    Ok(InfoModel { trapped: Trap::Unknown, ..m })
                } else {
                    Err(InfoFailure::UnexpectedTrap(t))
                }
            } else {
                Ok(with_text(m, k, t))
            },
        },
        _ => Err(
            InfoFailure::InvalidField(
                k,
                ObjectError::UnexpectedObjectType { expected: ObjectKind::String },
            ),
        ),
    }
}

/// Reading the entries in order over `m`, the first failure stopping it.
pub open spec fn info_fold(m: InfoModel, entries: Seq<(Seq<char>, ObjectModel)>) -> Result<InfoModel, InfoFailure>
    decreases entries.len(),
{
    if entries.len() == 0 {
        Ok(m)
    } else {
        match info_fold(m, entries.drop_last()) {
            Ok(x) => info_entry(x, entries.last().0, entries.last().1),
            Err(e) => Err(e),
        }
    }
}

/// Reading the entries in order from no metadata.
pub open spec fn info_from(entries: Seq<(Seq<char>, ObjectModel)>) -> Result<InfoModel, InfoFailure> {
    info_fold(empty_info(), entries)
}

/// An entry that reads: its value is a string with text; a date field's
/// text is a date, and `Trapped` is `True`, `False` or `Unknown`.
pub open spec fn entry_valid(k: Seq<char>, v: ObjectModel) -> bool {
    match v {
        ObjectModel::String(sm) => match string_text(sm) {
            Some(t) => if is_date_key(k) {
                spec_string_date(t) is Some
            } else if k == key_trapped() {
                t == trap_text(Trap::True) || t == trap_text(Trap::False) || t == trap_text(Trap::Unknown)
            } else {
                true
            },
            None => false,
        },
        _ => false,
    }
}

/// Entries read in order succeed exactly when each of them reads.
proof fn lemma_fold_ok(m: InfoModel, entries: Seq<(Seq<char>, ObjectModel)>)
    ensures
        info_fold(m, entries) is Ok <==> forall|i: int| 0 <= i < entries.len() ==> #[trigger] entry_valid(
            entries[i].0,
            entries[i].1,
        ),
    decreases entries.len(),
{
    if entries.len() > 0 {
        let init = entries.drop_last();
        lemma_fold_ok(m, init);
        if info_fold(m, init) is Ok {
            let x = info_fold(m, init)->Ok_0;
            assert(info_entry(x, entries.last().0, entries.last().1) is Ok <==> entry_valid(
                entries.last().0,
                entries.last().1,
            ));
        }
        assert forall|i: int| 0 <= i < init.len() implies init[i] == entries[i] by {}
        if forall|i: int| 0 <= i < entries.len() ==> #[trigger] entry_valid(entries[i].0, entries[i].1) {
            assert forall|i: int| 0 <= i < init.len() implies #[trigger] entry_valid(init[i].0, init[i].1) by {
                assert(entry_valid(entries[i].0, entries[i].1));
            }
            assert(entry_valid(entries[entries.len() - 1].0, entries[entries.len() - 1].1));
        }
    }
}

/// An object reads as an information dictionary exactly when it is `null`,
/// or a dictionary (or an indirect definition of one) each of whose entries
/// reads.
pub proof fn lemma_info_ok(o: ObjectModel)
    ensures
        spec_info(o) is Ok <==> (o is Null || ((o is Dictionary || (o matches ObjectModel::IndirectDefinition(
            _,
            _,
            inner,
        ) && *inner is Dictionary)) && forall|i: int|
            0 <= i < dictionary_entries(o).len() ==> #[trigger] entry_valid(
                dictionary_entries(o)[i].0,
                dictionary_entries(o)[i].1,
            ))),
{
    lemma_fold_ok(empty_info(), dictionary_entries(o));
}

/// What reading an object as an information dictionary gives: nothing for
/// `null`; a dictionary (or an indirect definition of one) entry by entry.
pub open spec fn spec_info(o: ObjectModel) -> Result<InfoModel, InfoFailure> {
    match o {
        ObjectModel::Null => Ok(empty_info()),
        ObjectModel::Dictionary(d) => info_from(d),
        ObjectModel::IndirectDefinition(_, _, inner) => match *inner {
            ObjectModel::Dictionary(d) => info_from(d),
            _ => Err(
                InfoFailure::NotDictionary(
                    ObjectError::UnexpectedObjectType { expected: ObjectKind::Dictionary },
                ),
            ),
        },
        _ => Err(
            InfoFailure::NotDictionary(
                ObjectError::UnexpectedObjectType { expected: ObjectKind::Dictionary },
            ),
        ),
    }
}

/// The date fields hold no date whose offset does not fit while computed.
pub open spec fn dates_fit(entries: Seq<(Seq<char>, ObjectModel)>) -> bool {
    forall|i: int|
        0 <= i < entries.len() && is_date_key(#[trigger] entries[i].0) ==> (entries[i].1 matches ObjectModel::String(
            sm,
        ) ==> (string_text(sm) matches Some(t) ==> !date_overflows(t)))
}

/// The entries of the dictionary that an object is or defines.
pub open spec fn dictionary_entries(o: ObjectModel) -> Seq<(Seq<char>, ObjectModel)> {
    match o {
        ObjectModel::Dictionary(d) => d,
        ObjectModel::IndirectDefinition(_, _, inner) => match *inner {
            ObjectModel::Dictionary(d) => d,
            _ => Seq::empty(),
        },
        _ => Seq::empty(),
    }
}

impl Info {
    /// No metadata.
    pub fn new() -> (r: Info)
        ensures
            r@ == empty_info(),
    {
        let r = Info {
            title: None,
            author: None,
            subject: None,
            keywords: None,
            creator: None,
            producer: None,
            creation_date: None,
            mod_date: None,
            trapped: Trap::Unknown,
            other: Vec::new(),
        };
        assert(r@.other =~= Seq::<(Seq<char>, Seq<char>)>::empty());
        r
    }

    /// Reads the information dictionary: `null` gives no metadata; else
    /// the entries of the dictionary are read in order, each value a string.
    pub fn from_object(object: Object) -> (r: Result<Info, InfoError>)
        requires
            dates_fit(dictionary_entries(object@)),
        ensures
            match spec_info(object@) {
                Ok(m) => r matches Ok(info) && info@ == m,
                Err(f) => r matches Err(e) && info_error_agrees(e, f),
            },
    {
        let mut result = Info::new();
        if object.is_null() {
            return Ok(result);
        }
        let dictionary = match object.as_dictionary() {
            Ok(d) => d,
            Err(e) => {
                return Err(InfoError::NotDictionary(e));
            },
        };
        proof {
            reveal_with_fuel(crate::types::object::object_view, 2);
            lemma_records_view(dictionary.records@);
        }
        let ghost all = dictionary@;
        let mut i: usize = 0;
        assert(all.take(0) =~= Seq::<(Seq<char>, ObjectModel)>::empty());
        while i < dictionary.records.len()
            invariant
                i <= dictionary.records@.len(),
                all == dictionary@,
                all.len() == dictionary.records@.len(),
                forall|j: int|
                    0 <= j < dictionary.records@.len() ==> #[trigger] all[j] == (
                        dictionary.records@[j].0@,
                        dictionary.records@[j].1@,
                    ),
                dates_fit(all),
                spec_info(object@) == info_from(all),
                info_from(all.take(i as int)) == Ok::<InfoModel, InfoFailure>(result@),
            decreases dictionary.records@.len() - i,
        {
            assert(all.take(i + 1).drop_last() =~= all.take(i as int));
            assert(all.take(i + 1).last() == all[i as int]);
            let (key, value) = &dictionary.records[i];
            assert(all[i as int] == (key@, value@));
            assert(is_date_key(all[i as int].0) ==> (all[i as int].1 matches ObjectModel::String(sm)
                ==> (string_text(sm) matches Some(t) ==> !date_overflows(t))));
            match Self::read_entry(&mut result, key, value) {
                Ok(()) => {},
                Err(e) => {
                    proof {
                        lemma_info_error(all, i + 1);
                    }
                    return Err(e);
                },
            }
            i = i + 1;
        }
        assert(all.take(i as int) =~= all);
        Ok(result)
    }

    /// Reads one entry into `info`.
    fn read_entry(info: &mut Info, key: &String, value: &Object) -> (r: Result<(), InfoError>)
        requires
            is_date_key(key@) ==> (value@ matches ObjectModel::String(sm) ==> (string_text(
                sm,
            ) matches Some(t) ==> !date_overflows(t))),
        ensures
            match info_entry(old(info)@, key@, value@) {
                Ok(m) => r is Ok && final(info)@ == m,
                Err(f) => r matches Err(e) && info_error_agrees(e, f),
            },
    {
        let s = match value.as_string() {
            Ok(s) => s,
            Err(e) => {
                return Err(InfoError::InvalidField { field: key.clone(), source: e });
            },
        };
        let k = key.as_str();
        let title = "Title";
        let author = "Author";
        let subject = "Subject";
        let keywords = "Keywords";
        let creator = "Creator";
        let producer = "Producer";
        let creation = "CreationDate";
        let modified = "ModDate";
        let trapped = "Trapped";
        proof {
            reveal_strlit("Title");
            reveal_strlit("Author");
            reveal_strlit("Subject");
            reveal_strlit("Keywords");
            reveal_strlit("Creator");
            reveal_strlit("Producer");
            reveal_strlit("CreationDate");
            reveal_strlit("ModDate");
            reveal_strlit("Trapped");
            assert(title@ =~= key_title());
            assert(author@ =~= key_author());
            assert(subject@ =~= key_subject());
            assert(keywords@ =~= key_keywords());
            assert(creator@ =~= key_creator());
            assert(producer@ =~= key_producer());
            assert(creation@ =~= key_creation_date());
            assert(modified@ =~= key_mod_date());
            assert(trapped@ =~= key_trapped());
        }
        if same_text(k, creation) || same_text(k, modified) {
            let date = match s.to_date() {
                Ok(d) => d,
                Err(e) => {
                    return Err(InfoError::PdfString(e));
                },
            };
            if same_text(k, creation) {
                info.creation_date = Some(date);
            } else {
                info.mod_date = Some(date);
            }
            return Ok(());
        }
        let text = match s.as_str() {
            Ok(t) => t,
            Err(e) => {
                return Err(InfoError::PdfString(e));
            },
        };
        if same_text(k, trapped) {
            let t_true = "True";
            let t_false = "False";
            let t_unknown = "Unknown";
            proof {
                reveal_strlit("True");
                reveal_strlit("False");
                reveal_strlit("Unknown");
                assert(t_true@ =~= trap_text(Trap::True));
                assert(t_false@ =~= trap_text(Trap::False));
                assert(t_unknown@ =~= trap_text(Trap::Unknown));
            }
            if same_text(text.as_str(), t_true) {
                info.trapped = Trap::True;
            } else if same_text(text.as_str(), t_false) {
                info.trapped = Trap::False;
            } else if same_text(text.as_str(), t_unknown) {
                info.trapped = Trap::Unknown;
            } else {
                return Err(InfoError::UnexpectedTrapValue { value: text });
            }
            return Ok(());
        }
        if same_text(k, title) {
            info.title = Some(text);
        } else if same_text(k, author) {
            info.author = Some(text);
        } else if same_text(k, subject) {
            info.subject = Some(text);
        } else if same_text(k, keywords) {
            info.keywords = Some(text);
        } else if same_text(k, creator) {
            info.creator = Some(text);
        } else if same_text(k, producer) {
            info.producer = Some(text);
        } else {
            let ghost before = info.other@;
            info.other.push((key.clone(), text));
            assert(info@.other =~= old(info)@.other.push((key@, string_text(s@)->0)));
        }
        Ok(())
    }
}

/// A failure among the first `k` entries is the failure of them all.
proof fn lemma_info_error(entries: Seq<(Seq<char>, ObjectModel)>, k: int)
    requires
        0 <= k <= entries.len(),
        info_from(entries.take(k)) is Err,
    ensures
        info_from(entries) == info_from(entries.take(k)),
{
    lemma_fold_error(empty_info(), entries, k);
}

/// A failure among the first `k` entries is the failure of them all.
proof fn lemma_fold_error(m: InfoModel, entries: Seq<(Seq<char>, ObjectModel)>, k: int)
    requires
        0 <= k <= entries.len(),
        info_fold(m, entries.take(k)) is Err,
    ensures
        info_fold(m, entries) == info_fold(m, entries.take(k)),
    decreases entries.len() - k,
{
    if k < entries.len() {
        assert(entries.take(k + 1).drop_last() =~= entries.take(k));
        lemma_fold_error(m, entries, k + 1);
    } else {
        assert(entries.take(k) =~= entries);
    }
}

/// Whether no date field of `d` holds a date whose time zone offset does
/// not fit in 32 bits while it is computed.
pub fn dates_fit_in(d: &Dictionary) -> (r: bool)
    ensures
        r == dates_fit(d@),
{
    let creation = "CreationDate";
    let modified = "ModDate";
    proof {
        reveal_strlit("CreationDate");
        reveal_strlit("ModDate");
        assert(creation@ =~= key_creation_date());
        assert(modified@ =~= key_mod_date());
        lemma_records_view(d.records@);
    }
    let mut i: usize = 0;
    while i < d.records.len()
        invariant
            i <= d.records@.len(),
            d@.len() == d.records@.len(),
            creation@ == key_creation_date(),
            modified@ == key_mod_date(),
            forall|j: int| 0 <= j < d.records@.len() ==> #[trigger] d@[j] == (d.records@[j].0@, d.records@[j].1@),
            forall|j: int|
                0 <= j < i && is_date_key(#[trigger] d@[j].0) ==> (d@[j].1 matches ObjectModel::String(sm) ==> (
                string_text(sm) matches Some(t) ==> !date_overflows(t))),
        decreases d.records@.len() - i,
    {
        let (key, value) = &d.records[i];
        assert(d@[i as int] == (key@, value@));
        if same_text(key.as_str(), creation) || same_text(key.as_str(), modified) {
            match value {
                Object::String(s) => {
                    if s.to_date_checked().is_none() {
                        assert(is_date_key(d@[i as int].0));
                        assert(d@[i as int].1 == ObjectModel::String(s@));
                        return false;
                    }
                },
                _ => {},
            }
        }
        i = i + 1;
    }
    true
}

impl Info {
    /// Reads the information dictionary as [`Info::from_object`] does,
    /// when no date field holds a date whose time zone offset does not fit
    /// in 32 bits while it is computed; `None` when one does.
    pub fn from_object_checked(object: Object) -> (r: Option<Result<Info, InfoError>>)
        ensures
            r is None <==> !dates_fit(dictionary_entries(object@)),
            r matches Some(x) ==> match spec_info(object@) {
                Ok(m) => x matches Ok(info) && info@ == m,
                Err(f) => x matches Err(e) && info_error_agrees(e, f),
            },
    {
        let fits = match object.as_dictionary() {
            Ok(d) => dates_fit_in(d),
            Err(_) => true,
        };
        proof {
            reveal_with_fuel(crate::types::object::object_view, 2);
        }
        if fits {
            Some(Info::from_object(object))
        } else {
            None
        }
    }

    /// Reads the information dictionary defined at `offset` of `input`
    /// into this metadata: its entries are read in order over what is
    /// there. The offset must lie within the input, the definition must
    /// not end inside a comment nor hold a literal string that is not
    /// UTF-8, and no date field may hold a date whose time zone offset does
    /// not fit in 32 bits.
    pub fn read(&mut self, input: &[u8], offset: usize) -> (r: Result<(), InfoError>)
        requires
            offset <= input@.len(),
            !(spec_indirect_object(input@.skip(offset as int), 0) is Incomplete),
            !(spec_indirect_object(input@.skip(offset as int), 0) is Panics),
            spec_indirect_object(input@.skip(offset as int), 0) matches Outcome::Parsed(o, _) ==> dates_fit(
                dictionary_entries(definition_parts(o).2),
            ),
        ensures
            match spec_indirect_object(input@.skip(offset as int), 0) {
                Outcome::Parsed(o, _) => match spec_as_dictionary(definition_parts(o).2) {
                    Err(e) => r == Err::<(), InfoError>(InfoError::NotDictionary(e)),
                    Ok(d) => match info_fold(old(self)@, d) {
                        Ok(m) => r is Ok && final(self)@ == m,
                        Err(f) => r matches Err(e) && info_error_agrees(e, f),
                    },
                },
                _ => r == Err::<(), InfoError>(InfoError::Parse { offset }) && final(self)@ == old(
                    self,
                )@,
            },
    {
        let rest = vstd::slice::slice_subrange(input, offset, input.len());
        assert(rest@ =~= input@.skip(offset as int));
        let io = match indirect_object(rest) {
            Ok((_, io)) => io,
            Err(_) => {
                return Err(InfoError::Parse { offset });
            },
        };
        let dictionary = match io.object.as_dictionary() {
            Ok(d) => d,
            Err(e) => {
                return Err(InfoError::NotDictionary(e));
            },
        };
        proof {
            lemma_records_view(dictionary.records@);
        }
        let ghost all = dictionary@;
        let ghost start = self@;
        assert(dates_fit(all));
        let mut i: usize = 0;
        assert(all.take(0) =~= Seq::<(Seq<char>, ObjectModel)>::empty());
        while i < dictionary.records.len()
            invariant
                i <= dictionary.records@.len(),
                all == dictionary@,
                all.len() == dictionary.records@.len(),
                forall|j: int|
                    0 <= j < dictionary.records@.len() ==> #[trigger] all[j] == (
                        dictionary.records@[j].0@,
                        dictionary.records@[j].1@,
                    ),
                dates_fit(all),
                start == old(self)@,
                spec_indirect_object(input@.skip(offset as int), 0) matches Outcome::Parsed(o, _) && spec_as_dictionary(
                    definition_parts(o).2,
                ) == Ok::<Seq<(Seq<char>, ObjectModel)>, ObjectError>(all),
                info_fold(start, all.take(i as int)) == Ok::<InfoModel, InfoFailure>(self@),
            decreases dictionary.records@.len() - i,
        {
            assert(all.take(i + 1).drop_last() =~= all.take(i as int));
            assert(all.take(i + 1).last() == all[i as int]);
            let (key, value) = &dictionary.records[i];
            assert(all[i as int] == (key@, value@));
            assert(is_date_key(all[i as int].0) ==> (all[i as int].1 matches ObjectModel::String(sm)
                ==> (string_text(sm) matches Some(t) ==> !date_overflows(t))));
            match Self::read_entry(self, key, value) {
                Ok(()) => {},
                Err(e) => {
                    proof {
                        lemma_fold_error(start, all, i + 1);
                    }
                    return Err(e);
                },
            }
            i = i + 1;
        }
        assert(all.take(i as int) =~= all);
        Ok(())
    }

    /// The title.
    pub fn title(&self) -> (r: Option<&String>)
        ensures
            opt_text_ref(r) == opt_text(self.title),
    {
        self.title.as_ref()
    }

    /// The author.
    pub fn author(&self) -> (r: Option<&String>)
        ensures
            opt_text_ref(r) == opt_text(self.author),
    {
        self.author.as_ref()
    }

    /// The subject.
    pub fn subject(&self) -> (r: Option<&String>)
        ensures
            opt_text_ref(r) == opt_text(self.subject),
    {
        self.subject.as_ref()
    }

    /// The keywords.
    pub fn keywords(&self) -> (r: Option<&String>)
        ensures
            opt_text_ref(r) == opt_text(self.keywords),
    {
        self.keywords.as_ref()
    }

    /// The application that created the original document.
    pub fn creator(&self) -> (r: Option<&String>)
        ensures
            opt_text_ref(r) == opt_text(self.creator),
    {
        self.creator.as_ref()
    }

    /// The application that produced the file.
    pub fn producer(&self) -> (r: Option<&String>)
        ensures
            opt_text_ref(r) == opt_text(self.producer),
    {
        self.producer.as_ref()
    }

    /// When the document was created.
    pub fn creation_date(&self) -> (r: Option<Date>)
        ensures
            r == self.creation_date,
    {
        self.creation_date
    }

    /// When the document was last modified.
    pub fn mod_date(&self) -> (r: Option<Date>)
        ensures
            r == self.mod_date,
    {
        self.mod_date
    }

    /// Whether the document has been trapped.
    pub fn trapped(&self) -> (r: &Trap)
        ensures
            *r == self.trapped,
    {
        &self.trapped
    }
}

} // verus!
