//! The version of the PDF format that a document follows.

use vstd::prelude::*;
use vstd::string::{StrSliceExecFns, StringExecFns};
use vstd::utf8::{decode_utf8, valid_utf8};

use crate::text::string_from_utf8;
use crate::types::object::{Object, ObjectError, ObjectModel};

verus! {

/// A version of PDF: 1.0 to 1.7, or 2.0.
#[derive(Debug, Clone, Copy, PartialEq, Eq, Structural)]
pub enum Version {
    Pdf1_0,
    Pdf1_1,
    Pdf1_2,
    Pdf1_3,
    Pdf1_4,
    Pdf1_5,
    Pdf1_6,
    Pdf1_7,
    Pdf2_0,
}

/// Why a version could not be read.
#[derive(Debug, PartialEq)]
pub enum VersionError {
    /// The text names no known version.
    UnknownVersion(String),
    /// The bytes are not valid UTF-8.
    InvalidBytes(Vec<u8>),
    /// The object is not a name.
    InvalidObject(ObjectError),
}

impl Default for Version {
    /// The newest version, 2.0.
    fn default() -> (r: Self)
        ensures
            r == Version::Pdf2_0,
    {
        Version::Pdf2_0
    }
}

/// The text of a version: `1.0` to `1.7`, or `2.0`.
pub open spec fn version_text(v: Version) -> Seq<char> {
    match v {
        Version::Pdf1_0 => seq!['1', '.', '0'],
        Version::Pdf1_1 => seq!['1', '.', '1'],
        Version::Pdf1_2 => seq!['1', '.', '2'],
        Version::Pdf1_3 => seq!['1', '.', '3'],
        Version::Pdf1_4 => seq!['1', '.', '4'],
        Version::Pdf1_5 => seq!['1', '.', '5'],
        Version::Pdf1_6 => seq!['1', '.', '6'],
        Version::Pdf1_7 => seq!['1', '.', '7'],
        Version::Pdf2_0 => seq!['2', '.', '0'],
    }
}

/// The version whose text is `t`, if there is one.
pub open spec fn version_of(t: Seq<char>) -> Option<Version> {
    if t.len() != 3 || t[1] != '.' {
        None
    } else if t[0] == '1' && '0' <= t[2] <= '7' {
        Some(
            if t[2] == '0' {
                Version::Pdf1_0
            } else if t[2] == '1' {
                Version::Pdf1_1
            } else if t[2] == '2' {
                Version::Pdf1_2
            } else if t[2] == '3' {
                Version::Pdf1_3
            } else if t[2] == '4' {
                Version::Pdf1_4
            } else if t[2] == '5' {
                Version::Pdf1_5
            } else if t[2] == '6' {
                Version::Pdf1_6
            } else {
                Version::Pdf1_7
            },
        )
    } else if t[0] == '2' && t[2] == '0' {
        Some(Version::Pdf2_0)
    } else {
        None
    }
}

/// Reading the text of a version gives that version back, and a text that
/// names a version is that version's text.
pub proof fn lemma_version_text(v: Version, t: Seq<char>)
    ensures
        version_of(version_text(v)) == Some(v),
        version_of(t) == Some(v) ==> t == version_text(v),
{
    if version_of(t) == Some(v) {
        assert(t =~= version_text(v));
    }
}

impl Version {
    /// The version named by `source`: `1.0` to `1.7`, or `2.0`.
    pub fn from_str(source: &str) -> (r: Result<Version, VersionError>)
        ensures
            match version_of(source@) {
                Some(v) => r == Ok::<Version, VersionError>(v),
                None => r matches Err(VersionError::UnknownVersion(d)) && d@ == source@,
            },
    {
        if source.unicode_len() == 3 && source.get_char(1) == '.' {
            let a = source.get_char(0);
            let c = source.get_char(2);
            if a == '1' {
                if c == '0' {
                    return Ok(Version::Pdf1_0);
                } else if c == '1' {
                    return Ok(Version::Pdf1_1);
                } else if c == '2' {
                    return Ok(Version::Pdf1_2);
                } else if c == '3' {
                    return Ok(Version::Pdf1_3);
                } else if c == '4' {
                    return Ok(Version::Pdf1_4);
                } else if c == '5' {
                    return Ok(Version::Pdf1_5);
                } else if c == '6' {
                    return Ok(Version::Pdf1_6);
                } else if c == '7' {
                    return Ok(Version::Pdf1_7);
                }
            } else if a == '2' && c == '0' {
                return Ok(Version::Pdf2_0);
            }
        }
        Err(VersionError::UnknownVersion(String::from_str(source)))
    }

    /// The version named by the UTF-8 text `source`.
    pub fn from_bytes(source: &[u8]) -> (r: Result<Version, VersionError>)
        ensures
            !valid_utf8(source@) ==> (r matches Err(VersionError::InvalidBytes(d)) && d@ == source@),
            valid_utf8(source@) ==> match version_of(decode_utf8(source@)) {
                Some(v) => r == Ok::<Version, VersionError>(v),
                None => r matches Err(VersionError::UnknownVersion(d)) && d@ == decode_utf8(
                    source@,
                ),
            },
    {
        let bytes = vstd::slice::slice_to_vec(source);
        match string_from_utf8(bytes) {
            Some(text) => Self::from_str(text.as_str()),
            None => Err(VersionError::InvalidBytes(vstd::slice::slice_to_vec(source))),
        }
    }

    /// The version named by a name object.
    pub fn from_object(object: &Object) -> (r: Result<Version, VersionError>)
        ensures
            match object@ {
                ObjectModel::Name(n) => match version_of(n) {
                    Some(v) => r == Ok::<Version, VersionError>(v),
                    None => r matches Err(VersionError::UnknownVersion(d)) && d@ == n,
                },
                _ => r matches Err(VersionError::InvalidObject(_)),
            },
    {
        match object.as_name() {
            Ok(name) => Self::from_str(name),
            Err(e) => Err(VersionError::InvalidObject(e)),
        }
    }

    /// The text of the version.
    pub fn as_str(&self) -> (r: &'static str)
        ensures
            r@ == version_text(*self),
    {
        proof {
            reveal_strlit("1.0");
            reveal_strlit("1.1");
            reveal_strlit("1.2");
            reveal_strlit("1.3");
            reveal_strlit("1.4");
            reveal_strlit("1.5");
            reveal_strlit("1.6");
            reveal_strlit("1.7");
            reveal_strlit("2.0");
        }
        match self {
            Version::Pdf1_0 => "1.0",
            Version::Pdf1_1 => "1.1",
            Version::Pdf1_2 => "1.2",
            Version::Pdf1_3 => "1.3",
            Version::Pdf1_4 => "1.4",
            Version::Pdf1_5 => "1.5",
            Version::Pdf1_6 => "1.6",
            Version::Pdf1_7 => "1.7",
            Version::Pdf2_0 => "2.0",
        }
    }
}

} // verus!
