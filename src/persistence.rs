//! Choice of the stored format of a tree by the file's extension.
use vstd::prelude::*;
use crate::text::{chars_eq, chars_of};

verus! {

/// Stored format of a tree.
#[derive(Debug, Clone, Copy, PartialEq, Eq, Structural)]
pub enum SaveFormat {
    /// Human-readable JSON.
    Json,
    /// Compact binary encoding.
    Bincode,
}

/// What `Path::extension` gives for a path, as text.
pub uninterp spec fn extension_of(path: Seq<char>) -> Option<Seq<char>>;

/// Relies on `Path::extension` (with `OsStr::to_str`): the part of the
/// path's file name after its last '.', if there is one and it is text.
#[verifier::external_body]
fn path_extension(path: &str) -> (r: Option<String>)
    ensures
        match r {
            Some(e) => extension_of(path@) == Some(e@),
            None => extension_of(path@) is None,
        },
{
    std::path::Path::new(path).extension().and_then(|e| e.to_str()).map(|e| e.to_string())
}

/// The format an extension selects: "json" selects JSON, "bin" and
/// "bincode" the binary form, anything else JSON.
pub open spec fn format_for(ext: Option<Seq<char>>) -> SaveFormat {
    match ext {
        Some(e) => if e == "bin"@ || e == "bincode"@ {
            SaveFormat::Bincode
        } else {
            SaveFormat::Json
        },
        None => SaveFormat::Json,
    }
}

impl SaveFormat {
    /// The format selected by a file's extension.
    pub fn from_extension(ext: Option<&str>) -> (r: SaveFormat)
        ensures
            r == format_for(
                match ext {
                    Some(e) => Some(e@),
                    None => None,
                },
            ),
    {
        match ext {
            Some(e) => {
                let v = chars_of(e);
                let bin = chars_of("bin");
                let bincode = chars_of("bincode");
                if chars_eq(&v, &bin) || chars_eq(&v, &bincode) {
                    SaveFormat::Bincode
                } else {
                    SaveFormat::Json
                }
            },
            None => SaveFormat::Json,
        }
    }

    /// The format selected by the extension of `path`.
    pub fn from_path(path: &str) -> (r: SaveFormat)
        ensures
            r == format_for(extension_of(path@)),
    {
        let ext = path_extension(path);
        match ext {
            Some(e) => SaveFormat::from_extension(Some(e.as_str())),
            None => SaveFormat::Json,
        }
    }
}

} // verus!
