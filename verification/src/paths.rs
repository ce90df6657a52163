//! Paths in the file system, taken apart and put together by `std::path`.
//!
//! The app is for the GNOME desktop, so paths are those of a Unix system: bytes,
//! with `/` between the components. What `std::path` makes of a path there
//! depends on those bytes alone.

use std::path::PathBuf;
use vstd::prelude::*;
use vstd::utf8::encode_utf8;

verus! {

/// A path in the file system.
#[verifier::external_type_specification]
#[verifier::external_body]
pub struct ExPathBuf(PathBuf);

/// The encoded bytes that a path holds.
pub uninterp spec fn path_bytes(path: PathBuf) -> Seq<u8>;

/// What `Path::file_name` finds in a path.
pub uninterp spec fn final_component(path: Seq<u8>) -> Option<Seq<u8>>;

/// What `Path::with_file_name` makes of a path and a file name.
pub uninterp spec fn beside(path: Seq<u8>, name: Seq<u8>) -> Seq<u8>;

/// What `Path::with_extension` makes of a path and an extension.
pub uninterp spec fn extended(path: Seq<u8>, extension: Seq<u8>) -> Seq<u8>;

/// What `Path::parent` finds in a path.
pub uninterp spec fn enclosing(path: Seq<u8>) -> Option<Seq<u8>>;

/// Does a path start at the root?
pub open spec fn from_root(path: Seq<u8>) -> bool {
    path.len() > 0 && path[0] == 0x2f
}

/// The path of a part below `base`. One that starts at the root stands for
/// itself; before any other there is one separator.
pub open spec fn below(base: Seq<u8>, part: Seq<u8>) -> Seq<u8> {
    if from_root(part) {
        part
    } else if base.len() == 0 || base.last() == 0x2f {
        base + part
    } else {
        base.push(0x2f) + part
    }
}

/// Is this the name of one file, and not a way through directories?
pub open spec fn plain_name(name: Seq<char>) -> bool {
    &&& name.len() > 0
    &&& name != seq!['.']
    &&& name != seq!['.', '.']
    &&& !name.contains('/')
}

/// How `Path::display` writes a path.
pub uninterp spec fn shown(path: Seq<u8>) -> Seq<char>;

/// What an optional path holds.
pub open spec fn optional_bytes(path: Option<PathBuf>) -> Option<Seq<u8>> {
    match path {
        Some(p) => Some(path_bytes(p)),
        None => None,
    }
}

/// `PathBuf::clone` copies the path.
pub assume_specification[ <PathBuf as Clone>::clone ](path: &PathBuf) -> (r: PathBuf)
    ensures
        path_bytes(r) == path_bytes(*path),
;

/// `PathBuf::new` is the empty path.
pub assume_specification[ PathBuf::new ]() -> (r: PathBuf)
    ensures
        path_bytes(r) == Seq::<u8>::empty(),
;

/// `PathBuf::from` takes the text as the path, in UTF-8.
#[verifier::external_body]
pub(crate) fn path_of(text: &str) -> (r: PathBuf)
    ensures
        path_bytes(r) == encode_utf8(text@),
{
    PathBuf::from(text)
}

/// `Path::file_name` is the last component, if the path has one. It depends
/// on nothing but the path.
#[verifier::external_body]
pub(crate) fn file_name(path: &PathBuf) -> (r: Option<PathBuf>)
    ensures
        optional_bytes(r) == final_component(path_bytes(*path)),
{
    path.file_name().map(PathBuf::from)
}

/// `OsString::push` puts the text, in UTF-8, at the end of a file name.
#[verifier::external_body]
pub(crate) fn with_suffix(name: PathBuf, suffix: &str) -> (r: PathBuf)
    ensures
        path_bytes(r) == path_bytes(name) + encode_utf8(suffix@),
{
    let mut text = name.into_os_string();
    text.push(suffix);
    PathBuf::from(text)
}

/// `Path::with_file_name` replaces the file name. The result depends on
/// nothing but the path and the name.
#[verifier::external_body]
pub(crate) fn with_file_name(path: &PathBuf, name: &PathBuf) -> (r: PathBuf)
    ensures
        path_bytes(r) == beside(path_bytes(*path), path_bytes(*name)),
{
    path.with_file_name(name)
}

/// `Path::with_extension` replaces the extension. The result depends on
/// nothing but the path and the extension. What it replaces is what follows the
/// last dot of the file name, so that an extension with a dot in it never gives
/// a path with a file name back as it was.
///
/// It panics on an extension with a path separator in it.
#[verifier::external_body]
pub(crate) fn with_extension(path: &PathBuf, extension: &str) -> (r: PathBuf)
    requires
        forall|i: int|
            0 <= i < extension@.len() ==> #[trigger] extension@[i] != '/' && extension@[i] != '\\',
    ensures
        path_bytes(r) == extended(path_bytes(*path), encode_utf8(extension@)),
        final_component(path_bytes(*path)) is Some && extension@.contains('.') ==> path_bytes(r)
            != path_bytes(*path),
{
    path.with_extension(extension)
}

/// `Path::parent` is the path without its last component, if it has one. It
/// depends on nothing but the path.
#[verifier::external_body]
pub(crate) fn parent(path: &PathBuf) -> (r: Option<PathBuf>)
    ensures
        optional_bytes(r) == enclosing(path_bytes(*path)),
{
    path.parent().map(PathBuf::from)
}

/// `Path::join` puts a part below a path, with one separator between the two,
/// unless the part is absolute: then it replaces the path. Where the part is one
/// name, the result has it as its file name.
#[verifier::external_body]
pub(crate) fn join(base: &PathBuf, part: &str) -> (r: PathBuf)
    ensures
        path_bytes(r) == below(path_bytes(*base), encode_utf8(part@)),
        plain_name(part@) ==> final_component(path_bytes(r)) == Some(encode_utf8(part@)),
{
    base.join(part)
}

/// `Path::is_absolute` is whether the path starts at the root.
#[verifier::external_body]
pub(crate) fn is_absolute(path: &PathBuf) -> (r: bool)
    ensures
        r == from_root(path_bytes(*path)),
{
    path.is_absolute()
}

/// `Path::display` writes the path for reading. What it writes depends on
/// nothing but the path.
#[verifier::external_body]
pub(crate) fn display(path: &PathBuf) -> (r: String)
    ensures
        r@ == shown(path_bytes(*path)),
{
    path.display().to_string()
}

} // verus!
