//! The names of the files that a compilation writes.

use vstd::prelude::*;
use vstd::string::*;
use camino::Utf8Path;
use crate::base_n::{digits, encode, encode_spec, lemma_encode_digits, CASE_INSENSITIVE};

verus! {

/// What `with_extension` makes of a path and an extension.
pub uninterp spec fn with_extension_text(path: Seq<char>, extension: Seq<char>) -> Seq<char>;

/// The file stem of a path, if it has one.
pub uninterp spec fn file_stem_text(path: Seq<char>) -> Option<Seq<char>>;

/// Whether a character separates the parts of a path on some platform.
pub open spec fn is_separator(c: char) -> bool {
    c == '/' || c == '\\'
}

/// `Utf8Path::with_extension` on the path that `Utf8Path::new` makes of a
/// string: the path with its extension replaced. Left out are extensions
/// that hold a path separator, on which it panics.
#[verifier::external_body]
pub(crate) fn with_extension(path: &str, extension: &str) -> (r: String)
    requires
        forall|i: int| 0 <= i < extension@.len() ==> !is_separator(#[trigger] extension@[i]),
    ensures
        r@ == with_extension_text(path@, extension@),
{
    Utf8Path::new(path).with_extension(extension).into_string()
}

/// `Utf8Path::file_stem` on the path that `Utf8Path::new` makes of a
/// string: the file name without its extension, or nothing for a path
/// without a file name.
#[verifier::external_body]
pub(crate) fn file_stem(path: &str) -> (r: Option<String>)
    ensures
        r.is_some() == file_stem_text(path@).is_some(),
        r matches Some(stem) ==> Some(stem@) == file_stem_text(path@),
{
    match Utf8Path::new(path).file_stem() {
        Some(stem) => Some(stem.to_owned()),
        None => None,
    }
}

/// The extension of the object file with the given number, counted from
/// zero: the letter `o`, then the number plus one in base 36.
pub open spec fn object_extension(i: nat) -> Seq<char> {
    "o"@ + encode_spec(i + 1, 36)
}

/// No digit is a path separator.
pub proof fn lemma_digits_no_separator()
    ensures
        digits().len() == 64,
        forall|d: int| 0 <= d < 64 ==> !is_separator(#[trigger] digits()[d]),
{
    reveal_strlit("0123456789abcdefghijklmnopqrstuvwxyzABCDEFGHIJKLMNOPQRSTUVWXYZ@$");
}

/// The path of the object file with the given number: the destination
/// with the extension of that number.
pub fn object_path(dst: &str, i: usize) -> (path: String)
    ensures
        path@ == with_extension_text(dst@, object_extension(i as nat)),
{
    let num = encode(i as u128 + 1, CASE_INSENSITIVE);
    let extension = String::from_str("o").concat(num.as_str());
    proof {
        reveal_strlit("o");
        lemma_encode_digits((i + 1) as nat, 36);
        lemma_digits_no_separator();
        assert forall|k: int| 0 <= k < extension@.len() implies !is_separator(
            #[trigger] extension@[k],
        ) by {
            if k >= 1 {
                assert(extension@[k] == num@[k - 1]);
            }
        }
    }
    with_extension(dst, extension.as_str())
}

/// The paths of the object files of `count` generation units, in the
/// order of their numbers.
pub fn object_paths(dst: &str, count: usize) -> (paths: Vec<String>)
    ensures
        paths@.len() == count,
        forall|i: int|
            0 <= i < count ==> (#[trigger] paths@[i])@ == with_extension_text(
                dst@,
                object_extension(i as nat),
            ),
{
    let mut paths: Vec<String> = Vec::new();
    let mut i: usize = 0;
    while i < count
        invariant
            i <= count,
            paths@.len() == i,
            forall|k: int|
                0 <= k < i ==> (#[trigger] paths@[k])@ == with_extension_text(
                    dst@,
                    object_extension(k as nat),
                ),
        decreases count - i,
    {
        paths.push(object_path(dst, i));
        i = i + 1;
    }
    paths
}

/// The path of the main object file: the destination with the extension `o`.
pub fn main_object_path(dst: &str) -> (path: String)
    ensures
        path@ == with_extension_text(dst@, "o"@),
{
    proof {
        reveal_strlit("o");
    }
    with_extension(dst, "o")
}

} // verus!
