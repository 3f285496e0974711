//! Binary or text, decided by a file's extension.

use vstd::prelude::*;
use vstd::string::StringSliceAdditionalSpecFns;

verus! {

/// The number of extensions that are taken for binary.
pub const BINARY_EXTENSION_COUNT: usize = 48;

/// The extensions that are taken for binary, without the dot.
pub const BINARY_EXTENSIONS: [&'static str; BINARY_EXTENSION_COUNT] = [
    "7z", "a", "avi", "bin", "bmp", "bz2", "class", "dat", "db", "dll", "dylib", "exe",
    "flac", "gif", "gz", "ico", "iso", "jar", "jpeg", "jpg", "lib", "mkv", "mov", "mp3",
    "mp4", "o", "obj", "ogg", "otf", "pdf", "png", "pyc", "rar", "so", "sqlite", "tar",
    "tif", "tiff", "ttf", "wasm", "wav", "webm", "webp", "woff", "woff2", "xz", "zip", "zst",
];

/// `BINARY_EXTENSIONS` as a sequence.
#[verifier::opaque]
pub open spec fn binary_extensions() -> Seq<&'static str> {
    BINARY_EXTENSIONS@
}

/// Whether `extension` is one of `BINARY_EXTENSIONS`, byte for byte.
pub open spec fn is_binary_extension(extension: Seq<u8>) -> bool {
    exists|k: int|
        0 <= k < BINARY_EXTENSION_COUNT && extension == (#[trigger] binary_extensions()[
            k
        ]).spec_bytes()
}

/// The `k`-th binary extension.
pub fn binary_extension(k: usize) -> (extension: &'static str)
    requires
        k < BINARY_EXTENSION_COUNT,
    ensures
        extension == binary_extensions()[k as int],
        binary_extensions().len() == BINARY_EXTENSION_COUNT,
{
    reveal(binary_extensions);
    BINARY_EXTENSIONS[k]
}

/// How a file with this extension is classified: binary if it has none, or
/// one of the binary extensions; else text.
pub open spec fn is_binary(extension: Option<Seq<u8>>) -> bool {
    match extension {
        None => true,
        Some(e) => is_binary_extension(e),
    }
}

/// Whether two byte strings are the same.
pub fn bytes_equal(a: &[u8], b: &[u8]) -> (same: bool)
    ensures
        same == (a@ == b@),
{
    if a.len() != b.len() {
        return false;
    }
    let mut i: usize = 0;
    while i < a.len()
        invariant
            a@.len() == b@.len(),
            i <= a@.len(),
            forall|t: int| 0 <= t < i ==> a@[t] == b@[t],
        decreases a.len() - i,
    {
        if a[i] != b[i] {
            return false;
        }
        i += 1;
    }
    assert(a@ =~= b@);
    true
}

/// Classifies a file by its extension, given without the dot; `None` is a
/// file without extension.
pub fn classify(extension: Option<&[u8]>) -> (binary: bool)
    ensures
        binary == is_binary(
            match extension {
                Some(e) => Some(e@),
                None => None,
            },
        ),
{
    match extension {
        None => true,
        Some(e) => {
            let mut k: usize = 0;
            while k < BINARY_EXTENSION_COUNT
                invariant
                    extension == Some(e),
                    k <= BINARY_EXTENSION_COUNT,
                    k > 0 ==> binary_extensions().len() == BINARY_EXTENSION_COUNT,
                    forall|t: int|
                        0 <= t < k ==> e@ != (#[trigger] binary_extensions()[t]).spec_bytes(),
                decreases BINARY_EXTENSION_COUNT - k,
            {
                if bytes_equal(e, binary_extension(k).as_bytes()) {
                    assert(e@ == binary_extensions()[k as int].spec_bytes());
                    return true;
                }
                k += 1;
            }
            false
        },
    }
}

} // verus!
