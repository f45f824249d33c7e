//! Which files a content search reads at all.

use vstd::prelude::*;
use crate::text::bytes_of;

verus! {

/// Largest file, in bytes, that a content search opens.
pub const MAX_FILE_BYTES: u64 = 10000000;

/// A byte with upper-case ASCII letters made lower case.
pub open spec fn fold(byte: u8) -> u8 {
    if 65 <= byte <= 90 {
        (byte + 32) as u8
    } else {
        byte
    }
}

/// Folds one byte.
pub fn fold_byte(byte: u8) -> (folded: u8)
    ensures
        folded == fold(byte),
{
    if 65 <= byte && byte <= 90 {
        byte + 32
    } else {
        byte
    }
}

/// A text with every byte folded to lower case.
pub open spec fn fold_all(text: Seq<u8>) -> Seq<u8> {
    Seq::new(text.len(), |i: int| fold(text[i]))
}

/// The extension of the path starts right after the dot at `dot`: the dot
/// is the last one of the file name, and not its first byte.
pub open spec fn extension_at(path: Seq<u8>, dot: int) -> bool {
    &&& 0 < dot < path.len()
    &&& path[dot] == 46
    &&& path[dot - 1] != 47
    &&& forall|k: int| dot < k < path.len() ==> path[k] != 46 && #[trigger] path[k] != 47
}

/// The extension of a path: what follows the last dot of the file name,
/// where that dot is not the name's first byte.
pub open spec fn extension(path: Seq<u8>) -> Option<Seq<u8>> {
    if exists|dot: int| extension_at(path, dot) {
        Some(path.skip((choose|dot: int| extension_at(path, dot)) + 1))
    } else {
        None
    }
}

/// A path has one extension dot at most, and `extension` starts after it.
pub proof fn lemma_extension(path: Seq<u8>, dot: int)
    requires
        extension_at(path, dot),
    ensures
        extension(path) == Some(path.skip(dot + 1)),
{
    let chosen = choose|dot: int| extension_at(path, dot);
    assert(extension_at(path, chosen));
    if chosen < dot {
        assert(path[dot] != 46);
    }
    if dot < chosen {
        assert(path[chosen] != 46);
    }
}

/// Finds where the extension of a path starts.
pub fn extension_start(path: &[u8]) -> (start: Option<usize>)
    ensures
        match start {
            Some(s) => 0 < s <= path@.len() && extension(path@) == Some(path@.skip(s as int)),
            None => extension(path@) is None,
        },
{
    let mut i: usize = path.len();
    while i > 0
        invariant
            i <= path@.len(),
            forall|k: int| i <= k < path@.len() ==> path@[k] != 46 && #[trigger] path@[k] != 47,
        decreases i,
    {
        let byte = path[i - 1];
        if byte == 47 {
            assert forall|dot: int| !extension_at(path@, dot) by {
                if extension_at(path@, dot) {
                    if dot < i - 1 {
                        assert(path@[i - 1] != 47);
                    }
                }
            }
            return None;
        }
        if byte == 46 {
            if i - 1 > 0 && path[i - 2] != 47 {
                proof {
                    lemma_extension(path@, i - 1);
                }
                return Some(i);
            }
            assert forall|dot: int| !extension_at(path@, dot) by {
                if extension_at(path@, dot) {
                    if dot < i - 1 {
                        assert(path@[i - 1] != 46);
                    }
                }
            }
            return None;
        }
        i = i - 1;
    }
    None
}

/// The folded text is the given lower-case name.
pub open spec fn folds_to(text: Seq<u8>, name: Seq<char>) -> bool {
    fold_all(text) == bytes_of(name)
}

/// Whether the text, folded to lower case, is the given name.
pub fn is_name(text: &[u8], name: &str) -> (same: bool)
    ensures
        same == folds_to(text@, name@),
{
    let want = name.as_bytes();
    if text.len() != want.len() {
        return false;
    }
    let mut i: usize = 0;
    while i < text.len()
        invariant
            i <= text@.len(),
            text@.len() == want@.len(),
            want@ == bytes_of(name@),
            forall|k: int| 0 <= k < i ==> fold(#[trigger] text@[k]) == want@[k],
        decreases text@.len() - i,
    {
        if fold_byte(text[i]) != want[i] {
            assert(fold_all(text@)[i as int] != want@[i as int]);
            return false;
        }
        i = i + 1;
    }
    assert(fold_all(text@) =~= want@);
    true
}

/// The extension names a program, an image, a sound or film, an archive or
/// another format that holds no text.
pub open spec fn is_binary(ext: Seq<u8>) -> bool {
    ||| folds_to(ext, "exe"@)
    ||| folds_to(ext, "dll"@)
    ||| folds_to(ext, "so"@)
    ||| folds_to(ext, "dylib"@)
    ||| folds_to(ext, "bin"@)
    ||| folds_to(ext, "o"@)
    ||| folds_to(ext, "a"@)
    ||| folds_to(ext, "lib"@)
    ||| folds_to(ext, "obj"@)
    ||| folds_to(ext, "jpg"@)
    ||| folds_to(ext, "jpeg"@)
    ||| folds_to(ext, "png"@)
    ||| folds_to(ext, "gif"@)
    ||| folds_to(ext, "bmp"@)
    ||| folds_to(ext, "ico"@)
    ||| folds_to(ext, "svg"@)
    ||| folds_to(ext, "webp"@)
    ||| folds_to(ext, "mp3"@)
    ||| folds_to(ext, "mp4"@)
    ||| folds_to(ext, "avi"@)
    ||| folds_to(ext, "mkv"@)
    ||| folds_to(ext, "wav"@)
    ||| folds_to(ext, "flac"@)
    ||| folds_to(ext, "ogg"@)
    ||| folds_to(ext, "zip"@)
    ||| folds_to(ext, "tar"@)
    ||| folds_to(ext, "gz"@)
    ||| folds_to(ext, "7z"@)
    ||| folds_to(ext, "rar"@)
    ||| folds_to(ext, "pdf"@)
    ||| folds_to(ext, "class"@)
    ||| folds_to(ext, "jar"@)
}

/// Whether an extension is on the list of formats that hold no text.
pub fn is_binary_extension(ext: &[u8]) -> (binary: bool)
    ensures
        binary == is_binary(ext@),
{
    is_name(ext, "exe") || is_name(ext, "dll") || is_name(ext, "so") || is_name(ext, "dylib")
        || is_name(ext, "bin") || is_name(ext, "o") || is_name(ext, "a") || is_name(ext, "lib")
        || is_name(ext, "obj") || is_name(ext, "jpg") || is_name(ext, "jpeg") || is_name(
        ext,
        "png",
    ) || is_name(ext, "gif") || is_name(ext, "bmp") || is_name(ext, "ico") || is_name(ext, "svg")
        || is_name(ext, "webp") || is_name(ext, "mp3") || is_name(ext, "mp4") || is_name(
        ext,
        "avi",
    ) || is_name(ext, "mkv") || is_name(ext, "wav") || is_name(ext, "flac") || is_name(ext, "ogg")
        || is_name(ext, "zip") || is_name(ext, "tar") || is_name(ext, "gz") || is_name(ext, "7z")
        || is_name(ext, "rar") || is_name(ext, "pdf") || is_name(ext, "class") || is_name(
        ext,
        "jar",
    )
}

/// The path has an extension that is on the list.
pub open spec fn has_binary_extension(path: Seq<u8>) -> bool {
    match extension(path) {
        Some(ext) => is_binary(ext),
        None => false,
    }
}

/// A file of this path and size is read: it is not over the size limit and
/// its extension is not on the list.
pub open spec fn is_scanned(path: Seq<char>, size: u64) -> bool {
    size <= MAX_FILE_BYTES && !has_binary_extension(bytes_of(path))
}

/// Decides from its path and size whether a file is read.
pub fn should_scan(path: &str, size: u64) -> (scan: bool)
    ensures
        scan == is_scanned(path@, size),
{
    if size > MAX_FILE_BYTES {
        return false;
    }
    let bytes = path.as_bytes();
    match extension_start(bytes) {
        Some(start) => {
            let ext = &bytes[start..bytes.len()];
            assert(ext@ =~= bytes@.skip(start as int));
            !is_binary_extension(ext)
        },
        None => true,
    }
}

} // verus!
