//! Matching of archive entry paths against candidate icon names: an entry
//! matches when its file name equals a candidate, extends it, or extends the
//! candidate with its `.png` extension trimmed.

use vstd::prelude::*;
use vstd::utf8::encode_utf8;
use crate::text::{file_name_of, spec_file_name, spec_starts_with, spec_trim_png, starts_with_bytes, trim_png_suffix};

verus! {

/// One candidate name matches the path's file name: by equality, as a
/// prefix of the file name, or as a prefix once its trailing `.png` is
/// trimmed.
pub open spec fn spec_name_matches(path: Seq<u8>, name: Seq<u8>) -> bool {
    let f = spec_file_name(path);
    ||| f == name
    ||| spec_starts_with(f, name)
    ||| spec_starts_with(f, spec_trim_png(name))
}

/// Some candidate in the list matches the path's file name.
pub open spec fn spec_icon_match(path: Seq<u8>, names: Seq<Seq<u8>>) -> bool {
    exists|i: int| 0 <= i < names.len() && spec_name_matches(path, names[i])
}

/// Checks whether the file name of `file_path` matches any candidate icon
/// name: exactly, as an extension of the candidate, or as an extension of
/// the candidate without its `.png` suffix.
pub fn is_icon_match(file_path: &str, icon_names: &Vec<String>) -> (r: bool)
    ensures
        r == spec_icon_match(
            encode_utf8(file_path@),
            icon_names@.map_values(|s: String| encode_utf8(s@)),
        ),
{
    let ghost names: Seq<Seq<u8>> = icon_names@.map_values(|s: String| encode_utf8(s@));
    let path_bytes: &[u8] = file_path.as_bytes();
    let fname: &[u8] = file_name_of(path_bytes);
    let mut i: usize = 0;
    while i < icon_names.len()
        invariant
            names == icon_names@.map_values(|s: String| encode_utf8(s@)),
            i <= names.len(),
            names.len() == icon_names@.len(),
            fname@ == spec_file_name(encode_utf8(file_path@)),
            forall|j: int| 0 <= j < i ==> !spec_name_matches(encode_utf8(file_path@), names[j]),
        decreases names.len() - i,
    {
        let name_bytes: &[u8] = icon_names[i].as_str().as_bytes();
        proof {
            assert(names[i as int] == encode_utf8(icon_names@[i as int]@));
        }
        let trimmed: &[u8] = trim_png_suffix(name_bytes);
        if starts_with_bytes(fname, name_bytes) || starts_with_bytes(fname, trimmed) {
            proof {
                assert(spec_name_matches(encode_utf8(file_path@), names[i as int]));
            }
            return true;
        }
        proof {
            // equality of file name and candidate implies the prefix test
            if spec_file_name(encode_utf8(file_path@)) == names[i as int] {
                assert(spec_starts_with(fname@, names[i as int])) by {
                    assert(fname@.subrange(0, names[i as int].len() as int) =~= fname@);
                }
            }
        }
        i = i + 1;
    }
    false
}

} // verus!
