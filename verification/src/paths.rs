//! Path rules of the project layout: recognising the project marker file and
//! building the absolute path a descriptor reference points at.

use vstd::prelude::*;
use vstd::string::*;
use crate::strutil::str_eq;

verus! {

/// The absolute path implied by a reference: effects assets live under
/// `Originals\SFX`, voice assets under `Originals\Voices\{language}`.
pub open spec fn asset_path_spec(root: Seq<char>, lang: Seq<char>, rel: Seq<char>) -> Seq<char> {
    if lang == "SFX"@ {
        root + "\\Originals\\SFX\\"@ + rel
    } else {
        root + "\\Originals\\Voices\\"@ + lang + "\\"@ + rel
    }
}

/// Builds the asset path exactly as `asset_path_spec` states it.
pub fn make_asset_path(root: &str, lang: &str, rel: &str) -> (r: String)
    ensures
        r@ == asset_path_spec(root@, lang@, rel@),
{
    let mut out = String::from_str(root);
    if str_eq(lang, "SFX") {
        out.append("\\Originals\\SFX\\");
        out.append(rel);
        proof {
            assert(out@ =~= asset_path_spec(root@, lang@, rel@));
        }
    } else {
        out.append("\\Originals\\Voices\\");
        out.append(lang);
        out.append("\\");
        out.append(rel);
        proof {
            assert(out@ =~= asset_path_spec(root@, lang@, rel@));
        }
    }
    out
}

/// A file name marks a project root when it carries the project extension:
/// it ends in `.wproj` and has a nonempty stem before that dot.
pub open spec fn is_marker_name_spec(name: Seq<char>) -> bool {
    name.len() > ".wproj"@.len() && name.subrange(
        name.len() - ".wproj"@.len(),
        name.len() as int,
    ) == ".wproj"@
}

/// Decides `is_marker_name_spec` for one file name.
pub fn is_marker_name(name: &str) -> (r: bool)
    ensures
        r == is_marker_name_spec(name@),
{
    proof {
        reveal_strlit(".wproj");
    }
    let len = name.unicode_len();
    if len <= 6 {
        return false;
    }
    let tail = name.substring_char(len - 6, len);
    str_eq(tail, ".wproj")
}

/// Some name in the list is a project marker file name.
pub fn has_project_marker(names: &Vec<String>) -> (r: bool)
    ensures
        r == (exists|k: int| 0 <= k < names.deep_view().len() && is_marker_name_spec(names.deep_view()[k])),
{
    let mut i: usize = 0;
    while i < names.len()
        invariant
            i <= names.len(),
            names.deep_view().len() == names.len(),
            forall|k: int| 0 <= k < i ==> !is_marker_name_spec(names.deep_view()[k]),
        decreases names.len() - i,
    {
        proof {
            assert(names.deep_view()[i as int] == names[i as int]@);
        }
        if is_marker_name(names[i].as_str()) {
            return true;
        }
        i += 1;
    }
    false
}

} // verus!
