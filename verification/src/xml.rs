//! Extraction of referenced asset paths from a work-unit descriptor.
//!
//! A descriptor is an XML document. The one outside capability used here is
//! the XML parser; everything it hands back is flattened into plain
//! [`XmlRecord`] values (one per node, in document order), and the reference
//! rule itself — find each `AudioFile` element, look among its parent's
//! children for the first tag containing `Language`, classify by the language
//! code — is verified over those records.

use vstd::prelude::*;
use vstd::string::*;
use crate::depth::xml_depth;
use crate::depth::xml_depth_exec;
use crate::depth::MAX_XML_DEPTH;
use crate::paths::asset_path_spec;
use crate::paths::make_asset_path;
use crate::strutil::has_substring;
use crate::strutil::str_contains;
use crate::strutil::str_eq;

verus! {

/// One node of a parsed descriptor, as plain values: its identifier, its
/// parent's identifier (absent for the document root), whether it is an
/// element, its local tag name (empty for non-elements) and its text content.
/// Records of one document appear in document order.
#[derive(Debug)]
pub struct XmlRecord {
    pub id: u32,
    pub parent: Option<u32>,
    pub is_element: bool,
    pub tag: String,
    pub text: Option<String>,
}

/// The flat node records that parsing a given text yields, or `None` when the
/// text is not well-formed XML. The outcome depends on the text alone.
pub uninterp spec fn xml_records_of(s: Seq<char>) -> Option<Seq<XmlRecord>>;

/// Relies on `roxmltree::Document::parse` and the node accessors `id`,
/// `parent`, `is_element`, `tag_name` and `text`: each node of the document
/// becomes one record, in document order, and a parse failure becomes `None`.
/// The parser keeps one pair of stack frames per open element and nothing
/// else in it recurses, so the `xml_depth` bound below keeps its recursion
/// within the stack; text past the bound must never reach this call.
#[verifier::external_body]
fn flatten_xml(contents: &str) -> (r: Option<Vec<XmlRecord>>)
    requires
        xml_depth(contents@) <= MAX_XML_DEPTH as int,
    ensures
        (match r {
            Some(v) => xml_records_of(contents@) == Some(v@),
            None => xml_records_of(contents@) is None,
        }),
{
    let doc = match roxmltree::Document::parse(contents) {
        Ok(d) => d,
        Err(_) => return None,
    };
    Some(doc.descendants().map(|n| XmlRecord {
        id: n.id().get(),
        parent: n.parent().map(|p| p.id().get()),
        is_element: n.is_element(),
        tag: String::from(n.tag_name().name()),
        text: n.text().map(String::from),
    }).collect())
}

/// Index of the first record carrying `id`, or a negative value if none does.
pub open spec fn find_by_id(recs: Seq<XmlRecord>, id: u32) -> int
    decreases recs.len(),
{
    if recs.len() == 0 {
        -1
    } else if recs[0].id == id {
        0
    } else {
        let r = find_by_id(recs.drop_first(), id);
        if r < 0 {
            -1
        } else {
            r + 1
        }
    }
}

/// A record that counts as the language sibling under parent `pid`: a direct
/// child whose tag name contains `Language`.
pub open spec fn is_lang_rec(rec: XmlRecord, pid: u32) -> bool {
    rec.parent == Some(pid) && has_substring(rec.tag@, "Language"@)
}

/// Index of the first language sibling under `pid`, or a negative value.
pub open spec fn find_lang_child(recs: Seq<XmlRecord>, pid: u32) -> int
    decreases recs.len(),
{
    if recs.len() == 0 {
        -1
    } else if is_lang_rec(recs[0], pid) {
        0
    } else {
        let r = find_lang_child(recs.drop_first(), pid);
        if r < 0 {
            -1
        } else {
            r + 1
        }
    }
}

/// `find_by_id` is exactly the least index carrying `id`.
pub proof fn lemma_find_by_id_props(recs: Seq<XmlRecord>, id: u32)
    ensures
        find_by_id(recs, id) < 0 ==> (forall|t: int| 0 <= t < recs.len() ==> recs[t].id != id),
        find_by_id(recs, id) >= 0 ==> ({
            let r = find_by_id(recs, id);
            0 <= r < recs.len() && recs[r].id == id && (forall|t: int|
                0 <= t < r ==> recs[t].id != id)
        }),
    decreases recs.len(),
{
    if recs.len() == 0 {
    } else if recs[0].id == id {
    } else {
        let sub = recs.drop_first();
        lemma_find_by_id_props(sub, id);
        let rs = find_by_id(sub, id);
        if rs < 0 {
            assert forall|t: int| 0 <= t < recs.len() implies recs[t].id != id by {
                if t > 0 {
                    assert(recs[t] == sub[t - 1]);
                }
            }
        } else {
            assert(recs[rs + 1] == sub[rs]);
            assert forall|t: int| 0 <= t < rs + 1 implies recs[t].id != id by {
                if t > 0 {
                    assert(recs[t] == sub[t - 1]);
                }
            }
        }
    }
}

/// `find_lang_child` is exactly the least index of a language sibling.
pub proof fn lemma_find_lang_child_props(recs: Seq<XmlRecord>, pid: u32)
    ensures
        find_lang_child(recs, pid) < 0 ==> (forall|t: int|
            0 <= t < recs.len() ==> !is_lang_rec(recs[t], pid)),
        find_lang_child(recs, pid) >= 0 ==> ({
            let r = find_lang_child(recs, pid);
            0 <= r < recs.len() && is_lang_rec(recs[r], pid) && (forall|t: int|
                0 <= t < r ==> !is_lang_rec(recs[t], pid))
        }),
    decreases recs.len(),
{
    if recs.len() == 0 {
    } else if is_lang_rec(recs[0], pid) {
    } else {
        let sub = recs.drop_first();
        lemma_find_lang_child_props(sub, pid);
        let rs = find_lang_child(sub, pid);
        if rs < 0 {
            assert forall|t: int| 0 <= t < recs.len() implies !is_lang_rec(recs[t], pid) by {
                if t > 0 {
                    assert(recs[t] == sub[t - 1]);
                }
            }
        } else {
            assert(recs[rs + 1] == sub[rs]);
            assert forall|t: int| 0 <= t < rs + 1 implies !is_lang_rec(recs[t], pid) by {
                if t > 0 {
                    assert(recs[t] == sub[t - 1]);
                }
            }
        }
    }
}

/// The asset path that record `i` contributes, if it is a usable reference:
/// an `AudioFile` element with text, whose parent record exists and is an
/// element, with a language sibling that has text. A reference without a
/// language sibling contributes nothing.
pub open spec fn ref_contribution(root: Seq<char>, recs: Seq<XmlRecord>, i: int) -> Option<
    Seq<char>,
> {
    if !(recs[i].is_element && recs[i].tag@ == "AudioFile"@) {
        None
    } else {
        match (recs[i].text, recs[i].parent) {
            (Some(rel), Some(pid)) => {
                let pj = find_by_id(recs, pid);
                if pj < 0 || !recs[pj].is_element {
                    None
                } else {
                    let k = find_lang_child(recs, pid);
                    if k < 0 {
                        None
                    } else {
                        match recs[k].text {
                            Some(lang) => Some(asset_path_spec(root, lang@, rel@)),
                            None => None,
                        }
                    }
                }
            },
            _ => None,
        }
    }
}

/// The asset paths contributed by records `i..`, in record order.
pub open spec fn extract_from(root: Seq<char>, recs: Seq<XmlRecord>, i: int) -> Seq<Seq<char>>
    decreases recs.len() - i,
{
    if i >= recs.len() {
        Seq::empty()
    } else {
        let rest = extract_from(root, recs, i + 1);
        match ref_contribution(root, recs, i) {
            Some(p) => seq![p] + rest,
            None => rest,
        }
    }
}

/// All asset paths a record list contributes.
pub open spec fn extract_spec(root: Seq<char>, recs: Seq<XmlRecord>) -> Seq<Seq<char>> {
    extract_from(root, recs, 0)
}

/// Computes the contribution of record `i` exactly as `ref_contribution`
/// states it.
fn ref_value(root: &str, recs: &Vec<XmlRecord>, i: usize) -> (r: Option<String>)
    requires
        i < recs@.len(),
    ensures
        (match r {
            Some(s) => ref_contribution(root@, recs@, i as int) == Some(s@),
            None => ref_contribution(root@, recs@, i as int) is None,
        }),
{
    let rec = &recs[i];
    if !rec.is_element {
        return None;
    }
    if !str_eq(rec.tag.as_str(), "AudioFile") {
        return None;
    }
    let rel = match &rec.text {
        Some(t) => t,
        None => { return None; },
    };
    let pid = match rec.parent {
        Some(p) => p,
        None => { return None; },
    };
    let pj = match find_record_by_id(recs, pid) {
        Some(j) => j,
        None => { return None; },
    };
    if !recs[pj].is_element {
        return None;
    }
    let k = match find_language_child(recs, pid) {
        Some(k) => k,
        None => { return None; },
    };
    let lang = match &recs[k].text {
        Some(t) => t,
        None => { return None; },
    };
    Some(make_asset_path(root, lang.as_str(), rel.as_str()))
}

/// Finds the first record carrying `id`, agreeing with `find_by_id`.
fn find_record_by_id(recs: &Vec<XmlRecord>, id: u32) -> (r: Option<usize>)
    ensures
        (match r {
            Some(j) => j < recs@.len() && find_by_id(recs@, id) == j as int,
            None => find_by_id(recs@, id) < 0,
        }),
{
    let n = recs.len();
    let mut j: usize = 0;
    while j < n
        invariant
            n == recs@.len(),
            j <= n,
            forall|t: int| 0 <= t < j ==> recs@[t].id != id,
        decreases n - j,
    {
        if recs[j].id == id {
            proof {
                lemma_find_by_id_props(recs@, id);
            }
            return Some(j);
        }
        j += 1;
    }
    proof {
        lemma_find_by_id_props(recs@, id);
    }
    None
}

/// Finds the first language sibling under `pid`, agreeing with
/// `find_lang_child`.
fn find_language_child(recs: &Vec<XmlRecord>, pid: u32) -> (r: Option<usize>)
    ensures
        (match r {
            Some(k) => k < recs@.len() && find_lang_child(recs@, pid) == k as int,
            None => find_lang_child(recs@, pid) < 0,
        }),
{
    let n = recs.len();
    let mut j: usize = 0;
    while j < n
        invariant
            n == recs@.len(),
            j <= n,
            forall|t: int| 0 <= t < j ==> !is_lang_rec(recs@[t], pid),
        decreases n - j,
    {
        let rec = &recs[j];
        let parent_matches = match rec.parent {
            Some(p) => p == pid,
            None => false,
        };
        if parent_matches && str_contains(rec.tag.as_str(), "Language") {
            proof {
                lemma_find_lang_child_props(recs@, pid);
            }
            return Some(j);
        }
        j += 1;
    }
    proof {
        lemma_find_lang_child_props(recs@, pid);
    }
    None
}

/// Extracts, from the flat records of one descriptor, every asset path its
/// usable references imply, in document order.
pub fn extract_records(root: &str, recs: &Vec<XmlRecord>) -> (r: Vec<String>)
    ensures
        r.deep_view() == extract_spec(root@, recs@),
{
    let n = recs.len();
    let mut out: Vec<String> = Vec::new();
    let mut i: usize = 0;
    proof {
        assert(out.deep_view() =~= Seq::<Seq<char>>::empty());
        assert(extract_spec(root@, recs@) == out.deep_view() + extract_from(root@, recs@, 0));
    }
    while i < n
        invariant
            n == recs@.len(),
            i <= n,
            extract_spec(root@, recs@) == out.deep_view() + extract_from(root@, recs@, i as int),
        decreases n - i,
    {
        let ghost pre_dv = out.deep_view();
        match ref_value(root, recs, i) {
            Some(s) => {
                let ghost sv = s@;
                out.push(s);
                proof {
                    assert(out.deep_view() =~= pre_dv.push(sv));
                    assert(extract_from(root@, recs@, i as int) =~= seq![sv] + extract_from(
                        root@,
                        recs@,
                        i as int + 1,
                    ));
                    assert(pre_dv + extract_from(root@, recs@, i as int) =~= out.deep_view()
                        + extract_from(root@, recs@, i as int + 1));
                }
            },
            None => {
                proof {
                    assert(extract_from(root@, recs@, i as int) == extract_from(
                        root@,
                        recs@,
                        i as int + 1,
                    ));
                }
            },
        }
        i += 1;
    }
    proof {
        assert(extract_from(root@, recs@, n as int) =~= Seq::<Seq<char>>::empty());
        assert(out.deep_view() =~= extract_spec(root@, recs@));
    }
    out
}

/// A descriptor that cannot be used: not well-formed XML, or nested too
/// deeply to hand to the parser at all.
#[derive(Clone, Copy, Debug, PartialEq, Eq, Structural)]
pub enum ParseError {
    Malformed,
    TooDeep,
}

/// Parses one descriptor's text and extracts the asset paths its references
/// imply. Text nested beyond `MAX_XML_DEPTH` is refused before it reaches
/// the parser; anything else fails exactly when it is not well-formed XML.
/// Either failure is the caller's to report, never to escalate.
pub fn parse_xml(root: &str, contents: &str) -> (r: Result<Vec<String>, ParseError>)
    ensures
        xml_depth(contents@) > MAX_XML_DEPTH as int ==> r == Err::<Vec<String>, ParseError>(
            ParseError::TooDeep,
        ),
        xml_depth(contents@) <= MAX_XML_DEPTH as int ==> (match (r, xml_records_of(contents@)) {
            (Ok(v), Some(recs)) => v.deep_view() == extract_spec(root@, recs),
            (Err(e), None) => e == ParseError::Malformed,
            _ => false,
        }),
{
    if xml_depth_exec(contents) > MAX_XML_DEPTH {
        return Err(ParseError::TooDeep);
    }
    match flatten_xml(contents) {
        Some(recs) => Ok(extract_records(root, &recs)),
        None => Err(ParseError::Malformed),
    }
}

} // verus!
