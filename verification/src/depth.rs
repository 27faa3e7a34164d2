//! Nesting-depth guard for descriptor text.
//!
//! A recursive-descent XML parser keeps one stack frame per open element, so
//! text with enough unmatched open tags can exhaust the stack — an abort no
//! caller can recover from, which the per-file failure isolation of this
//! library must never allow. Before any text reaches the parser it is scanned
//! here: `xml_depth` walks the characters once with a small state machine
//! that mirrors the parser's lexical contexts (tags with quoted attribute
//! values, close tags, comments, CDATA sections, processing instructions,
//! other `<!` constructs) and records the highest count of open elements.
//! On any prefix the parser accepts, that count equals the parser's own
//! element depth; at the first byte the parser rejects, its recursion has
//! already stopped, so a text whose scan stays within [`MAX_XML_DEPTH`]
//! cannot drive the parser deeper than that.

use vstd::prelude::*;
use vstd::string::*;

verus! {

/// Depth past which descriptor text is refused before parsing. Descriptor
/// trees are in practice a few dozen levels deep; this bound keeps parser
/// recursion to well under a megabyte of stack.
pub const MAX_XML_DEPTH: usize = 512;

/// The scanner's lexical context.
#[derive(Clone, Copy, Debug, PartialEq, Eq, Structural)]
pub enum ScanState {
    /// Character data between tags.
    Text,
    /// Just read `<`.
    SeenLt,
    /// Just read `<!`.
    SeenLtBang,
    /// Just read `<!-`.
    SeenLtBangDash,
    /// Inside `<!-- ... -->`.
    Comment,
    /// Inside a comment, just read `-`.
    CommentDash,
    /// Inside a comment, just read `--`.
    CommentDashDash,
    /// Inside `<![ ... ]]>`.
    CData,
    /// Inside a CDATA section, just read `]`.
    CDataBracket,
    /// Inside a CDATA section, just read `]]`.
    CDataBracketBracket,
    /// Inside some other `<!` construct, skipping to `>`.
    Bang,
    /// Inside `</ ... >`.
    CloseTag,
    /// Inside `<? ... ?>`.
    Pi,
    /// Inside a processing instruction, just read `?`.
    PiQuestion,
    /// Inside an open tag.
    Tag,
    /// Inside an open tag, just read `/`.
    TagSlash,
    /// Inside a double-quoted attribute value.
    TagQuoteDouble,
    /// Inside a single-quoted attribute value.
    TagQuoteSingle,
}

/// One scanner step: the context and open-element depth after reading `c`.
/// Depth rises when an open tag starts, falls on a close tag or a
/// self-closing `/>`, and never goes below zero.
pub open spec fn scan_step(st: ScanState, d: int, c: char) -> (ScanState, int) {
    match st {
        ScanState::Text => if c == '<' {
            (ScanState::SeenLt, d)
        } else {
            (ScanState::Text, d)
        },
        ScanState::SeenLt => if c == '/' {
            (ScanState::CloseTag, if d > 0 { d - 1 } else { 0 })
        } else if c == '!' {
            (ScanState::SeenLtBang, d)
        } else if c == '?' {
            (ScanState::Pi, d)
        } else {
            (ScanState::Tag, d + 1)
        },
        ScanState::SeenLtBang => if c == '-' {
            (ScanState::SeenLtBangDash, d)
        } else if c == '[' {
            (ScanState::CData, d)
        } else if c == '>' {
            (ScanState::Text, d)
        } else {
            (ScanState::Bang, d)
        },
        ScanState::SeenLtBangDash => if c == '-' {
            (ScanState::Comment, d)
        } else if c == '>' {
            (ScanState::Text, d)
        } else {
            (ScanState::Bang, d)
        },
        ScanState::Comment => if c == '-' {
            (ScanState::CommentDash, d)
        } else {
            (ScanState::Comment, d)
        },
        ScanState::CommentDash => if c == '-' {
            (ScanState::CommentDashDash, d)
        } else {
            (ScanState::Comment, d)
        },
        ScanState::CommentDashDash => if c == '>' {
            (ScanState::Text, d)
        } else if c == '-' {
            (ScanState::CommentDashDash, d)
        } else {
            (ScanState::Comment, d)
        },
        ScanState::CData => if c == ']' {
            (ScanState::CDataBracket, d)
        } else {
            (ScanState::CData, d)
        },
        ScanState::CDataBracket => if c == ']' {
            (ScanState::CDataBracketBracket, d)
        } else {
            (ScanState::CData, d)
        },
        ScanState::CDataBracketBracket => if c == '>' {
            (ScanState::Text, d)
        } else if c == ']' {
            (ScanState::CDataBracketBracket, d)
        } else {
            (ScanState::CData, d)
        },
        ScanState::Bang => if c == '>' {
            (ScanState::Text, d)
        } else {
            (ScanState::Bang, d)
        },
        ScanState::CloseTag => if c == '>' {
            (ScanState::Text, d)
        } else {
            (ScanState::CloseTag, d)
        },
        ScanState::Pi => if c == '?' {
            (ScanState::PiQuestion, d)
        } else {
            (ScanState::Pi, d)
        },
        ScanState::PiQuestion => if c == '>' {
            (ScanState::Text, d)
        } else if c == '?' {
            (ScanState::PiQuestion, d)
        } else {
            (ScanState::Pi, d)
        },
        ScanState::Tag => if c == '>' {
            (ScanState::Text, d)
        } else if c == '/' {
            (ScanState::TagSlash, d)
        } else if c == '"' {
            (ScanState::TagQuoteDouble, d)
        } else if c == '\'' {
            (ScanState::TagQuoteSingle, d)
        } else {
            (ScanState::Tag, d)
        },
        ScanState::TagSlash => if c == '>' {
            (ScanState::Text, if d > 0 { d - 1 } else { 0 })
        } else if c == '/' {
            (ScanState::TagSlash, d)
        } else if c == '"' {
            (ScanState::TagQuoteDouble, d)
        } else if c == '\'' {
            (ScanState::TagQuoteSingle, d)
        } else {
            (ScanState::Tag, d)
        },
        ScanState::TagQuoteDouble => if c == '"' {
            (ScanState::Tag, d)
        } else {
            (ScanState::TagQuoteDouble, d)
        },
        ScanState::TagQuoteSingle => if c == '\'' {
            (ScanState::Tag, d)
        } else {
            (ScanState::TagQuoteSingle, d)
        },
    }
}

/// The scanner after the first `i` characters: its context, its current
/// depth, and the highest depth seen so far.
pub open spec fn scan_prefix(s: Seq<char>, i: int) -> (ScanState, int, int)
    decreases i,
{
    if i <= 0 {
        (ScanState::Text, 0, 0)
    } else {
        let prev = scan_prefix(s, i - 1);
        let next = scan_step(prev.0, prev.1, s[i - 1]);
        (
            next.0,
            next.1,
            if next.1 > prev.2 {
                next.1
            } else {
                prev.2
            },
        )
    }
}

/// The highest open-element depth a text reaches under the scan.
pub open spec fn xml_depth(s: Seq<char>) -> int {
    scan_prefix(s, s.len() as int).2
}

/// Runs the scanner over the text and returns `xml_depth` exactly.
pub fn xml_depth_exec(s: &str) -> (m: usize)
    ensures
        m as int == xml_depth(s@),
{
    let len = s.unicode_len();
    let mut st = ScanState::Text;
    let mut d: usize = 0;
    let mut m: usize = 0;
    let mut i: usize = 0;
    while i < len
        invariant
            len == s@.len(),
            i <= len,
            d <= i,
            m <= i,
            scan_prefix(s@, i as int) == (st, d as int, m as int),
        decreases len - i,
    {
        let c = s.get_char(i);
        let step: (ScanState, usize) = match st {
            ScanState::Text => if c == '<' {
                (ScanState::SeenLt, d)
            } else {
                (ScanState::Text, d)
            },
            ScanState::SeenLt => if c == '/' {
                (ScanState::CloseTag, if d > 0 { d - 1 } else { 0 })
            } else if c == '!' {
                (ScanState::SeenLtBang, d)
            } else if c == '?' {
                (ScanState::Pi, d)
            } else {
                (ScanState::Tag, d + 1)
            },
            ScanState::SeenLtBang => if c == '-' {
                (ScanState::SeenLtBangDash, d)
            } else if c == '[' {
                (ScanState::CData, d)
            } else if c == '>' {
                (ScanState::Text, d)
            } else {
                (ScanState::Bang, d)
            },
            ScanState::SeenLtBangDash => if c == '-' {
                (ScanState::Comment, d)
            } else if c == '>' {
                (ScanState::Text, d)
            } else {
                (ScanState::Bang, d)
            },
            ScanState::Comment => if c == '-' {
                (ScanState::CommentDash, d)
            } else {
                (ScanState::Comment, d)
            },
            ScanState::CommentDash => if c == '-' {
                (ScanState::CommentDashDash, d)
            } else {
                (ScanState::Comment, d)
            },
            ScanState::CommentDashDash => if c == '>' {
                (ScanState::Text, d)
            } else if c == '-' {
                (ScanState::CommentDashDash, d)
            } else {
                (ScanState::Comment, d)
            },
            ScanState::CData => if c == ']' {
                (ScanState::CDataBracket, d)
            } else {
                (ScanState::CData, d)
            },
            ScanState::CDataBracket => if c == ']' {
                (ScanState::CDataBracketBracket, d)
            } else {
                (ScanState::CData, d)
            },
            ScanState::CDataBracketBracket => if c == '>' {
                (ScanState::Text, d)
            } else if c == ']' {
                (ScanState::CDataBracketBracket, d)
            } else {
                (ScanState::CData, d)
            },
            ScanState::Bang => if c == '>' {
                (ScanState::Text, d)
            } else {
                (ScanState::Bang, d)
            },
            ScanState::CloseTag => if c == '>' {
                (ScanState::Text, d)
            } else {
                (ScanState::CloseTag, d)
            },
            ScanState::Pi => if c == '?' {
                (ScanState::PiQuestion, d)
            } else {
                (ScanState::Pi, d)
            },
            ScanState::PiQuestion => if c == '>' {
                (ScanState::Text, d)
            } else if c == '?' {
                (ScanState::PiQuestion, d)
            } else {
                (ScanState::Pi, d)
            },
            ScanState::Tag => if c == '>' {
                (ScanState::Text, d)
            } else if c == '/' {
                (ScanState::TagSlash, d)
            } else if c == '"' {
                (ScanState::TagQuoteDouble, d)
            } else if c == '\'' {
                (ScanState::TagQuoteSingle, d)
            } else {
                (ScanState::Tag, d)
            },
            ScanState::TagSlash => if c == '>' {
                (ScanState::Text, if d > 0 { d - 1 } else { 0 })
            } else if c == '/' {
                (ScanState::TagSlash, d)
            } else if c == '"' {
                (ScanState::TagQuoteDouble, d)
            } else if c == '\'' {
                (ScanState::TagQuoteSingle, d)
            } else {
                (ScanState::Tag, d)
            },
            ScanState::TagQuoteDouble => if c == '"' {
                (ScanState::Tag, d)
            } else {
                (ScanState::TagQuoteDouble, d)
            },
            ScanState::TagQuoteSingle => if c == '\'' {
                (ScanState::Tag, d)
            } else {
                (ScanState::TagQuoteSingle, d)
            },
        };
        proof {
            assert(scan_step(st, d as int, c) == (step.0, step.1 as int));
        }
        st = step.0;
        let d2 = step.1;
        if d2 > m {
            m = d2;
        }
        proof {
            assert(scan_prefix(s@, i as int + 1) == (st, d2 as int, m as int));
        }
        d = d2;
        i += 1;
    }
    m
}

} // verus!
