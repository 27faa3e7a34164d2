//! The list file: an unused list serialized one path per line, and the
//! reader that splits a file's text back into trimmed lines.

use vstd::prelude::*;
use vstd::string::*;

verus! {

/// A white-space character, the set that line trimming removes.
pub open spec fn is_ws_char(c: char) -> bool {
    let u = c as u32;
    u == 0x09 || u == 0x0A || u == 0x0B || u == 0x0C || u == 0x0D || u == 0x20 || u == 0x85 || u
        == 0xA0 || u == 0x1680 || (0x2000 <= u && u <= 0x200A) || u == 0x2028 || u == 0x2029 || u
        == 0x202F || u == 0x205F || u == 0x3000
}

/// Decides `is_ws_char`.
fn is_ws(c: char) -> (r: bool)
    ensures
        r == is_ws_char(c),
{
    let u = c as u32;
    u == 0x09 || u == 0x0A || u == 0x0B || u == 0x0C || u == 0x0D || u == 0x20 || u == 0x85 || u
        == 0xA0 || u == 0x1680 || (0x2000 <= u && u <= 0x200A) || u == 0x2028 || u == 0x2029 || u
        == 0x202F || u == 0x205F || u == 0x3000
}

/// The text with leading and trailing white space removed.
pub open spec fn trim_spec(s: Seq<char>) -> Seq<char>
    decreases s.len(),
{
    if s.len() == 0 {
        s
    } else if is_ws_char(s[0]) {
        trim_spec(s.drop_first())
    } else if is_ws_char(s.last()) {
        trim_spec(s.drop_last())
    } else {
        s
    }
}

/// Trimming all-white-space text leaves nothing.
pub proof fn lemma_trim_all_ws(s: Seq<char>)
    requires
        forall|t: int| 0 <= t < s.len() ==> is_ws_char(s[t]),
    ensures
        trim_spec(s) == Seq::<char>::empty(),
    decreases s.len(),
{
    if s.len() == 0 {
        assert(s =~= Seq::<char>::empty());
    } else {
        let sub = s.drop_first();
        assert(forall|t: int| 0 <= t < sub.len() ==> sub[t] == s[t + 1]);
        lemma_trim_all_ws(sub);
    }
}

/// Trimming takes exactly the subrange between the outermost non-white-space
/// characters.
pub proof fn lemma_trim_subrange(s: Seq<char>, a: int, b: int)
    requires
        0 <= a < b <= s.len(),
        forall|t: int| 0 <= t < a ==> is_ws_char(s[t]),
        forall|t: int| b <= t < s.len() ==> is_ws_char(s[t]),
        !is_ws_char(s[a]),
        !is_ws_char(s[b - 1]),
    ensures
        trim_spec(s) == s.subrange(a, b),
    decreases s.len(),
{
    if is_ws_char(s[0]) {
        let sub = s.drop_first();
        assert(forall|t: int| 0 <= t < sub.len() ==> sub[t] == s[t + 1]);
        assert(a >= 1);
        lemma_trim_subrange(sub, a - 1, b - 1);
        assert(sub.subrange(a - 1, b - 1) =~= s.subrange(a, b));
    } else if is_ws_char(s.last()) {
        assert(b < s.len());
        let sub = s.drop_last();
        assert(forall|t: int| 0 <= t < sub.len() ==> sub[t] == s[t]);
        lemma_trim_subrange(sub, a, b);
        assert(sub.subrange(a, b) =~= s.subrange(a, b));
    } else {
        assert(a == 0);
        assert(b == s.len());
        assert(s.subrange(0, s.len() as int) =~= s);
    }
}

/// Index of the first newline, or the length when there is none.
pub open spec fn find_nl(s: Seq<char>) -> int
    decreases s.len(),
{
    if s.len() == 0 {
        0
    } else if s[0] == '\n' {
        0
    } else {
        1 + find_nl(s.drop_first())
    }
}

/// `find_nl` is exactly the least newline position.
pub proof fn lemma_find_nl_props(s: Seq<char>)
    ensures
        0 <= find_nl(s) <= s.len(),
        forall|t: int| 0 <= t < find_nl(s) ==> s[t] != '\n',
        find_nl(s) < s.len() ==> s[find_nl(s)] == '\n',
    decreases s.len(),
{
    if s.len() == 0 {
    } else if s[0] == '\n' {
    } else {
        let sub = s.drop_first();
        assert(forall|t: int| 0 <= t < sub.len() ==> sub[t] == s[t + 1]);
        lemma_find_nl_props(sub);
        assert forall|t: int| 0 <= t < find_nl(s) implies s[t] != '\n' by {
            if t > 0 {
                assert(sub[t - 1] == s[t]);
            }
        }
    }
}

/// The lines of a text: pieces between newlines, a trailing newline closing
/// the last line rather than opening an empty one.
pub open spec fn lines_spec(s: Seq<char>) -> Seq<Seq<char>>
    decreases s.len(),
{
    if s.len() == 0 {
        Seq::empty()
    } else {
        let i = find_nl(s);
        if 0 <= i < s.len() {
            seq![s.take(i)] + lines_spec(s.skip(i + 1))
        } else {
            seq![s]
        }
    }
}

/// The list a file's text denotes: its lines, each trimmed. Nothing is
/// filtered, so a blank line becomes an empty entry.
pub open spec fn parse_list_spec(s: Seq<char>) -> Seq<Seq<char>> {
    lines_spec(s).map_values(|line: Seq<char>| trim_spec(line))
}

/// The serialized form of a list: entries joined by single newlines, no
/// terminator.
pub open spec fn serialize_spec(l: Seq<Seq<char>>) -> Seq<char>
    decreases l.len(),
{
    if l.len() == 0 {
        Seq::empty()
    } else if l.len() == 1 {
        l[0]
    } else {
        serialize_spec(l.drop_last()) + seq!['\n'] + l.last()
    }
}

/// Joins the entries with newlines, exactly as `serialize_spec` states.
pub fn serialize_list(list: &Vec<String>) -> (r: String)
    ensures
        r@ == serialize_spec(list.deep_view()),
{
    let ghost dv = list.deep_view();
    let n = list.len();
    let mut out = String::new();
    let mut i: usize = 0;
    proof {
        assert(dv.len() == n);
        assert(out@ =~= serialize_spec(dv.take(0)));
    }
    while i < n
        invariant
            n == list@.len(),
            dv == list.deep_view(),
            dv.len() == n,
            i <= n,
            out@ == serialize_spec(dv.take(i as int)),
        decreases n - i,
    {
        if i > 0 {
            out.append("\n");
        }
        out.append(list[i].as_str());
        proof {
            reveal_strlit("\n");
            assert("\n"@ =~= seq!['\n']);
            assert(dv[i as int] == list@[i as int]@);
            let pre = dv.take(i as int);
            let cur = dv.take(i as int + 1);
            assert(cur.drop_last() =~= pre);
            assert(cur.last() == dv[i as int]);
            if i == 0 {
                assert(out@ =~= serialize_spec(cur));
            } else {
                assert(serialize_spec(cur) == serialize_spec(pre) + seq!['\n'] + dv[i as int]);
                assert(out@ =~= serialize_spec(cur));
            }
        }
        i += 1;
    }
    proof {
        assert(dv.take(n as int) =~= dv);
    }
    out
}

/// Index of the first non-white-space character, or the length.
fn scan_ws_start(s: &str) -> (a: usize)
    ensures
        a <= s@.len(),
        forall|t: int| 0 <= t < a ==> is_ws_char(s@[t]),
        a < s@.len() ==> !is_ws_char(s@[a as int]),
{
    let len = s.unicode_len();
    let mut a: usize = 0;
    while a < len
        invariant
            len == s@.len(),
            a <= len,
            forall|t: int| 0 <= t < a ==> is_ws_char(s@[t]),
        decreases len - a,
    {
        if !is_ws(s.get_char(a)) {
            return a;
        }
        a += 1;
    }
    a
}

/// One past the last non-white-space character, scanning back from the end;
/// needs a known non-white-space character at `a` to stop at.
fn scan_ws_end(s: &str, a: usize) -> (b: usize)
    requires
        a < s@.len() <= usize::MAX,
        !is_ws_char(s@[a as int]),
    ensures
        a < b <= s@.len(),
        forall|t: int| b <= t < s@.len() ==> is_ws_char(s@[t]),
        !is_ws_char(s@[b - 1]),
{
    let len = s.unicode_len();
    let mut b: usize = len;
    while b > a + 1
        invariant
            len == s@.len(),
            a + 1 <= b <= len,
            forall|t: int| b <= t < len ==> is_ws_char(s@[t]),
        decreases b,
    {
        if !is_ws(s.get_char(b - 1)) {
            return b;
        }
        b -= 1;
    }
    b
}

/// The text with surrounding white space removed, exactly `trim_spec`.
pub fn trim_str<'a>(s: &'a str) -> (r: &'a str)
    ensures
        r@ == trim_spec(s@),
{
    let len = s.unicode_len();
    let a = scan_ws_start(s);
    if a == len {
        proof {
            lemma_trim_all_ws(s@);
        }
        let r = s.substring_char(len, len);
        proof {
            assert(r@ =~= trim_spec(s@));
        }
        return r;
    }
    let b = scan_ws_end(s, a);
    let r = s.substring_char(a, b);
    proof {
        lemma_trim_subrange(s@, a as int, b as int);
    }
    r
}

/// Index of the first newline at or after `from`, or the length.
fn find_newline(s: &str, from: usize) -> (j: usize)
    requires
        from <= s@.len() <= usize::MAX,
    ensures
        from <= j <= s@.len(),
        forall|t: int| from <= t < j ==> s@[t] != '\n',
        j < s@.len() ==> s@[j as int] == '\n',
{
    let len = s.unicode_len();
    let mut j: usize = from;
    while j < len
        invariant
            len == s@.len(),
            from <= j <= len,
            forall|t: int| from <= t < j ==> s@[t] != '\n',
        decreases len - j,
    {
        if s.get_char(j) == '\n' {
            return j;
        }
        j += 1;
    }
    j
}

/// Splits a file's text into trimmed lines: `parse_list_spec` decided
/// exactly. Blank lines are kept as empty entries.
pub fn parse_list(content: &str) -> (r: Vec<String>)
    ensures
        r.deep_view() == parse_list_spec(content@),
{
    let ghost cv = content@;
    let ghost trim_fn = (|line: Seq<char>| trim_spec(line));
    let len = content.unicode_len();
    let mut out: Vec<String> = Vec::new();
    let mut pos: usize = 0;
    proof {
        assert(out.deep_view() =~= Seq::<Seq<char>>::empty());
        assert(cv.skip(0) =~= cv);
    }
    while pos < len
        invariant
            len == cv.len(),
            cv == content@,
            trim_fn == (|line: Seq<char>| trim_spec(line)),
            pos <= len,
            parse_list_spec(cv) == out.deep_view() + lines_spec(cv.skip(pos as int)).map_values(
                trim_fn,
            ),
        decreases len - pos,
    {
        let ghost pre = out.deep_view();
        let ghost tail = cv.skip(pos as int);
        let j = find_newline(content, pos);
        proof {
            assert(forall|u: int| 0 <= u < tail.len() ==> tail[u] == cv[pos + u]);
            lemma_find_nl_props(tail);
            // the scan and find_nl agree: both name the least newline position
            assert(find_nl(tail) == j - pos) by {
                let f = find_nl(tail);
                if f < j - pos {
                    assert(cv[pos + f] == tail[f]);
                } else if f > j - pos {
                    assert(j < len);
                    assert(tail[j - pos] == cv[j as int]);
                }
            }
        }
        let piece = content.substring_char(pos, j);
        let trimmed = trim_str(piece);
        out.push(String::from_str(trimmed));
        proof {
            assert(piece@ =~= tail.take(j - pos));
            assert(out.deep_view() =~= pre.push(trim_spec(tail.take(j - pos))));
        }
        if j < len {
            proof {
                let rest = cv.skip(j as int + 1);
                assert(tail.skip(j - pos + 1) =~= rest);
                assert(lines_spec(tail) == seq![tail.take(j - pos)] + lines_spec(rest));
                assert(lines_spec(tail).map_values(trim_fn) =~= seq![
                    trim_spec(tail.take(j - pos)),
                ] + lines_spec(rest).map_values(trim_fn));
                assert(pre + lines_spec(tail).map_values(trim_fn) =~= out.deep_view()
                    + lines_spec(rest).map_values(trim_fn));
            }
            pos = j + 1;
        } else {
            proof {
                assert(j == len);
                assert(find_nl(tail) == tail.len());
                assert(lines_spec(tail) == seq![tail]);
                assert(tail.take(j - pos) =~= tail);
                assert(lines_spec(tail).map_values(trim_fn) =~= seq![trim_spec(tail)]);
                let rest = cv.skip(len as int);
                assert(rest =~= Seq::<char>::empty());
                assert(lines_spec(rest).map_values(trim_fn) =~= Seq::<Seq<char>>::empty());
                assert(pre + lines_spec(tail).map_values(trim_fn) =~= out.deep_view()
                    + lines_spec(rest).map_values(trim_fn));
            }
            pos = len;
        }
    }
    proof {
        assert(cv.skip(len as int) =~= Seq::<char>::empty());
        assert(lines_spec(Seq::<char>::empty()).map_values(trim_fn) =~= Seq::<Seq<char>>::empty());
        assert(out.deep_view() =~= parse_list_spec(cv));
    }
    out
}

/// An entry the list file format can carry faithfully: nonempty, free of
/// newlines, and not beginning or ending in white space.
pub open spec fn writable_entry(e: Seq<char>) -> bool {
    e.len() > 0 && !e.contains('\n') && !is_ws_char(e[0]) && !is_ws_char(e.last())
}

/// Trimming leaves a writable entry alone.
proof fn lemma_trim_writable(e: Seq<char>)
    requires
        writable_entry(e),
    ensures
        trim_spec(e) == e,
{
    lemma_trim_subrange(e, 0, e.len() as int);
    assert(e.subrange(0, e.len() as int) =~= e);
}

/// A writable entry holds no newline at any index.
proof fn lemma_no_nl_indices(e: Seq<char>)
    requires
        !e.contains('\n'),
    ensures
        forall|t: int| 0 <= t < e.len() ==> e[t] != '\n',
{
    assert forall|t: int| 0 <= t < e.len() implies e[t] != '\n' by {
        if e[t] == '\n' {
            assert(e.contains('\n'));
        }
    }
}

/// Serialization unrolled from the front: the first entry, a newline, the
/// rest.
proof fn lemma_serialize_cons(l: Seq<Seq<char>>)
    requires
        l.len() >= 2,
    ensures
        serialize_spec(l) == l[0] + seq!['\n'] + serialize_spec(l.drop_first()),
    decreases l.len(),
{
    if l.len() == 2 {
        assert(l.drop_last() =~= seq![l[0]]);
        assert(serialize_spec(seq![l[0]]) == l[0]);
        assert(l.drop_first() =~= seq![l[1]]);
        assert(serialize_spec(l.drop_first()) == l[1]);
    } else {
        let head = l.drop_last();
        lemma_serialize_cons(head);
        assert(head.drop_first() =~= l.drop_first().drop_last());
        assert(l.drop_first().len() >= 2);
        assert(serialize_spec(l.drop_first()) == serialize_spec(l.drop_first().drop_last())
            + seq!['\n'] + l.drop_first().last());
        assert(l.drop_first().last() == l.last());
        assert(serialize_spec(l) == serialize_spec(head) + seq!['\n'] + l.last());
        assert((l[0] + seq!['\n'] + serialize_spec(head.drop_first())) + seq!['\n'] + l.last()
            =~= l[0] + seq!['\n'] + (serialize_spec(head.drop_first()) + seq!['\n'] + l.last()));
    }
}

/// Round trip of the list file: writing a list of writable entries and
/// reading the text back reproduces the list exactly. (An entry that is
/// empty, holds a newline, or carries surrounding white space cannot survive
/// the trimming, line-splitting format.)
pub proof fn lemma_list_round_trip(l: Seq<Seq<char>>)
    requires
        forall|i: int| 0 <= i < l.len() ==> writable_entry(#[trigger] l[i]),
    ensures
        parse_list_spec(serialize_spec(l)) == l,
    decreases l.len(),
{
    let trim_fn = (|line: Seq<char>| trim_spec(line));
    if l.len() == 0 {
        assert(lines_spec(Seq::<char>::empty()).map_values(trim_fn) =~= l);
    } else if l.len() == 1 {
        let e = l[0];
        let s = serialize_spec(l);
        assert(s == e);
        lemma_no_nl_indices(e);
        lemma_find_nl_props(s);
        assert(find_nl(s) == s.len());
        assert(lines_spec(s) == seq![s]);
        lemma_trim_writable(e);
        assert(lines_spec(s).map_values(trim_fn) =~= l);
    } else {
        let e = l[0];
        let rest = l.drop_first();
        let s = serialize_spec(l);
        lemma_serialize_cons(l);
        assert(forall|i: int| 0 <= i < rest.len() ==> rest[i] == l[i + 1]);
        lemma_list_round_trip(rest);
        lemma_no_nl_indices(e);
        lemma_find_nl_props(s);
        assert(s[e.len() as int] == '\n');
        assert(forall|t: int| 0 <= t < e.len() ==> s[t] == e[t]);
        assert(find_nl(s) == e.len()) by {
            let f = find_nl(s);
            if f < e.len() {
                assert(s[f] == e[f]);
            }
        }
        assert(0 <= find_nl(s) < s.len());
        assert(lines_spec(s) == seq![s.take(e.len() as int)] + lines_spec(
            s.skip(e.len() as int + 1),
        ));
        assert(s.take(e.len() as int) =~= e);
        assert(s.skip(e.len() as int + 1) =~= serialize_spec(rest));
        lemma_trim_writable(e);
        assert(lines_spec(s).map_values(trim_fn) =~= seq![e] + lines_spec(
            serialize_spec(rest),
        ).map_values(trim_fn));
        assert(seq![e] + rest =~= l);
        assert(parse_list_spec(s) =~= l);
    }
}

} // verus!
