//! A parser for the repo-manifest XML dialect: `<manifest>` holding
//! `<remote>`, `<default>`, `<project>` (with nested `<linkfile>` and
//! `<copyfile>`) and `<include>` elements.  Unknown elements and attributes
//! are skipped, comments and processing instructions are ignored, and the
//! five predefined entities are understood in attribute values.
//!
//! Every executable function is proved equal to a specification-level parser
//! over the document's character sequence.

use vstd::prelude::*;

use crate::strutil::chars_to_string;
use crate::strutil::str_to_chars;

verus! {

// ---------------------------------------------------------------------------
// character classes
// ---------------------------------------------------------------------------

/// The whitespace characters of the XML grammar.
pub open spec fn is_ws(c: char) -> bool {
    c == ' ' || c == '\t' || c == '\r' || c == '\n'
}

pub(crate) fn e_is_ws(c: char) -> (b: bool)
    ensures
        b == is_ws(c),
{
    c == ' ' || c == '\t' || c == '\r' || c == '\n'
}

pub open spec fn is_name_char(c: char) -> bool {
    ('a' <= c && c <= 'z') || ('A' <= c && c <= 'Z') || ('0' <= c && c <= '9') || c == '-'
        || c == '_' || c == '.' || c == ':'
}

fn e_is_name_char(c: char) -> (b: bool)
    ensures
        b == is_name_char(c),
{
    ('a' <= c && c <= 'z') || ('A' <= c && c <= 'Z') || ('0' <= c && c <= '9') || c == '-'
        || c == '_' || c == '.' || c == ':'
}

/// Whether `pat` occurs in `s` starting at `i`.
pub open spec fn matches_at(s: Seq<char>, i: int, pat: Seq<char>) -> bool {
    0 <= i && i + pat.len() <= s.len() && s.subrange(i, i + pat.len() as int) == pat
}

/// Tests `matches_at` for a literal pattern.
pub(crate) fn e_match_at(s: &Vec<char>, i: usize, pat: &str) -> (b: bool)
    requires
        i <= s@.len(),
    ensures
        b == matches_at(s@, i as int, pat@),
{
    let n = pat.unicode_len();
    if n > s.len() - i {
        return false;
    }
    let mut k: usize = 0;
    while k < n
        invariant
            n == pat@.len(),
            i + n <= s@.len(),
            i + n <= usize::MAX,
            k <= n,
            forall|m: int| 0 <= m < k ==> s@[i + m] == pat@[m],
        decreases n - k,
    {
        if s[i + k] != pat.get_char(k) {
            proof {
                assert(s@.subrange(i as int, i + pat@.len() as int)[k as int] != pat@[k as int]);
            }
            return false;
        }
        k = k + 1;
    }
    proof {
        assert(s@.subrange(i as int, i + pat@.len() as int) =~= pat@);
    }
    true
}

// ---------------------------------------------------------------------------
// scanning primitives
// ---------------------------------------------------------------------------

/// The first position at or after `i` whose character is not whitespace.
pub open spec fn skip_ws(s: Seq<char>, i: int) -> int
    decreases s.len() - i,
{
    if 0 <= i < s.len() && is_ws(s[i]) {
        skip_ws(s, i + 1)
    } else {
        i
    }
}

fn e_skip_ws(s: &Vec<char>, i: usize) -> (r: usize)
    requires
        i <= s@.len(),
    ensures
        r as int == skip_ws(s@, i as int),
        i <= r <= s@.len(),
{
    let mut j = i;
    while j < s.len() && e_is_ws(s[j])
        invariant
            i <= j <= s@.len(),
            skip_ws(s@, i as int) == skip_ws(s@, j as int),
        decreases s@.len() - j,
    {
        j = j + 1;
    }
    j
}

/// The first position at or after `i` whose character is not a name
/// character.
pub open spec fn name_end(s: Seq<char>, i: int) -> int
    decreases s.len() - i,
{
    if 0 <= i < s.len() && is_name_char(s[i]) {
        name_end(s, i + 1)
    } else {
        i
    }
}

fn e_name_end(s: &Vec<char>, i: usize) -> (r: usize)
    requires
        i <= s@.len(),
    ensures
        r as int == name_end(s@, i as int),
        i <= r <= s@.len(),
{
    let mut j = i;
    while j < s.len() && e_is_name_char(s[j])
        invariant
            i <= j <= s@.len(),
            name_end(s@, i as int) == name_end(s@, j as int),
        decreases s@.len() - j,
    {
        j = j + 1;
    }
    j
}

/// The first position at or after `i` holding character `c`.
pub open spec fn find_char(s: Seq<char>, i: int, c: char) -> Option<int>
    decreases s.len() - i,
{
    if 0 <= i < s.len() {
        if s[i] == c {
            Some(i)
        } else {
            find_char(s, i + 1, c)
        }
    } else {
        None
    }
}

pub(crate) fn e_find_char(s: &Vec<char>, i: usize, c: char) -> (r: Option<usize>)
    requires
        i <= s@.len(),
    ensures
        match r {
            Some(j) => find_char(s@, i as int, c) == Some(j as int) && i <= j < s@.len(),
            None => find_char(s@, i as int, c) is None,
        },
{
    let mut j = i;
    while j < s.len()
        invariant
            i <= j <= s@.len(),
            find_char(s@, i as int, c) == find_char(s@, j as int, c),
        decreases s@.len() - j,
    {
        if s[j] == c {
            return Some(j);
        }
        j = j + 1;
    }
    None
}

/// The first position at or after `i` where the two-character pattern
/// `a b` occurs.
pub open spec fn find_2(s: Seq<char>, i: int, a: char, b: char) -> Option<int>
    decreases s.len() - i,
{
    if 0 <= i && i + 2 <= s.len() {
        if s[i] == a && s[i + 1] == b {
            Some(i)
        } else {
            find_2(s, i + 1, a, b)
        }
    } else {
        None
    }
}

fn e_find_2(s: &Vec<char>, i: usize, a: char, b: char) -> (r: Option<usize>)
    requires
        i <= s@.len(),
    ensures
        match r {
            Some(j) => find_2(s@, i as int, a, b) == Some(j as int) && i <= j && j + 2 <= s@.len(),
            None => find_2(s@, i as int, a, b) is None,
        },
{
    let mut j = i;
    while s.len() >= 2 && j <= s.len() - 2
        invariant
            i <= j,
            j <= s@.len(),
            find_2(s@, i as int, a, b) == find_2(s@, j as int, a, b),
        decreases s@.len() - j,
    {
        if s[j] == a && s[j + 1] == b {
            return Some(j);
        }
        j = j + 1;
    }
    None
}

/// The first position at or after `i` where the three-character pattern
/// `a b c` occurs.
pub open spec fn find_3(s: Seq<char>, i: int, a: char, b: char, c: char) -> Option<int>
    decreases s.len() - i,
{
    if 0 <= i && i + 3 <= s.len() {
        if s[i] == a && s[i + 1] == b && s[i + 2] == c {
            Some(i)
        } else {
            find_3(s, i + 1, a, b, c)
        }
    } else {
        None
    }
}

fn e_find_3(s: &Vec<char>, i: usize, a: char, b: char, c: char) -> (r: Option<usize>)
    requires
        i <= s@.len(),
    ensures
        match r {
            Some(j) => find_3(s@, i as int, a, b, c) == Some(j as int) && i <= j && j + 3
                <= s@.len(),
            None => find_3(s@, i as int, a, b, c) is None,
        },
{
    let mut j = i;
    while s.len() >= 3 && j <= s.len() - 3
        invariant
            i <= j,
            j <= s@.len(),
            find_3(s@, i as int, a, b, c) == find_3(s@, j as int, a, b, c),
        decreases s@.len() - j,
    {
        if s[j] == a && s[j + 1] == b && s[j + 2] == c {
            return Some(j);
        }
        j = j + 1;
    }
    None
}

/// Copies `s[a..b]` out as a vector.
pub(crate) fn e_subrange(s: &Vec<char>, a: usize, b: usize) -> (v: Vec<char>)
    requires
        a <= b <= s@.len(),
    ensures
        v@ == s@.subrange(a as int, b as int),
{
    let mut v: Vec<char> = Vec::new();
    let mut k = a;
    while k < b
        invariant
            a <= k <= b <= s@.len(),
            v@ == s@.subrange(a as int, k as int),
        decreases b - k,
    {
        v.push(s[k]);
        k = k + 1;
        proof {
            assert(v@ =~= s@.subrange(a as int, k as int));
        }
    }
    v
}

} // verus!

verus! {

// ---------------------------------------------------------------------------
// names, entities, attribute values
// ---------------------------------------------------------------------------

/// A name: one or more name characters.
pub open spec fn parse_name(s: Seq<char>, i: int) -> Option<(Seq<char>, int)> {
    let e = name_end(s, i);
    if 0 <= i && e > i {
        Some((s.subrange(i, e), e))
    } else {
        None
    }
}

fn e_parse_name(s: &Vec<char>, i: usize) -> (r: Option<(Vec<char>, usize)>)
    requires
        i <= s@.len(),
    ensures
        match r {
            Some((name, j)) => parse_name(s@, i as int) == Some((name@, j as int)) && i < j
                <= s@.len(),
            None => parse_name(s@, i as int) is None,
        },
{
    let e = e_name_end(s, i);
    if e > i {
        Some((e_subrange(s, i, e), e))
    } else {
        None
    }
}

/// One of the five predefined entity references, starting at the `&` at
/// position `i`.
pub open spec fn parse_entity(s: Seq<char>, i: int) -> Option<(char, int)> {
    if matches_at(s, i + 1, "amp;"@) {
        Some(('&', i + 1 + "amp;"@.len()))
    } else if matches_at(s, i + 1, "lt;"@) {
        Some(('<', i + 1 + "lt;"@.len()))
    } else if matches_at(s, i + 1, "gt;"@) {
        Some(('>', i + 1 + "gt;"@.len()))
    } else if matches_at(s, i + 1, "quot;"@) {
        Some(('"', i + 1 + "quot;"@.len()))
    } else if matches_at(s, i + 1, "apos;"@) {
        Some(('\'', i + 1 + "apos;"@.len()))
    } else {
        None
    }
}

fn e_parse_entity(s: &Vec<char>, i: usize) -> (r: Option<(char, usize)>)
    requires
        i < s@.len(),
    ensures
        match r {
            Some((c, j)) => parse_entity(s@, i as int) == Some((c, j as int)) && i < j
                <= s@.len(),
            None => parse_entity(s@, i as int) is None,
        },
{
    proof {
        reveal_strlit("amp;");
        reveal_strlit("lt;");
        reveal_strlit("gt;");
        reveal_strlit("quot;");
        reveal_strlit("apos;");
    }
    let n = s.len();
    proof {
        assert(n == s@.len());
    }
    if e_match_at(s, i + 1, "amp;") {
        Some(('&', i + 5))
    } else if e_match_at(s, i + 1, "lt;") {
        Some(('<', i + 4))
    } else if e_match_at(s, i + 1, "gt;") {
        Some(('>', i + 4))
    } else if e_match_at(s, i + 1, "quot;") {
        Some(('"', i + 6))
    } else if e_match_at(s, i + 1, "apos;") {
        Some(('\'', i + 6))
    } else {
        None
    }
}

/// The characters of a quoted attribute value up to the closing quote `q`,
/// entity references resolved.  A raw `<` or a malformed reference fails.
pub open spec fn parse_value(s: Seq<char>, i: int, q: char) -> Option<(Seq<char>, int)>
    decreases s.len() - i,
{
    if !(0 <= i < s.len()) {
        None
    } else if s[i] == q {
        Some((Seq::empty(), i + 1))
    } else if s[i] == '<' {
        None
    } else if s[i] == '&' {
        match parse_entity(s, i) {
            Some((c, j)) => if i < j <= s.len() {
                match parse_value(s, j, q) {
                    Some((rest, k)) => Some((seq![c] + rest, k)),
                    None => None,
                }
            } else {
                None
            },
            None => None,
        }
    } else {
        match parse_value(s, i + 1, q) {
            Some((rest, k)) => Some((seq![s[i]] + rest, k)),
            None => None,
        }
    }
}

fn e_parse_value(s: &Vec<char>, i: usize, q: char) -> (r: Option<(Vec<char>, usize)>)
    requires
        i <= s@.len(),
    ensures
        match r {
            Some((v, j)) => parse_value(s@, i as int, q) == Some((v@, j as int)) && i < j
                <= s@.len(),
            None => parse_value(s@, i as int, q) is None,
        },
    decreases s@.len() - i,
{
    if i >= s.len() {
        return None;
    }
    let c = s[i];
    if c == q {
        let v: Vec<char> = Vec::new();
        proof {
            assert(v@ =~= Seq::<char>::empty());
        }
        return Some((v, i + 1));
    }
    if c == '<' {
        return None;
    }
    if c == '&' {
        match e_parse_entity(s, i) {
            Some((ec, j)) => {
                match e_parse_value(s, j, q) {
                    Some((rest, k)) => {
                        let mut v = rest;
                        v.insert(0, ec);
                        proof {
                            assert(v@ =~= seq![ec] + v@.subrange(1, v@.len() as int));
                        }
                        Some((v, k))
                    },
                    None => None,
                }
            },
            None => None,
        }
    } else {
        match e_parse_value(s, i + 1, q) {
            Some((rest, k)) => {
                let mut v = rest;
                v.insert(0, c);
                proof {
                    assert(v@ =~= seq![c] + v@.subrange(1, v@.len() as int));
                }
                Some((v, k))
            },
            None => None,
        }
    }
}

// ---------------------------------------------------------------------------
// attribute lists and element close
// ---------------------------------------------------------------------------

/// The attributes of an open tag, as `(name, value)` pairs in document order,
/// together with the position after the trailing whitespace.
pub open spec fn parse_attrs(s: Seq<char>, i: int) -> Option<(Seq<(Seq<char>, Seq<char>)>, int)>
    decreases s.len() - i,
{
    let j = skip_ws(s, i);
    if 0 <= j < s.len() && is_name_char(s[j]) {
        match parse_name(s, j) {
            Some((name, k)) => {
                let k2 = skip_ws(s, k);
                if 0 <= k2 < s.len() && s[k2] == '=' {
                    let k3 = skip_ws(s, k2 + 1);
                    if 0 <= k3 < s.len() && (s[k3] == '"' || s[k3] == '\'') {
                        match parse_value(s, k3 + 1, s[k3]) {
                            Some((val, k4)) => if i < k4 <= s.len() {
                                match parse_attrs(s, k4) {
                                    Some((rest, e)) => Some((seq![(name, val)] + rest, e)),
                                    None => None,
                                }
                            } else {
                                None
                            },
                            None => None,
                        }
                    } else {
                        None
                    }
                } else {
                    None
                }
            },
            None => None,
        }
    } else {
        Some((Seq::empty(), j))
    }
}

fn e_parse_attrs(s: &Vec<char>, i: usize) -> (r: Option<(Vec<(Vec<char>, Vec<char>)>, usize)>)
    requires
        i <= s@.len(),
    ensures
        match r {
            Some((attrs, j)) => parse_attrs(s@, i as int) == Some((attrs.deep_view(), j as int))
                && i <= j <= s@.len(),
            None => parse_attrs(s@, i as int) is None,
        },
    decreases s@.len() - i,
{
    let j = e_skip_ws(s, i);
    if j < s.len() && e_is_name_char(s[j]) {
        match e_parse_name(s, j) {
            Some((name, k)) => {
                let k2 = e_skip_ws(s, k);
                if k2 < s.len() && s[k2] == '=' {
                    let k3 = e_skip_ws(s, k2 + 1);
                    if k3 < s.len() && (s[k3] == '"' || s[k3] == '\'') {
                        match e_parse_value(s, k3 + 1, s[k3]) {
                            Some((val, k4)) => {
                                match e_parse_attrs(s, k4) {
                                    Some((rest, e)) => {
                                        let ghost rest0 = rest@;
                                        let ghost rest_deep = rest.deep_view();
                                        let mut attrs = rest;
                                        attrs.insert(0, (name, val));
                                        proof {
                                            let d = attrs.deep_view();
                                            let target = seq![(name@, val@)] + rest_deep;
                                            assert(attrs@ == rest0.insert(0, (name, val)));
                                            assert(d.len() == target.len());
                                            assert forall|m: int| 0 <= m < d.len() implies d[m]
                                                == target[m] by {
                                                if m == 0 {
                                                    assert(attrs@[0] == (name, val));
                                                    assert(name.deep_view() =~= name@);
                                                    assert(val.deep_view() =~= val@);
                                                } else {
                                                    assert(attrs@[m] == rest0[m - 1]);
                                                }
                                            }
                                            assert(d =~= target);
                                        }
                                        Some((attrs, e))
                                    },
                                    None => None,
                                }
                            },
                            None => None,
                        }
                    } else {
                        None
                    }
                } else {
                    None
                }
            },
            None => None,
        }
    } else {
        let attrs: Vec<(Vec<char>, Vec<char>)> = Vec::new();
        proof {
            assert(attrs.deep_view() =~= Seq::<(Seq<char>, Seq<char>)>::empty());
        }
        Some((attrs, j))
    }
}

} // verus!

verus! {

// ---------------------------------------------------------------------------
// comments, processing instructions, element skipping
// ---------------------------------------------------------------------------

/// Whether a comment opens at `i`.
pub open spec fn is_comment_start(s: Seq<char>, i: int) -> bool {
    matches_at(s, i, "<!--"@)
}

/// Whether a processing instruction (or the XML declaration) opens at `i`.
pub open spec fn is_pi_start(s: Seq<char>, i: int) -> bool {
    matches_at(s, i, "<?"@)
}

/// The position after the comment opening at `i`.
pub open spec fn skip_comment(s: Seq<char>, i: int) -> Option<int> {
    match find_3(s, i + 4, '-', '-', '>') {
        Some(p) => Some(p + 3),
        None => None,
    }
}

/// The position after the processing instruction opening at `i`.
pub open spec fn skip_pi(s: Seq<char>, i: int) -> Option<int> {
    match find_2(s, i + 2, '?', '>') {
        Some(p) => Some(p + 2),
        None => None,
    }
}

fn e_skip_comment(s: &Vec<char>, i: usize) -> (r: Option<usize>)
    requires
        is_comment_start(s@, i as int),
        i <= s@.len(),
    ensures
        match r {
            Some(j) => skip_comment(s@, i as int) == Some(j as int) && i < j <= s@.len(),
            None => skip_comment(s@, i as int) is None,
        },
{
    proof {
        reveal_strlit("<!--");
    }
    let n = s.len();
    proof {
        assert(n == s@.len());
    }
    match e_find_3(s, i + 4, '-', '-', '>') {
        Some(p) => Some(p + 3),
        None => None,
    }
}

fn e_skip_pi(s: &Vec<char>, i: usize) -> (r: Option<usize>)
    requires
        is_pi_start(s@, i as int),
        i <= s@.len(),
    ensures
        match r {
            Some(j) => skip_pi(s@, i as int) == Some(j as int) && i < j <= s@.len(),
            None => skip_pi(s@, i as int) is None,
        },
{
    proof {
        reveal_strlit("<?");
    }
    let n = s.len();
    proof {
        assert(n == s@.len());
    }
    match e_find_2(s, i + 2, '?', '>') {
        Some(p) => Some(p + 2),
        None => None,
    }
}

/// Skips a whole element opening at `i` (its `<` position), returning the
/// position after its close.
pub open spec fn skip_element(s: Seq<char>, i: int) -> Option<int>
    decreases s.len() - i, 0int,
{
    if 0 <= i < s.len() && s[i] == '<' {
        match parse_name(s, i + 1) {
            Some((name, j)) => match parse_attrs(s, j) {
                Some((attrs, k)) => match parse_elem_close(s, k) {
                    Some((true, e)) => Some(e),
                    Some((false, e)) => if i < e <= s.len() {
                        skip_children(s, e, name)
                    } else {
                        None
                    },
                    None => None,
                },
                None => None,
            },
            None => None,
        }
    } else {
        None
    }
}

/// Skips the content of an open element named `name`, children and all,
/// returning the position after the matching close tag.
pub open spec fn skip_children(s: Seq<char>, i: int, name: Seq<char>) -> Option<int>
    decreases s.len() - i, 1int,
{
    if !(0 <= i <= s.len()) {
        None
    } else {
        match find_char(s, i, '<') {
            Some(j) => if j < i || s.len() <= j {
                None
            } else if matches_at(s, j, "</"@) {
                match parse_name(s, j + 2) {
                    Some((nm, k)) => if nm == name {
                        let k2 = skip_ws(s, k);
                        if 0 <= k2 < s.len() && s[k2] == '>' {
                            Some(k2 + 1)
                        } else {
                            None
                        }
                    } else {
                        None
                    },
                    None => None,
                }
            } else if is_comment_start(s, j) {
                match skip_comment(s, j) {
                    Some(e) => if i < e <= s.len() {
                        skip_children(s, e, name)
                    } else {
                        None
                    },
                    None => None,
                }
            } else if is_pi_start(s, j) {
                match skip_pi(s, j) {
                    Some(e) => if i < e <= s.len() {
                        skip_children(s, e, name)
                    } else {
                        None
                    },
                    None => None,
                }
            } else {
                match skip_element(s, j) {
                    Some(e) => if i < e <= s.len() {
                        skip_children(s, e, name)
                    } else {
                        None
                    },
                    None => None,
                }
            },
            None => None,
        }
    }
}

/// Where a tag's attribute list ends: either `/>` or `>`, with a flag that
/// says which.
pub open spec fn parse_elem_close(s: Seq<char>, i: int) -> Option<(bool, int)> {
    if 0 <= i && i + 2 <= s.len() && s[i] == '/' && s[i + 1] == '>' {
        Some((true, i + 2))
    } else if 0 <= i < s.len() && s[i] == '>' {
        Some((false, i + 1))
    } else {
        None
    }
}

fn e_parse_elem_close(s: &Vec<char>, i: usize) -> (r: Option<(bool, usize)>)
    requires
        i <= s@.len(),
    ensures
        match r {
            Some((sc, j)) => parse_elem_close(s@, i as int) == Some((sc, j as int)) && i < j
                <= s@.len(),
            None => parse_elem_close(s@, i as int) is None,
        },
{
    let n = s.len();
    if i < n && s[i] == '/' {
        if i + 1 < n && s[i + 1] == '>' {
            Some((true, i + 2))
        } else {
            None
        }
    } else if i < n && s[i] == '>' {
        Some((false, i + 1))
    } else {
        None
    }
}

fn e_skip_element(s: &Vec<char>, i: usize) -> (r: Option<usize>)
    requires
        i <= s@.len(),
    ensures
        match r {
            Some(j) => skip_element(s@, i as int) == Some(j as int) && i < j <= s@.len(),
            None => skip_element(s@, i as int) is None,
        },
    decreases s@.len() - i, 0int,
{
    if !(i < s.len() && s[i] == '<') {
        return None;
    }
    match e_parse_name(s, i + 1) {
        Some((name, j)) => match e_parse_attrs(s, j) {
            Some((attrs, k)) => match e_parse_elem_close(s, k) {
                Some((true, e)) => Some(e),
                Some((false, e)) => e_skip_children(s, e, &name),
                None => None,
            },
            None => None,
        },
        None => None,
    }
}

fn e_skip_children(s: &Vec<char>, i: usize, name: &Vec<char>) -> (r: Option<usize>)
    requires
        i <= s@.len(),
    ensures
        match r {
            Some(j) => skip_children(s@, i as int, name@) == Some(j as int) && i < j <= s@.len(),
            None => skip_children(s@, i as int, name@) is None,
        },
    decreases s@.len() - i, 1int,
{
    let n = s.len();
    proof {
        assert(n == s@.len());
    }
    match e_find_char(s, i, '<') {
        Some(j) => {
            proof {
                reveal_strlit("</");
            }
            if e_match_at(s, j, "</") {
                match e_parse_name(s, j + 2) {
                    Some((nm, k)) => {
                        if chars_eq_chars(&nm, name) {
                            let k2 = e_skip_ws(s, k);
                            if k2 < s.len() && s[k2] == '>' {
                                Some(k2 + 1)
                            } else {
                                None
                            }
                        } else {
                            None
                        }
                    },
                    None => None,
                }
            } else if e_match_at(s, j, "<!--") {
                proof {
                    reveal_strlit("<!--");
                }
                match e_skip_comment(s, j) {
                    Some(e) => e_skip_children(s, e, name),
                    None => None,
                }
            } else if e_match_at(s, j, "<?") {
                proof {
                    reveal_strlit("<?");
                }
                match e_skip_pi(s, j) {
                    Some(e) => e_skip_children(s, e, name),
                    None => None,
                }
            } else {
                match e_skip_element(s, j) {
                    Some(e) => e_skip_children(s, e, name),
                    None => None,
                }
            }
        },
        None => None,
    }
}

/// Compares two character vectors.
pub fn chars_eq_chars(a: &Vec<char>, b: &Vec<char>) -> (r: bool)
    ensures
        r == (a@ == b@),
{
    if a.len() != b.len() {
        proof {
            assert(a@ != b@);
        }
        return false;
    }
    let mut k: usize = 0;
    while k < a.len()
        invariant
            a@.len() == b@.len(),
            k <= a@.len(),
            forall|m: int| 0 <= m < k ==> a@[m] == b@[m],
        decreases a@.len() - k,
    {
        if a[k] != b[k] {
            proof {
                assert(a@ != b@);
            }
            return false;
        }
        k = k + 1;
    }
    proof {
        assert(a@ =~= b@);
    }
    true
}

/// Compares a character vector against a string slice.
pub fn chars_eq_str(v: &Vec<char>, s: &str) -> (r: bool)
    ensures
        r == (v@ == s@),
{
    let n = s.unicode_len();
    if v.len() != n {
        proof {
            assert(v@ != s@);
        }
        return false;
    }
    let mut k: usize = 0;
    while k < n
        invariant
            n == s@.len(),
            v@.len() == n,
            k <= n,
            forall|m: int| 0 <= m < k ==> v@[m] == s@[m],
        decreases n - k,
    {
        if v[k] != s.get_char(k) {
            proof {
                assert(v@ != s@);
            }
            return false;
        }
        k = k + 1;
    }
    proof {
        assert(v@ =~= s@);
    }
    true
}

} // verus!

verus! {

// ---------------------------------------------------------------------------
// the manifest document model
// ---------------------------------------------------------------------------

/// The views of the elements of a sequence.
pub open spec fn views_of<T: View>(s: Seq<T>) -> Seq<T::V> {
    Seq::new(s.len(), |i: int| s[i]@)
}

/// Pushing onto a sequence pushes the view.
pub proof fn lemma_views_push<T: View>(s: Seq<T>, x: T)
    ensures
        views_of(s.push(x)) == views_of(s).push(x@),
{
    assert(views_of(s.push(x)) =~= views_of(s).push(x@));
}

/// The view of an optional value.
pub open spec fn opt_view<T: View>(o: Option<T>) -> Option<T::V> {
    match o {
        Some(t) => Some(t@),
        None => None,
    }
}

/// Mathematical image of a `GitRepoRemote`.
pub ghost struct RemoteModel {
    pub name: Seq<char>,
    pub fetch: Seq<char>,
    pub review: Option<Seq<char>>,
    pub default_ref: Option<Seq<char>>,
}

/// A `<remote>` element: a named alias for a hosting base URL with an
/// optional review URL and default revision.
#[derive(Debug)]
pub struct GitRepoRemote {
    pub name: String,
    pub fetch: String,
    pub review: Option<String>,
    pub default_ref: Option<String>,
}

impl View for GitRepoRemote {
    type V = RemoteModel;

    open spec fn view(&self) -> RemoteModel {
        RemoteModel {
            name: self.name@,
            fetch: self.fetch@,
            review: opt_view(self.review),
            default_ref: opt_view(self.default_ref),
        }
    }
}

/// Mathematical image of a `DefaultRemote`.
pub ghost struct DefaultRemoteModel {
    pub remote: Seq<char>,
    pub default_ref: Option<Seq<char>>,
    pub sync_c: Seq<char>,
    pub sync_j: Seq<char>,
}

/// The `<default>` element: the manifest-wide default remote and an optional
/// revision override.
#[derive(Debug)]
pub struct DefaultRemote {
    pub remote: String,
    pub default_ref: Option<String>,
    pub sync_c: String,
    pub sync_j: String,
}

impl View for DefaultRemote {
    type V = DefaultRemoteModel;

    open spec fn view(&self) -> DefaultRemoteModel {
        DefaultRemoteModel {
            remote: self.remote@,
            default_ref: opt_view(self.default_ref),
            sync_c: self.sync_c@,
            sync_j: self.sync_j@,
        }
    }
}

/// Mathematical image of a `FileEntry`.
pub ghost struct FileEntryModel {
    pub src: Seq<char>,
    pub dest: Seq<char>,
}

/// A `<linkfile>` or `<copyfile>` overlay entry.
#[derive(Debug)]
pub struct FileEntry {
    pub src: String,
    pub dest: String,
}

impl View for FileEntry {
    type V = FileEntryModel;

    open spec fn view(&self) -> FileEntryModel {
        FileEntryModel { src: self.src@, dest: self.dest@ }
    }
}

/// Mathematical image of a `ManifestProject`.
pub ghost struct ProjectModel {
    pub path: Seq<char>,
    pub repo_name: Seq<char>,
    pub groups: Option<Seq<char>>,
    pub remote: Option<Seq<char>>,
    pub git_ref: Option<Seq<char>>,
    pub linkfiles: Seq<FileEntryModel>,
    pub copyfiles: Seq<FileEntryModel>,
}

/// A `<project>` element with its overlay children.
#[derive(Debug)]
pub struct ManifestProject {
    pub path: String,
    pub repo_name: String,
    pub groups: Option<String>,
    pub remote: Option<String>,
    pub git_ref: Option<String>,
    pub linkfiles: Vec<FileEntry>,
    pub copyfiles: Vec<FileEntry>,
}

impl View for ManifestProject {
    type V = ProjectModel;

    open spec fn view(&self) -> ProjectModel {
        ProjectModel {
            path: self.path@,
            repo_name: self.repo_name@,
            groups: opt_view(self.groups),
            remote: opt_view(self.remote),
            git_ref: opt_view(self.git_ref),
            linkfiles: views_of(self.linkfiles@),
            copyfiles: views_of(self.copyfiles@),
        }
    }
}

/// Mathematical image of a `Manifest`.
pub ghost struct ManifestModel {
    pub remotes: Seq<RemoteModel>,
    pub default_remote: Option<DefaultRemoteModel>,
    pub projects: Seq<ProjectModel>,
    pub includes: Seq<Seq<char>>,
}

/// A parsed manifest document: remotes, at most one default remote,
/// projects, and the names of included documents.
#[derive(Debug)]
pub struct Manifest {
    pub remotes: Vec<GitRepoRemote>,
    pub default_remote: Option<DefaultRemote>,
    pub projects: Vec<ManifestProject>,
    pub includes: Vec<String>,
}

impl View for Manifest {
    type V = ManifestModel;

    open spec fn view(&self) -> ManifestModel {
        ManifestModel {
            remotes: views_of(self.remotes@),
            default_remote: opt_view(self.default_remote),
            projects: views_of(self.projects@),
            includes: views_of(self.includes@),
        }
    }
}

/// The flattened image of a document without any elements.
pub open spec fn empty_manifest() -> ManifestModel {
    ManifestModel {
        remotes: Seq::empty(),
        default_remote: None,
        projects: Seq::empty(),
        includes: Seq::empty(),
    }
}

} // verus!

verus! {

// ---------------------------------------------------------------------------
// attribute lookup and element builders
// ---------------------------------------------------------------------------

/// The value of the first attribute named `name`.
pub open spec fn attr_get(attrs: Seq<(Seq<char>, Seq<char>)>, name: Seq<char>) -> Option<
    Seq<char>,
>
    decreases attrs.len(),
{
    if attrs.len() == 0 {
        None
    } else if attrs.first().0 == name {
        Some(attrs.first().1)
    } else {
        attr_get(attrs.drop_first(), name)
    }
}

fn e_attr_get(attrs: &Vec<(Vec<char>, Vec<char>)>, name: &str) -> (r: Option<String>)
    ensures
        match r {
            Some(v) => attr_get(attrs.deep_view(), name@) == Some(v@),
            None => attr_get(attrs.deep_view(), name@) is None,
        },
{
    let ghost dv = attrs.deep_view();
    proof {
        assert(dv.skip(0) =~= dv);
    }
    let mut k: usize = 0;
    while k < attrs.len()
        invariant
            dv == attrs.deep_view(),
            k <= attrs@.len(),
            attr_get(dv, name@) == attr_get(dv.skip(k as int), name@),
        decreases attrs@.len() - k,
    {
        proof {
            assert(dv.skip(k as int).first() == dv[k as int]);
            assert(dv.skip(k as int).drop_first() =~= dv.skip(k + 1));
            assert(attrs@[k as int].0.deep_view() =~= attrs@[k as int].0@);
            assert(attrs@[k as int].1.deep_view() =~= attrs@[k as int].1@);
        }
        if chars_eq_str(&attrs[k].0, name) {
            let v = chars_to_string(attrs[k].1.as_slice());
            return Some(v);
        }
        k = k + 1;
    }
    proof {
        assert(dv.skip(attrs@.len() as int).len() == 0);
    }
    None
}

/// A `<remote>` from its attributes: `name` and `fetch` are required,
/// `review` and `revision` optional.
pub open spec fn remote_of_attrs(attrs: Seq<(Seq<char>, Seq<char>)>) -> Option<RemoteModel> {
    match attr_get(attrs, "name"@) {
        Some(n) => match attr_get(attrs, "fetch"@) {
            Some(f) => Some(
                RemoteModel {
                    name: n,
                    fetch: f,
                    review: attr_get(attrs, "review"@),
                    default_ref: attr_get(attrs, "revision"@),
                },
            ),
            None => None,
        },
        None => None,
    }
}

fn e_remote_of_attrs(attrs: &Vec<(Vec<char>, Vec<char>)>) -> (r: Option<GitRepoRemote>)
    ensures
        match r {
            Some(m) => remote_of_attrs(attrs.deep_view()) == Some(m@),
            None => remote_of_attrs(attrs.deep_view()) is None,
        },
{
    match e_attr_get(attrs, "name") {
        Some(n) => match e_attr_get(attrs, "fetch") {
            Some(f) => {
                let review = e_attr_get(attrs, "review");
                let default_ref = e_attr_get(attrs, "revision");
                Some(GitRepoRemote { name: n, fetch: f, review, default_ref })
            },
            None => None,
        },
        None => None,
    }
}

/// The `<default>` from its attributes: `remote`, `sync-c` and `sync-j` are
/// required, `revision` optional.
pub open spec fn default_of_attrs(attrs: Seq<(Seq<char>, Seq<char>)>) -> Option<
    DefaultRemoteModel,
> {
    match attr_get(attrs, "remote"@) {
        Some(rm) => match attr_get(attrs, "sync-c"@) {
            Some(sc) => match attr_get(attrs, "sync-j"@) {
                Some(sj) => Some(
                    DefaultRemoteModel {
                        remote: rm,
                        default_ref: attr_get(attrs, "revision"@),
                        sync_c: sc,
                        sync_j: sj,
                    },
                ),
                None => None,
            },
            None => None,
        },
        None => None,
    }
}

fn e_default_of_attrs(attrs: &Vec<(Vec<char>, Vec<char>)>) -> (r: Option<DefaultRemote>)
    ensures
        match r {
            Some(m) => default_of_attrs(attrs.deep_view()) == Some(m@),
            None => default_of_attrs(attrs.deep_view()) is None,
        },
{
    match e_attr_get(attrs, "remote") {
        Some(rm) => match e_attr_get(attrs, "sync-c") {
            Some(sc) => match e_attr_get(attrs, "sync-j") {
                Some(sj) => {
                    let default_ref = e_attr_get(attrs, "revision");
                    Some(DefaultRemote { remote: rm, default_ref, sync_c: sc, sync_j: sj })
                },
                None => None,
            },
            None => None,
        },
        None => None,
    }
}

/// A `<project>` from its attributes, overlays still empty: `path` and
/// `name` are required, `groups`, `remote` and `revision` optional.
pub open spec fn project_of_attrs(attrs: Seq<(Seq<char>, Seq<char>)>) -> Option<ProjectModel> {
    match attr_get(attrs, "path"@) {
        Some(p) => match attr_get(attrs, "name"@) {
            Some(n) => Some(
                ProjectModel {
                    path: p,
                    repo_name: n,
                    groups: attr_get(attrs, "groups"@),
                    remote: attr_get(attrs, "remote"@),
                    git_ref: attr_get(attrs, "revision"@),
                    linkfiles: Seq::empty(),
                    copyfiles: Seq::empty(),
                },
            ),
            None => None,
        },
        None => None,
    }
}

fn e_project_of_attrs(attrs: &Vec<(Vec<char>, Vec<char>)>) -> (r: Option<ManifestProject>)
    ensures
        match r {
            Some(m) => project_of_attrs(attrs.deep_view()) == Some(m@),
            None => project_of_attrs(attrs.deep_view()) is None,
        },
{
    match e_attr_get(attrs, "path") {
        Some(p) => match e_attr_get(attrs, "name") {
            Some(n) => {
                let groups = e_attr_get(attrs, "groups");
                let remote = e_attr_get(attrs, "remote");
                let git_ref = e_attr_get(attrs, "revision");
                let pr = ManifestProject {
                    path: p,
                    repo_name: n,
                    groups,
                    remote,
                    git_ref,
                    linkfiles: Vec::new(),
                    copyfiles: Vec::new(),
                };
                proof {
                    assert(views_of(pr.linkfiles@) =~= Seq::<FileEntryModel>::empty());
                    assert(views_of(pr.copyfiles@) =~= Seq::<FileEntryModel>::empty());
                }
                Some(pr)
            },
            None => None,
        },
        None => None,
    }
}

/// A `<linkfile>` or `<copyfile>` from its attributes: `src` and `dest` are
/// both required.
pub open spec fn fileentry_of_attrs(attrs: Seq<(Seq<char>, Seq<char>)>) -> Option<
    FileEntryModel,
> {
    match attr_get(attrs, "src"@) {
        Some(src) => match attr_get(attrs, "dest"@) {
            Some(dest) => Some(FileEntryModel { src, dest }),
            None => None,
        },
        None => None,
    }
}

fn e_fileentry_of_attrs(attrs: &Vec<(Vec<char>, Vec<char>)>) -> (r: Option<FileEntry>)
    ensures
        match r {
            Some(m) => fileentry_of_attrs(attrs.deep_view()) == Some(m@),
            None => fileentry_of_attrs(attrs.deep_view()) is None,
        },
{
    match e_attr_get(attrs, "src") {
        Some(src) => match e_attr_get(attrs, "dest") {
            Some(dest) => Some(FileEntry { src, dest }),
            None => None,
        },
        None => None,
    }
}

} // verus!

verus! {

// ---------------------------------------------------------------------------
// the document parser
// ---------------------------------------------------------------------------

/// Skips whitespace, comments and processing instructions.
pub open spec fn skip_misc(s: Seq<char>, i: int) -> int
    decreases s.len() - i,
{
    let j = skip_ws(s, i);
    if j < i || s.len() < j {
        j
    } else if is_comment_start(s, j) {
        match skip_comment(s, j) {
            Some(e) => if i < e <= s.len() {
                skip_misc(s, e)
            } else {
                j
            },
            None => j,
        }
    } else if is_pi_start(s, j) {
        match skip_pi(s, j) {
            Some(e) => if i < e <= s.len() {
                skip_misc(s, e)
            } else {
                j
            },
            None => j,
        }
    } else {
        j
    }
}

fn e_skip_misc(s: &Vec<char>, i: usize) -> (r: usize)
    requires
        i <= s@.len(),
    ensures
        r as int == skip_misc(s@, i as int),
        i <= r <= s@.len(),
    decreases s@.len() - i,
{
    let j = e_skip_ws(s, i);
    proof {
        reveal_strlit("<!--");
        reveal_strlit("<?");
    }
    if e_match_at(s, j, "<!--") {
        match e_skip_comment(s, j) {
            Some(e) => e_skip_misc(s, e),
            None => j,
        }
    } else if e_match_at(s, j, "<?") {
        match e_skip_pi(s, j) {
            Some(e) => e_skip_misc(s, e),
            None => j,
        }
    } else {
        j
    }
}

/// The overlay children of an open `<project>` element, up to its close tag:
/// linkfiles and copyfiles in document order, everything else skipped.
pub open spec fn parse_project_children(
    s: Seq<char>,
    i: int,
    lfs: Seq<FileEntryModel>,
    cfs: Seq<FileEntryModel>,
) -> Option<(Seq<FileEntryModel>, Seq<FileEntryModel>, int)>
    decreases s.len() - i,
{
    if !(0 <= i <= s.len()) {
        None
    } else {
        match find_char(s, i, '<') {
            Some(j) => if j < i || s.len() <= j {
                None
            } else if matches_at(s, j, "</"@) {
                match parse_name(s, j + 2) {
                    Some((nm, k)) => if nm == "project"@ {
                        let k2 = skip_ws(s, k);
                        if 0 <= k2 < s.len() && s[k2] == '>' {
                            Some((lfs, cfs, k2 + 1))
                        } else {
                            None
                        }
                    } else {
                        None
                    },
                    None => None,
                }
            } else if is_comment_start(s, j) {
                match skip_comment(s, j) {
                    Some(e) => if i < e <= s.len() {
                        parse_project_children(s, e, lfs, cfs)
                    } else {
                        None
                    },
                    None => None,
                }
            } else if is_pi_start(s, j) {
                match skip_pi(s, j) {
                    Some(e) => if i < e <= s.len() {
                        parse_project_children(s, e, lfs, cfs)
                    } else {
                        None
                    },
                    None => None,
                }
            } else {
                match parse_name(s, j + 1) {
                    Some((nm, p)) => match parse_attrs(s, p) {
                        Some((attrs, k)) => match parse_elem_close(s, k) {
                            Some((selfc, e0)) => {
                                let end = if selfc {
                                    Some(e0)
                                } else {
                                    skip_element(s, j)
                                };
                                match end {
                                    Some(e) => if i < e <= s.len() {
                                        if nm == "linkfile"@ {
                                            match fileentry_of_attrs(attrs) {
                                                Some(fe) => parse_project_children(
                                                    s,
                                                    e,
                                                    lfs.push(fe),
                                                    cfs,
                                                ),
                                                None => None,
                                            }
                                        } else if nm == "copyfile"@ {
                                            match fileentry_of_attrs(attrs) {
                                                Some(fe) => parse_project_children(
                                                    s,
                                                    e,
                                                    lfs,
                                                    cfs.push(fe),
                                                ),
                                                None => None,
                                            }
                                        } else {
                                            parse_project_children(s, e, lfs, cfs)
                                        }
                                    } else {
                                        None
                                    },
                                    None => None,
                                }
                            },
                            None => None,
                        },
                        None => None,
                    },
                    None => None,
                }
            },
            None => None,
        }
    }
}

fn e_parse_project_children(
    s: &Vec<char>,
    i: usize,
    lfs: Vec<FileEntry>,
    cfs: Vec<FileEntry>,
) -> (r: Option<(Vec<FileEntry>, Vec<FileEntry>, usize)>)
    requires
        i <= s@.len(),
    ensures
        match r {
            Some((l2, c2, j)) => parse_project_children(
                s@,
                i as int,
                views_of(lfs@),
                views_of(cfs@),
            ) == Some((views_of(l2@), views_of(c2@), j as int)) && i < j <= s@.len(),
            None => parse_project_children(s@, i as int, views_of(lfs@), views_of(cfs@)) is None,
        },
    decreases s@.len() - i,
{
    let n = s.len();
    proof {
        assert(n == s@.len());
        reveal_strlit("</");
        reveal_strlit("<!--");
        reveal_strlit("<?");
    }
    match e_find_char(s, i, '<') {
        Some(j) => {
            if e_match_at(s, j, "</") {
                match e_parse_name(s, j + 2) {
                    Some((nm, k)) => {
                        if chars_eq_str(&nm, "project") {
                            let k2 = e_skip_ws(s, k);
                            if k2 < n && s[k2] == '>' {
                                Some((lfs, cfs, k2 + 1))
                            } else {
                                None
                            }
                        } else {
                            None
                        }
                    },
                    None => None,
                }
            } else if e_match_at(s, j, "<!--") {
                match e_skip_comment(s, j) {
                    Some(e) => e_parse_project_children(s, e, lfs, cfs),
                    None => None,
                }
            } else if e_match_at(s, j, "<?") {
                match e_skip_pi(s, j) {
                    Some(e) => e_parse_project_children(s, e, lfs, cfs),
                    None => None,
                }
            } else {
                match e_parse_name(s, j + 1) {
                    Some((nm, p)) => match e_parse_attrs(s, p) {
                        Some((attrs, k)) => match e_parse_elem_close(s, k) {
                            Some((selfc, e0)) => {
                                let end = if selfc {
                                    Some(e0)
                                } else {
                                    e_skip_element(s, j)
                                };
                                match end {
                                    Some(e) => {
                                        if chars_eq_str(&nm, "linkfile") {
                                            match e_fileentry_of_attrs(&attrs) {
                                                Some(fe) => {
                                                    let ghost lv = views_of(lfs@);
                                                    let ghost fev = fe@;
                                                    let mut lfs2 = lfs;
                                                    lfs2.push(fe);
                                                    proof {
                                                        lemma_views_push(lfs2@.drop_last(), lfs2@.last());
                                                        assert(lfs2@.drop_last() =~= lfs@);
                                                        assert(views_of(lfs2@) =~= lv.push(fev));
                                                    }
                                                    e_parse_project_children(s, e, lfs2, cfs)
                                                },
                                                None => None,
                                            }
                                        } else if chars_eq_str(&nm, "copyfile") {
                                            match e_fileentry_of_attrs(&attrs) {
                                                Some(fe) => {
                                                    let ghost cv = views_of(cfs@);
                                                    let ghost fev = fe@;
                                                    let mut cfs2 = cfs;
                                                    cfs2.push(fe);
                                                    proof {
                                                        lemma_views_push(cfs2@.drop_last(), cfs2@.last());
                                                        assert(cfs2@.drop_last() =~= cfs@);
                                                        assert(views_of(cfs2@) =~= cv.push(fev));
                                                    }
                                                    e_parse_project_children(s, e, lfs, cfs2)
                                                },
                                                None => None,
                                            }
                                        } else {
                                            e_parse_project_children(s, e, lfs, cfs)
                                        }
                                    },
                                    None => None,
                                }
                            },
                            None => None,
                        },
                        None => None,
                    },
                    None => None,
                }
            }
        },
        None => None,
    }
}

} // verus!

verus! {

/// The children of the open `<manifest>` element, folded into `m`, up to the
/// close tag.
pub open spec fn parse_children(s: Seq<char>, i: int, m: ManifestModel) -> Option<
    (ManifestModel, int),
>
    decreases s.len() - i,
{
    if !(0 <= i <= s.len()) {
        None
    } else {
        match find_char(s, i, '<') {
            Some(j) => if j < i || s.len() <= j {
                None
            } else if matches_at(s, j, "</"@) {
                match parse_name(s, j + 2) {
                    Some((nm, k)) => if nm == "manifest"@ {
                        let k2 = skip_ws(s, k);
                        if 0 <= k2 < s.len() && s[k2] == '>' {
                            Some((m, k2 + 1))
                        } else {
                            None
                        }
                    } else {
                        None
                    },
                    None => None,
                }
            } else if is_comment_start(s, j) {
                match skip_comment(s, j) {
                    Some(e) => if i < e <= s.len() {
                        parse_children(s, e, m)
                    } else {
                        None
                    },
                    None => None,
                }
            } else if is_pi_start(s, j) {
                match skip_pi(s, j) {
                    Some(e) => if i < e <= s.len() {
                        parse_children(s, e, m)
                    } else {
                        None
                    },
                    None => None,
                }
            } else {
                match parse_name(s, j + 1) {
                    Some((nm, p)) => match parse_attrs(s, p) {
                        Some((attrs, k)) => match parse_elem_close(s, k) {
                            Some((selfc, e0)) => if nm == "project"@ {
                                match project_of_attrs(attrs) {
                                    Some(pm) => if selfc {
                                        if i < e0 <= s.len() {
                                            parse_children(
                                                s,
                                                e0,
                                                ManifestModel { projects: m.projects.push(pm), ..m },
                                            )
                                        } else {
                                            None
                                        }
                                    } else {
                                        match parse_project_children(
                                            s,
                                            e0,
                                            Seq::empty(),
                                            Seq::empty(),
                                        ) {
                                            Some((lfs, cfs, e)) => if i < e <= s.len() {
                                                parse_children(
                                                    s,
                                                    e,
                                                    ManifestModel {
                                                        projects: m.projects.push(
                                                            ProjectModel {
                                                                linkfiles: lfs,
                                                                copyfiles: cfs,
                                                                ..pm
                                                            },
                                                        ),
                                                        ..m
                                                    },
                                                )
                                            } else {
                                                None
                                            },
                                            None => None,
                                        }
                                    },
                                    None => None,
                                }
                            } else {
                                let end = if selfc {
                                    Some(e0)
                                } else {
                                    skip_element(s, j)
                                };
                                match end {
                                    Some(e) => if i < e <= s.len() {
                                        if nm == "remote"@ {
                                            match remote_of_attrs(attrs) {
                                                Some(rm) => parse_children(
                                                    s,
                                                    e,
                                                    ManifestModel {
                                                        remotes: m.remotes.push(rm),
                                                        ..m
                                                    },
                                                ),
                                                None => None,
                                            }
                                        } else if nm == "default"@ {
                                            if m.default_remote is Some {
                                                None
                                            } else {
                                                match default_of_attrs(attrs) {
                                                    Some(dm) => parse_children(
                                                        s,
                                                        e,
                                                        ManifestModel {
                                                            default_remote: Some(dm),
                                                            ..m
                                                        },
                                                    ),
                                                    None => None,
                                                }
                                            }
                                        } else if nm == "include"@ {
                                            match attr_get(attrs, "name"@) {
                                                Some(inc) => parse_children(
                                                    s,
                                                    e,
                                                    ManifestModel {
                                                        includes: m.includes.push(inc),
                                                        ..m
                                                    },
                                                ),
                                                None => None,
                                            }
                                        } else {
                                            parse_children(s, e, m)
                                        }
                                    } else {
                                        None
                                    },
                                    None => None,
                                }
                            },
                            None => None,
                        },
                        None => None,
                    },
                    None => None,
                }
            },
            None => None,
        }
    }
}

/// The whole document: optional prolog and comments, one `<manifest>`
/// element, trailing comments, nothing else.
pub open spec fn parse_manifest_spec(s: Seq<char>) -> Option<ManifestModel> {
    let i = skip_misc(s, 0);
    if 0 <= i < s.len() && s[i] == '<' {
        match parse_name(s, i + 1) {
            Some((nm, p)) => if nm == "manifest"@ {
                match parse_attrs(s, p) {
                    Some((attrs, k)) => match parse_elem_close(s, k) {
                        Some((true, e)) => if 0 <= e <= s.len() && skip_misc(s, e) == s.len() {
                            Some(empty_manifest())
                        } else {
                            None
                        },
                        Some((false, e)) => if 0 <= e <= s.len() {
                            match parse_children(s, e, empty_manifest()) {
                                Some((m, e2)) => if 0 <= e2 <= s.len() && skip_misc(s, e2)
                                    == s.len() {
                                    Some(m)
                                } else {
                                    None
                                },
                                None => None,
                            }
                        } else {
                            None
                        },
                        None => None,
                    },
                    None => None,
                }
            } else {
                None
            },
            None => None,
        }
    } else {
        None
    }
}

fn e_parse_children(s: &Vec<char>, i: usize, m: Manifest) -> (r: Option<(Manifest, usize)>)
    requires
        i <= s@.len(),
    ensures
        match r {
            Some((m2, j)) => parse_children(s@, i as int, m@) == Some((m2@, j as int)) && i < j
                <= s@.len(),
            None => parse_children(s@, i as int, m@) is None,
        },
    decreases s@.len() - i,
{
    let n = s.len();
    proof {
        assert(n == s@.len());
        reveal_strlit("</");
        reveal_strlit("<!--");
        reveal_strlit("<?");
    }
    match e_find_char(s, i, '<') {
        Some(j) => {
            if e_match_at(s, j, "</") {
                match e_parse_name(s, j + 2) {
                    Some((nm, k)) => {
                        if chars_eq_str(&nm, "manifest") {
                            let k2 = e_skip_ws(s, k);
                            if k2 < n && s[k2] == '>' {
                                Some((m, k2 + 1))
                            } else {
                                None
                            }
                        } else {
                            None
                        }
                    },
                    None => None,
                }
            } else if e_match_at(s, j, "<!--") {
                match e_skip_comment(s, j) {
                    Some(e) => e_parse_children(s, e, m),
                    None => None,
                }
            } else if e_match_at(s, j, "<?") {
                match e_skip_pi(s, j) {
                    Some(e) => e_parse_children(s, e, m),
                    None => None,
                }
            } else {
                match e_parse_name(s, j + 1) {
                    Some((nm, p)) => match e_parse_attrs(s, p) {
                        Some((attrs, k)) => match e_parse_elem_close(s, k) {
                            Some((selfc, e0)) => {
                                if chars_eq_str(&nm, "project") {
                                    match e_project_of_attrs(&attrs) {
                                        Some(pr) => {
                                            if selfc {
                                                let ghost mv = m@;
                                                let ghost prv = pr@;
                                                let mut m2 = m;
                                                m2.projects.push(pr);
                                                proof {
                                                    lemma_views_push(
                                                        m2.projects@.drop_last(),
                                                        m2.projects@.last(),
                                                    );
                                                    assert(m2.projects@.drop_last() =~= m.projects@);
                                                    assert(m2@ == ManifestModel {
                                                        projects: mv.projects.push(prv),
                                                        ..mv
                                                    });
                                                }
                                                e_parse_children(s, e0, m2)
                                            } else {
                                                let lfs0: Vec<FileEntry> = Vec::new();
                                                let cfs0: Vec<FileEntry> = Vec::new();
                                                proof {
                                                    assert(views_of(lfs0@)
                                                        =~= Seq::<FileEntryModel>::empty());
                                                    assert(views_of(cfs0@)
                                                        =~= Seq::<FileEntryModel>::empty());
                                                }
                                                match e_parse_project_children(
                                                    s,
                                                    e0,
                                                    lfs0,
                                                    cfs0,
                                                ) {
                                                    Some((lfs, cfs, e)) => {
                                                        let ghost mv = m@;
                                                        let ghost prv = pr@;
                                                        let ghost lv = views_of(lfs@);
                                                        let ghost cv = views_of(cfs@);
                                                        let mut pr2 = pr;
                                                        pr2.linkfiles = lfs;
                                                        pr2.copyfiles = cfs;
                                                        proof {
                                                            assert(pr2@ == ProjectModel {
                                                                linkfiles: lv,
                                                                copyfiles: cv,
                                                                ..prv
                                                            });
                                                        }
                                                        let ghost pr2v = pr2@;
                                                        let mut m2 = m;
                                                        m2.projects.push(pr2);
                                                        proof {
                                                            lemma_views_push(
                                                                m2.projects@.drop_last(),
                                                                m2.projects@.last(),
                                                            );
                                                            assert(m2.projects@.drop_last()
                                                                =~= m.projects@);
                                                            assert(m2@ == ManifestModel {
                                                                projects: mv.projects.push(pr2v),
                                                                ..mv
                                                            });
                                                            assert(views_of(Seq::<FileEntry>::empty())
                                                                =~= Seq::<FileEntryModel>::empty());
                                                        }
                                                        e_parse_children(s, e, m2)
                                                    },
                                                    None => None,
                                                }
                                            }
                                        },
                                        None => None,
                                    }
                                } else {
                                    let end = if selfc {
                                        Some(e0)
                                    } else {
                                        e_skip_element(s, j)
                                    };
                                    match end {
                                        Some(e) => {
                                            if chars_eq_str(&nm, "remote") {
                                                match e_remote_of_attrs(&attrs) {
                                                    Some(rm) => {
                                                        let ghost mv = m@;
                                                        let ghost rv = rm@;
                                                        let mut m2 = m;
                                                        m2.remotes.push(rm);
                                                        proof {
                                                            lemma_views_push(
                                                                m2.remotes@.drop_last(),
                                                                m2.remotes@.last(),
                                                            );
                                                            assert(m2.remotes@.drop_last()
                                                                =~= m.remotes@);
                                                            assert(m2@ == ManifestModel {
                                                                remotes: mv.remotes.push(rv),
                                                                ..mv
                                                            });
                                                        }
                                                        e_parse_children(s, e, m2)
                                                    },
                                                    None => None,
                                                }
                                            } else if chars_eq_str(&nm, "default") {
                                                if m.default_remote.is_some() {
                                                    None
                                                } else {
                                                    match e_default_of_attrs(&attrs) {
                                                        Some(dm) => {
                                                            let ghost mv = m@;
                                                            let ghost dv = dm@;
                                                            let mut m2 = m;
                                                            m2.default_remote = Some(dm);
                                                            proof {
                                                                assert(m2@ == ManifestModel {
                                                                    default_remote: Some(dv),
                                                                    ..mv
                                                                });
                                                            }
                                                            e_parse_children(s, e, m2)
                                                        },
                                                        None => None,
                                                    }
                                                }
                                            } else if chars_eq_str(&nm, "include") {
                                                match e_attr_get(&attrs, "name") {
                                                    Some(inc) => {
                                                        let ghost mv = m@;
                                                        let ghost iv = inc@;
                                                        let mut m2 = m;
                                                        m2.includes.push(inc);
                                                        proof {
                                                            lemma_views_push(
                                                                m2.includes@.drop_last(),
                                                                m2.includes@.last(),
                                                            );
                                                            assert(m2.includes@.drop_last()
                                                                =~= m.includes@);
                                                            assert(m2@ == ManifestModel {
                                                                includes: mv.includes.push(iv),
                                                                ..mv
                                                            });
                                                        }
                                                        e_parse_children(s, e, m2)
                                                    },
                                                    None => None,
                                                }
                                            } else {
                                                e_parse_children(s, e, m)
                                            }
                                        },
                                        None => None,
                                    }
                                }
                            },
                            None => None,
                        },
                        None => None,
                    },
                    None => None,
                }
            }
        },
        None => None,
    }
}

/// Parses a manifest document.  Returns the flattened element content, or
/// nothing when the text is not a well-formed document of this dialect.
pub fn parse_manifest(doc: &str) -> (r: Option<Manifest>)
    ensures
        match r {
            Some(m) => parse_manifest_spec(doc@) == Some(m@),
            None => parse_manifest_spec(doc@) is None,
        },
{
    let s = str_to_chars(doc);
    let n = s.len();
    proof {
        assert(n == doc@.len());
        reveal_strlit("manifest");
    }
    let i = e_skip_misc(&s, 0);
    if !(i < n && s[i] == '<') {
        return None;
    }
    match e_parse_name(&s, i + 1) {
        Some((nm, p)) => {
            if !chars_eq_str(&nm, "manifest") {
                return None;
            }
            match e_parse_attrs(&s, p) {
                Some((attrs, k)) => match e_parse_elem_close(&s, k) {
                    Some((true, e)) => {
                        if e_skip_misc(&s, e) == n {
                            let m = Manifest {
                                remotes: Vec::new(),
                                default_remote: None,
                                projects: Vec::new(),
                                includes: Vec::new(),
                            };
                            proof {
                                assert(views_of(m.remotes@) =~= Seq::<RemoteModel>::empty());
                                assert(views_of(m.projects@) =~= Seq::<ProjectModel>::empty());
                                assert(views_of(m.includes@) =~= Seq::<Seq<char>>::empty());
                                assert(m@ == empty_manifest());
                            }
                            Some(m)
                        } else {
                            None
                        }
                    },
                    Some((false, e)) => {
                        let m0 = Manifest {
                            remotes: Vec::new(),
                            default_remote: None,
                            projects: Vec::new(),
                            includes: Vec::new(),
                        };
                        proof {
                            assert(views_of(m0.remotes@) =~= Seq::<RemoteModel>::empty());
                            assert(views_of(m0.projects@) =~= Seq::<ProjectModel>::empty());
                            assert(views_of(m0.includes@) =~= Seq::<Seq<char>>::empty());
                            assert(m0@ == empty_manifest());
                        }
                        match e_parse_children(&s, e, m0) {
                            Some((m, e2)) => {
                                if e_skip_misc(&s, e2) == n {
                                    Some(m)
                                } else {
                                    None
                                }
                            },
                            None => None,
                        }
                    },
                    None => None,
                },
                None => None,
            }
        },
        None => None,
    }
}

} // verus!
