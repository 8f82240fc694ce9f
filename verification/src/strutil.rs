//! Character-level string utilities shared by the manifest parser,
//! the registry parser and the URL arithmetic.

use vstd::prelude::*;

verus! {

/// Relies on `String::push`: appends the given character to the end of the string.
#[verifier::external_body]
pub(crate) fn push_char(s: &mut String, c: char)
    ensures
        final(s)@ == old(s)@.push(c),
{
    s.push(c)
}

/// Builds an owned string out of a character vector.
pub fn chars_to_string(v: &[char]) -> (s: String)
    ensures
        s@ == v@,
{
    let mut s = String::new();
    let mut i: usize = 0;
    while i < v.len()
        invariant
            i <= v@.len(),
            s@ == v@.subrange(0, i as int),
        decreases v@.len() - i,
    {
        push_char(&mut s, v[i]);
        i = i + 1;
        proof {
            assert(s@ =~= v@.subrange(0, i as int));
        }
    }
    proof {
        assert(s@ =~= v@);
    }
    s
}

/// Copies a string slice into a character vector.
pub fn str_to_chars(s: &str) -> (v: Vec<char>)
    ensures
        v@ == s@,
{
    let n = s.unicode_len();
    let mut v: Vec<char> = Vec::new();
    let mut i: usize = 0;
    while i < n
        invariant
            n == s@.len(),
            i <= n,
            v@ == s@.subrange(0, i as int),
        decreases n - i,
    {
        v.push(s.get_char(i));
        i = i + 1;
        proof {
            assert(v@ =~= s@.subrange(0, i as int));
        }
    }
    proof {
        assert(v@ =~= s@);
    }
    v
}

/// Compares two string slices character by character.
pub fn str_eq(a: &str, b: &str) -> (r: bool)
    ensures
        r == (a@ == b@),
{
    let na = a.unicode_len();
    let nb = b.unicode_len();
    if na != nb {
        proof {
            assert(a@ != b@);
        }
        return false;
    }
    let mut i: usize = 0;
    while i < na
        invariant
            na == a@.len(),
            na == b@.len(),
            i <= na,
            forall|j: int| 0 <= j < i ==> a@[j] == b@[j],
        decreases na - i,
    {
        if a.get_char(i) != b.get_char(i) {
            proof {
                assert(a@ != b@);
            }
            return false;
        }
        i = i + 1;
    }
    proof {
        assert(a@ =~= b@);
    }
    true
}

/// Joins the given pieces with a separator character:
/// empty for no pieces, else piece 0, then for each further piece
/// the separator followed by that piece.
pub open spec fn spec_join(pieces: Seq<Seq<char>>, sep: char) -> Seq<char>
    decreases pieces.len(),
{
    if pieces.len() == 0 {
        Seq::empty()
    } else if pieces.len() == 1 {
        pieces[0]
    } else {
        spec_join(pieces.drop_last(), sep).push(sep) + pieces.last()
    }
}

/// Concatenates the pieces with the separator between each pair of neighbours.
pub fn concat_with_sep(pieces: &Vec<String>, sep: char) -> (r: String)
    ensures
        r@ == spec_join(pieces.deep_view(), sep),
{
    let mut r = String::new();
    let mut i: usize = 0;
    while i < pieces.len()
        invariant
            i <= pieces@.len(),
            r@ == spec_join(pieces.deep_view().subrange(0, i as int), sep),
        decreases pieces@.len() - i,
    {
        if i > 0 {
            push_char(&mut r, sep);
        }
        let mut j: usize = 0;
        let piece: &str = pieces[i].as_str();
        let m = piece.unicode_len();
        while j < m
            invariant
                m == piece@.len(),
                j <= m,
                i < pieces@.len(),
                piece@ == pieces.deep_view()[i as int],
                i == 0 ==> r@ == spec_join(pieces.deep_view().subrange(0, i as int), sep) + piece@.subrange(0, j as int),
                i > 0 ==> r@ == spec_join(pieces.deep_view().subrange(0, i as int), sep).push(sep) + piece@.subrange(0, j as int),
            decreases m - j,
        {
            push_char(&mut r, piece.get_char(j));
            j = j + 1;
            proof {
                if i == 0 {
                    assert(r@ =~= spec_join(pieces.deep_view().subrange(0, i as int), sep) + piece@.subrange(0, j as int));
                } else {
                    assert(r@ =~= spec_join(pieces.deep_view().subrange(0, i as int), sep).push(sep) + piece@.subrange(0, j as int));
                }
            }
        }
        i = i + 1;
        proof {
            let pre = pieces.deep_view().subrange(0, i as int);
            assert(pre.drop_last() =~= pieces.deep_view().subrange(0, i - 1));
            assert(pre.last() == piece@);
            assert(piece@.subrange(0, piece@.len() as int) =~= piece@);
            if i - 1 == 0 {
                assert(r@ =~= spec_join(pre, sep));
            } else {
                assert(r@ =~= spec_join(pre, sep));
            }
        }
    }
    proof {
        assert(pieces.deep_view().subrange(0, pieces.deep_view().len() as int) =~= pieces.deep_view());
    }
    r
}

} // verus!

verus! {

/// The pieces of `s` from position `i` on, split at every occurrence of
/// `sep`; one piece more than there are separators.
pub open spec fn spec_split_from(s: Seq<char>, i: int, sep: char) -> Seq<Seq<char>>
    decreases s.len() - i,
{
    match crate::xml::find_char(s, i, sep) {
        Some(j) => if i <= j < s.len() {
            seq![s.subrange(i, j)] + spec_split_from(s, j + 1, sep)
        } else {
            seq![s.subrange(i, s.len() as int)]
        },
        None => seq![s.subrange(i, s.len() as int)],
    }
}

/// The pieces of `s` split at every occurrence of `sep`.
pub open spec fn spec_split(s: Seq<char>, sep: char) -> Seq<Seq<char>> {
    spec_split_from(s, 0, sep)
}

fn e_split_from(s: &Vec<char>, i: usize, sep: char) -> (r: Vec<String>)
    requires
        i <= s@.len(),
    ensures
        r.deep_view() == spec_split_from(s@, i as int, sep),
        r@.len() >= 1,
    decreases s@.len() - i,
{
    let n = s.len();
    proof {
        assert(n == s@.len());
    }
    match crate::xml::e_find_char(s, i, sep) {
        Some(j) => {
            let part = chars_to_string(vstd::slice::slice_subrange(s.as_slice(), i, j));
            let rest = e_split_from(s, j + 1, sep);
            let ghost rest_deep = rest.deep_view();
            let mut r = rest;
            r.insert(0, part);
            proof {
                let d = r.deep_view();
                let target = seq![s@.subrange(i as int, j as int)] + rest_deep;
                assert forall|m: int| 0 <= m < d.len() implies d[m] == target[m] by {
                    if m == 0 {
                        assert(r@[0].deep_view() =~= s@.subrange(i as int, j as int));
                    }
                }
                assert(d =~= target);
            }
            r
        },
        None => {
            let part = chars_to_string(vstd::slice::slice_subrange(s.as_slice(), i, s.len()));
            let mut r: Vec<String> = Vec::new();
            r.push(part);
            proof {
                assert(r@[0].deep_view() =~= s@.subrange(i as int, s@.len() as int));
                assert(r.deep_view() =~= seq![s@.subrange(i as int, s@.len() as int)]);
            }
            r
        },
    }
}

/// Splits a string at every occurrence of `sep`.
pub fn split_str(s: &str, sep: char) -> (r: Vec<String>)
    ensures
        r.deep_view() == spec_split(s@, sep),
        r@.len() >= 1,
{
    let v = str_to_chars(s);
    e_split_from(&v, 0, sep)
}

} // verus!

verus! {

/// Splits a character vector at every occurrence of `sep`.
pub fn split_chars(s: &Vec<char>, sep: char) -> (r: Vec<String>)
    ensures
        r.deep_view() == spec_split(s@, sep),
        r@.len() >= 1,
{
    e_split_from(s, 0, sep)
}

} // verus!
