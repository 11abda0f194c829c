use vstd::prelude::*;

verus! {

/// The lowercase mapping of a code point, as Unicode defines it: one code
/// point or more.
pub uninterp spec fn lowercase_of(c: char) -> Seq<char>;

/// Whether a code point has the Unicode property `Uppercase`.
pub uninterp spec fn uppercase_letter(c: char) -> bool;

/// Whether a code point has the Unicode property `Lowercase`.
pub uninterp spec fn lowercase_letter(c: char) -> bool;

/// Two code points are the same letter when their lowercase mappings agree.
pub open spec fn folds_equal(a: char, b: char) -> bool {
    lowercase_of(a) == lowercase_of(b)
}

/// `char::is_uppercase` of std: the answer is a fixed property of the code
/// point, which `uppercase_letter` names.
pub assume_specification[ char::is_uppercase ](c: char) -> (r: bool)
    ensures
        r == uppercase_letter(c),
;

/// `char::is_lowercase` of std: the answer is a fixed property of the code
/// point, which `lowercase_letter` names.
pub assume_specification[ char::is_lowercase ](c: char) -> (r: bool)
    ensures
        r == lowercase_letter(c),
;

/// `char::to_lowercase` of std, with the code points it yields gathered in a
/// vector: they are the lowercase mapping that `lowercase_of` names.
#[verifier::external_body]
pub(crate) fn lowercase(c: char) -> (r: Vec<char>)
    ensures
        r@ == lowercase_of(c),
{
    c.to_lowercase().collect()
}

/// Whether two vectors hold the same code points in the same order.
pub fn same_chars(a: &Vec<char>, b: &Vec<char>) -> (r: bool)
    ensures
        r == (a@ == b@),
{
    if a.len() != b.len() {
        return false;
    }
    let mut k: usize = 0;
    while k < a.len()
        invariant
            a.len() == b.len(),
            k <= a.len(),
            a@.take(k as int) == b@.take(k as int),
        decreases a.len() - k,
    {
        if a[k] != b[k] {
            return false;
        }
        proof {
            assert(a@.take(k + 1) == a@.take(k as int).push(a@[k as int]));
            assert(b@.take(k + 1) == b@.take(k as int).push(b@[k as int]));
        }
        k += 1;
    }
    proof {
        assert(a@.take(a.len() as int) == a@);
        assert(b@.take(b.len() as int) == b@);
    }
    true
}

/// `folded` holds the lowercase mapping of each code point of `s`, in order.
pub open spec fn is_folding_of(folded: Seq<Vec<char>>, s: Seq<char>) -> bool {
    &&& folded.len() == s.len()
    &&& forall|k: int| 0 <= k < s.len() ==> (#[trigger] folded[k])@ == lowercase_of(s[k])
}

/// The lowercase mapping of each code point of `s`, in order.
pub fn fold_text(s: &str) -> (r: Vec<Vec<char>>)
    ensures
        is_folding_of(r@, s@),
{
    let mut out: Vec<Vec<char>> = Vec::new();
    for c in it: s.chars()
        invariant
            it.seq() == s@,
            is_folding_of(out@, s@.take(it.index() as int)),
    {
        out.push(lowercase(c));
    }
    out
}

} // verus!
