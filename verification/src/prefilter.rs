use crate::model::{is_alignment, subsequence_match};
use crate::search_item::SearchItem;
use crate::text::{folds_equal, lowercase, lowercase_of, same_chars};
use vstd::prelude::*;
use vstd::std_specs::iter::IteratorSpec;

verus! {

/// The scan that `has_match` makes: each letter of `q` is looked for in what
/// is left of `c` after the letter before it was found.
spec fn scan(q: Seq<char>, c: Seq<char>) -> bool
    decreases c.len(),
{
    if q.len() == 0 {
        true
    } else if c.len() == 0 {
        false
    } else if folds_equal(q[0], c[0]) {
        scan(q.skip(1), c.skip(1))
    } else {
        scan(q, c.skip(1))
    }
}

/// The positions of `pos`, each moved by `d`.
spec fn moved(pos: Seq<int>, d: int) -> Seq<int> {
    Seq::new(pos.len(), |k: int| pos[k] + d)
}

/// An alignment with the candidate's first position cut off stays one when
/// that position is put back.
proof fn lemma_alignment_after_first(q: Seq<char>, c: Seq<char>, pos: Seq<int>)
    requires
        c.len() > 0,
        is_alignment(q, c.skip(1), pos),
    ensures
        is_alignment(q, c, moved(pos, 1)),
{
    let up = moved(pos, 1);
    assert forall|k: int| 0 <= k < up.len() implies 0 <= #[trigger] up[k] < c.len() && folds_equal(
        q[k],
        c[up[k]],
    ) by {
        assert(c.skip(1)[pos[k]] == c[pos[k] + 1]);
    }
}

/// An alignment that leaves the candidate's first position free is one of
/// the candidate without that position.
proof fn lemma_alignment_without_first(q: Seq<char>, c: Seq<char>, pos: Seq<int>)
    requires
        is_alignment(q, c, pos),
        q.len() > 0 ==> pos[0] > 0,
    ensures
        is_alignment(q, c.skip(1), moved(pos, -1)),
{
    let down = moved(pos, -1);
    assert forall|k: int| 0 <= k < down.len() implies 0 <= #[trigger] down[k] < c.skip(1).len()
        && folds_equal(q[k], c.skip(1)[down[k]]) by {
        if k > 0 {
            assert(pos[0] < pos[k]);
        }
        assert(c.skip(1)[pos[k] - 1] == c[pos[k]]);
    }
}

/// The scan finds a match exactly where there is an alignment.
proof fn lemma_scan_decides(q: Seq<char>, c: Seq<char>)
    ensures
        scan(q, c) == subsequence_match(q, c),
    decreases c.len(),
{
    if q.len() == 0 {
        assert(is_alignment(q, c, Seq::<int>::empty()));
    } else if c.len() == 0 {
        assert forall|pos: Seq<int>| !is_alignment(q, c, pos) by {
            if is_alignment(q, c, pos) {
                assert(0 <= pos[0] < c.len());
            }
        }
    } else if folds_equal(q[0], c[0]) {
        let q1 = q.skip(1);
        let c1 = c.skip(1);
        lemma_scan_decides(q1, c1);
        if subsequence_match(q1, c1) {
            let rest = choose|pos: Seq<int>| is_alignment(q1, c1, pos);
            lemma_alignment_after_first(q1, c, rest);
            let pos = seq![0int] + moved(rest, 1);
            assert forall|k: int| 0 <= k < pos.len() implies 0 <= #[trigger] pos[k] < c.len()
                && folds_equal(q[k], c[pos[k]]) by {
                if k > 0 {
                    assert(pos[k] == moved(rest, 1)[k - 1]);
                    assert(q[k] == q1[k - 1]);
                }
            }
            assert forall|k: int, l: int| 0 <= k < l < pos.len() implies pos[k] < pos[l] by {
                assert(pos[l] == moved(rest, 1)[l - 1]);
                if k > 0 {
                    assert(pos[k] == moved(rest, 1)[k - 1]);
                }
            }
            assert(is_alignment(q, c, pos));
        }
        if subsequence_match(q, c) {
            let pos = choose|pos: Seq<int>| is_alignment(q, c, pos);
            let rest = pos.skip(1);
            assert forall|k: int| 0 <= k < rest.len() implies 0 <= #[trigger] rest[k] < c.len()
                && folds_equal(q1[k], c[rest[k]]) by {
                assert(rest[k] == pos[k + 1]);
                assert(q1[k] == q[k + 1]);
            }
            assert forall|k: int, l: int| 0 <= k < l < rest.len() implies rest[k] < rest[l] by {
                assert(rest[k] == pos[k + 1]);
                assert(rest[l] == pos[l + 1]);
            }
            assert(is_alignment(q1, c, rest));
            if rest.len() > 0 {
                assert(rest[0] == pos[1]);
                assert(pos[0] < pos[1]);
            }
            lemma_alignment_without_first(q1, c, rest);
        }
    } else {
        let c1 = c.skip(1);
        lemma_scan_decides(q, c1);
        if subsequence_match(q, c1) {
            let rest = choose|pos: Seq<int>| is_alignment(q, c1, pos);
            lemma_alignment_after_first(q, c, rest);
        }
        if subsequence_match(q, c) {
            let pos = choose|pos: Seq<int>| is_alignment(q, c, pos);
            assert(0 <= pos[0] < c.len() && folds_equal(q[0], c[pos[0]]));
            lemma_alignment_without_first(q, c, pos);
        }
    }
}

/// Whether `candidate` holds the letters of `query` in order, whatever their
/// case. The empty query is held by every candidate.
pub fn has_match(query: &str, candidate: &(impl SearchItem + ?Sized)) -> (r: bool)
    ensures
        r == subsequence_match(query@, candidate.text()),
{
    let text = candidate.as_str();
    let ghost q = query@;
    let ghost c = text@;
    let mut chars = text.chars();
    let ghost mut ci: int = 0;
    proof {
        assert(q.skip(0) == q);
        assert(c.skip(0) == c);
    }
    for left in it: query.chars()
        invariant
            it.seq() == q,
            q == query@,
            c == candidate.text(),
            0 <= ci <= c.len(),
            chars.obeys_prophetic_iter_laws(),
            chars.remaining() == c.skip(ci),
            scan(q, c) == scan(q.skip(it.index() as int), c.skip(ci)),
    {
        let ghost qi = it.index() as int;
        let wanted = lowercase(left);
        let mut found = false;
        while !found
            invariant
                q == query@,
                c == candidate.text(),
                0 <= ci <= c.len(),
                0 <= qi < q.len(),
                chars.obeys_prophetic_iter_laws(),
                chars.remaining() == c.skip(ci),
                wanted@ == lowercase_of(q[qi]),
                !found ==> scan(q, c) == scan(q.skip(qi), c.skip(ci)),
                found ==> scan(q, c) == scan(q.skip(qi + 1), c.skip(ci)),
            decreases c.len() - ci,
        {
            proof {
                assert(q.skip(qi)[0] == q[qi]);
                assert(q.skip(qi).skip(1) == q.skip(qi + 1));
                if ci < c.len() {
                    assert(c.skip(ci)[0] == c[ci]);
                    assert(c.skip(ci).skip(1) == c.skip(ci + 1));
                }
            }
            match chars.next() {
                None => {
                    proof {
                        lemma_scan_decides(q, c);
                    }
                    return false;
                },
                Some(right) => {
                    found = same_chars(&wanted, &lowercase(right));
                    proof {
                        ci = ci + 1;
                    }
                },
            }
        }
    }
    proof {
        lemma_scan_decides(q, c);
    }
    true
}

} // verus!
