//! Interning stage: build the dictionary of distinct byte entries in
//! first-occurrence order, together with the reference array that records,
//! for every input position, the identifier of its entry.

use vstd::prelude::*;
use crate::views::{lemma_bytes_deep_view, lemma_byte_rows_deep_view, lemma_byte_rows_deep_view_len};

verus! {

broadcast use
    lemma_bytes_deep_view,
    lemma_byte_rows_deep_view,
    lemma_byte_rows_deep_view_len,
    vstd::seq::group_seq_axioms;

/// The distinct byte sequences of `s`, in first-occurrence order.
/// Each content appears exactly once, at the position (identifier) it was
/// assigned when it was first seen.
pub open spec fn distinct_seq(s: Seq<Seq<u8>>) -> Seq<Seq<u8>>
    decreases s.len(),
{
    if s.len() == 0 {
        Seq::empty()
    } else {
        let prev = distinct_seq(s.drop_last());
        if prev.contains(s.last()) {
            prev
        } else {
            prev.push(s.last())
        }
    }
}

/// What interning guarantees: the reference array mirrors the input, every
/// identifier is in range, the dictionary entry behind each identifier holds
/// exactly the bytes of the input position that references it, and no two
/// identifiers share content.
pub open spec fn valid_interning(input: Seq<Seq<u8>>, uniques: Seq<Seq<u8>>, refs: Seq<usize>) -> bool {
    &&& refs.len() == input.len()
    &&& uniques.no_duplicates()
    &&& forall|i: int|
        0 <= i < input.len() ==> (#[trigger] refs[i]) < uniques.len() && uniques[refs[i] as int]
            == input[i]
}

/// Growing the input by one entry either leaves the dictionary unchanged
/// (a duplicate) or appends the entry under the next identifier.
pub proof fn lemma_distinct_seq_step(s: Seq<Seq<u8>>, i: int)
    requires
        0 <= i < s.len(),
    ensures
        distinct_seq(s.take(i + 1)) == if distinct_seq(s.take(i)).contains(s[i]) {
            distinct_seq(s.take(i))
        } else {
            distinct_seq(s.take(i)).push(s[i])
        },
{
    assert(s.take(i + 1).drop_last() =~= s.take(i));
    assert(s.take(i + 1).last() == s[i]);
}

/// The dictionary never assigns two identifiers to the same content.
pub proof fn lemma_distinct_seq_no_duplicates(s: Seq<Seq<u8>>)
    ensures
        distinct_seq(s).no_duplicates(),
    decreases s.len(),
{
    if s.len() == 0 {
    } else {
        lemma_distinct_seq_no_duplicates(s.drop_last());
        let prev = distinct_seq(s.drop_last());
        if !prev.contains(s.last()) {
            let cur = prev.push(s.last());
            assert forall|i: int, j: int|
                0 <= i < cur.len() && 0 <= j < cur.len() && i != j implies cur[i] != cur[j] by {
                if i < prev.len() && j < prev.len() {
                    assert(prev[i] != prev[j]);
                } else if j == prev.len() {
                    assert(cur[j] == s.last());
                    if cur[i] == s.last() {
                        assert(prev.contains(s.last()));
                    }
                } else {
                    assert(cur[i] == s.last());
                    if cur[j] == s.last() {
                        assert(prev.contains(s.last()));
                    }
                }
            }
        }
    }
}

/// The dictionary holds exactly the contents that occur in the input.
pub proof fn lemma_distinct_seq_contains(s: Seq<Seq<u8>>, x: Seq<u8>)
    ensures
        distinct_seq(s).contains(x) <==> s.contains(x),
    decreases s.len(),
{
    if s.len() == 0 {
    } else {
        lemma_distinct_seq_contains(s.drop_last(), x);
        assert(s.contains(x) <==> (s.drop_last().contains(x) || x == s.last())) by {
            if s.contains(x) {
                let k = choose|k: int| 0 <= k < s.len() && s[k] == x;
                if k < s.len() - 1 {
                    assert(s.drop_last()[k] == x);
                }
            }
            if s.drop_last().contains(x) {
                let k = choose|k: int| 0 <= k < s.drop_last().len() && s.drop_last()[k] == x;
                assert(s[k] == x);
            }
            if x == s.last() {
                assert(s[s.len() - 1] == x);
            }
        }
        let prev = distinct_seq(s.drop_last());
        if !prev.contains(s.last()) {
            let cur = prev.push(s.last());
            assert(cur.contains(x) <==> (prev.contains(x) || x == s.last())) by {
                if cur.contains(x) {
                    let k = choose|k: int| 0 <= k < cur.len() && cur[k] == x;
                    if k < prev.len() {
                        assert(prev[k] == x);
                    }
                }
                if prev.contains(x) {
                    let k = choose|k: int| 0 <= k < prev.len() && prev[k] == x;
                    assert(cur[k] == x);
                }
                if x == s.last() {
                    assert(cur[cur.len() - 1] == x);
                }
            }
        }
    }
}

/// Identifier stability: two input positions carry the same identifier
/// exactly when their byte contents are equal.
pub proof fn lemma_identifier_stability(
    input: Seq<Seq<u8>>,
    uniques: Seq<Seq<u8>>,
    refs: Seq<usize>,
    i: int,
    j: int,
)
    requires
        valid_interning(input, uniques, refs),
        0 <= i < input.len(),
        0 <= j < input.len(),
    ensures
        refs[i] == refs[j] <==> input[i] == input[j],
{
    if input[i] == input[j] {
        assert(uniques[refs[i] as int] == uniques[refs[j] as int]);
        if refs[i] != refs[j] {
            assert(uniques[refs[i] as int] != uniques[refs[j] as int]);
        }
    }
}

/// Byte-exact comparison of two byte vectors.
fn bytes_eq(a: &Vec<u8>, b: &Vec<u8>) -> (r: bool)
    ensures
        r <==> a@ == b@,
{
    if a.len() != b.len() {
        return false;
    }
    let mut i: usize = 0;
    while i < a.len()
        invariant
            i <= a@.len(),
            a@.len() == b@.len(),
            forall|j: int| 0 <= j < i ==> a@[j] == b@[j],
        decreases a@.len() - i,
    {
        if a[i] != b[i] {
            return false;
        }
        i += 1;
    }
    proof {
        assert(a@ =~= b@);
    }
    true
}

/// An owned copy of a byte vector.
fn copy_bytes(src: &Vec<u8>) -> (r: Vec<u8>)
    ensures
        r@ == src@,
{
    let mut r: Vec<u8> = Vec::new();
    let mut i: usize = 0;
    while i < src.len()
        invariant
            i <= src@.len(),
            r@ == src@.take(i as int),
        decreases src@.len() - i,
    {
        r.push(src[i]);
        proof {
            assert(r@ =~= src@.take(i + 1));
        }
        i += 1;
    }
    proof {
        assert(src@.take(src@.len() as int) =~= src@);
    }
    r
}

/// Exact-match lookup of `x` among the dictionary entries.
fn find_entry(uniques: &Vec<Vec<u8>>, x: &Vec<u8>) -> (r: Option<usize>)
    ensures
        match r {
            Some(k) => k < uniques@.len() && uniques.deep_view()[k as int] == x@,
            None => !uniques.deep_view().contains(x@),
        },
{
    let mut k: usize = 0;
    while k < uniques.len()
        invariant
            k <= uniques@.len(),
            forall|j: int| 0 <= j < k ==> #[trigger] uniques.deep_view()[j] != x@,
        decreases uniques@.len() - k,
    {
        let hit = bytes_eq(&uniques[k], x);
        proof {
            assert(uniques.deep_view()[k as int] == uniques@[k as int]@);
        }
        if hit {
            return Some(k);
        }
        k += 1;
    }
    proof {
        if uniques.deep_view().contains(x@) {
            let j = choose|j: int|
                0 <= j < uniques.deep_view().len() && uniques.deep_view()[j] == x@;
            assert(uniques.deep_view()[j] != x@);
        }
    }
    None
}

/// Interning stage: one pass over the input, in order. A content seen before
/// is referenced under its existing identifier; a new content is appended to
/// the dictionary under the next sequential identifier. Never fails.
pub fn intern_entries(raw_entries: &Vec<Vec<u8>>) -> (r: (Vec<Vec<u8>>, Vec<usize>))
    ensures
        r.0.deep_view() == distinct_seq(raw_entries.deep_view()),
        valid_interning(raw_entries.deep_view(), r.0.deep_view(), r.1@),
{
    let ghost input = raw_entries.deep_view();
    let mut uniques: Vec<Vec<u8>> = Vec::new();
    let mut refs: Vec<usize> = Vec::new();
    let n = raw_entries.len();
    let mut i: usize = 0;
    proof {
        assert(uniques.deep_view() =~= distinct_seq(input.take(0)));
    }
    while i < n
        invariant
            n == raw_entries@.len(),
            input == raw_entries.deep_view(),
            i <= n,
            refs@.len() == i,
            uniques.deep_view() == distinct_seq(input.take(i as int)),
            uniques.deep_view().no_duplicates(),
            forall|j: int|
                0 <= j < i ==> (#[trigger] refs@[j]) < uniques@.len()
                    && uniques.deep_view()[refs@[j] as int] == input[j],
        decreases n - i,
    {
        let entry = &raw_entries[i];
        proof {
            lemma_distinct_seq_step(input, i as int);
            assert(input.take(i as int + 1) =~= input.take(i as int).push(input[i as int]));
        }
        match find_entry(&uniques, entry) {
            Some(k) => {
                refs.push(k);
            },
            None => {
                let k = uniques.len();
                let ghost old_uniques = uniques.deep_view();
                uniques.push(copy_bytes(entry));
                refs.push(k);
                proof {
                    assert(uniques.deep_view() =~= old_uniques.push(entry@));
                    lemma_distinct_seq_no_duplicates(input.take(i as int + 1));
                }
            },
        }
        i += 1;
    }
    proof {
        assert(input.take(n as int) =~= input);
    }
    (uniques, refs)
}

} // verus!
