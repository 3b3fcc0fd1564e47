//! Identifiers (topics, documents, run names) as byte strings, and their order.
use vstd::prelude::*;
use vstd::string::StringSliceAdditionalSpecFns;

verus! {

/// Byte-wise lexicographic comparison, the order `str` has: -1, 0 or 1.
pub open spec fn lex_cmp(a: Seq<u8>, b: Seq<u8>) -> int
    decreases a.len(),
{
    if a.len() == 0 {
        if b.len() == 0 { 0 } else { -1 }
    } else if b.len() == 0 {
        1
    } else if a[0] < b[0] {
        -1
    } else if a[0] > b[0] {
        1
    } else {
        lex_cmp(a.drop_first(), b.drop_first())
    }
}

/// Swapping the arguments negates the comparison.
pub proof fn lemma_lex_cmp_antisymmetric(a: Seq<u8>, b: Seq<u8>)
    ensures
        lex_cmp(a, b) == -lex_cmp(b, a),
    decreases a.len(),
{
    if a.len() > 0 && b.len() > 0 && a[0] == b[0] {
        lemma_lex_cmp_antisymmetric(a.drop_first(), b.drop_first());
    }
}

/// The comparison is zero exactly on equal strings.
pub proof fn lemma_lex_cmp_zero(a: Seq<u8>, b: Seq<u8>)
    ensures
        lex_cmp(a, b) == 0 <==> a == b,
        -1 <= lex_cmp(a, b) <= 1,
    decreases a.len(),
{
    if a.len() > 0 && b.len() > 0 && a[0] == b[0] {
        lemma_lex_cmp_zero(a.drop_first(), b.drop_first());
        if a.drop_first() == b.drop_first() {
            assert(a =~= seq![a[0]] + a.drop_first());
            assert(b =~= seq![b[0]] + b.drop_first());
        }
    } else if a.len() == 0 && b.len() == 0 {
        assert(a =~= b);
    }
}

/// The order is transitive, strictly where either step is strict.
pub proof fn lemma_lex_cmp_transitive(a: Seq<u8>, b: Seq<u8>, c: Seq<u8>)
    requires
        lex_cmp(a, b) <= 0,
        lex_cmp(b, c) <= 0,
    ensures
        lex_cmp(a, c) <= 0,
        lex_cmp(a, b) < 0 || lex_cmp(b, c) < 0 ==> lex_cmp(a, c) < 0,
    decreases a.len(),
{
    lemma_lex_cmp_zero(a, b);
    lemma_lex_cmp_zero(b, c);
    lemma_lex_cmp_zero(a, c);
    if a.len() > 0 && b.len() > 0 && c.len() > 0 && a[0] == b[0] && b[0] == c[0] {
        lemma_lex_cmp_transitive(a.drop_first(), b.drop_first(), c.drop_first());
    }
}

/// Compares two identifiers byte by byte.
pub fn compare_ids(a: &Vec<u8>, b: &Vec<u8>) -> (r: i8)
    ensures
        r as int == lex_cmp(a@, b@),
{
    let mut i: usize = 0;
    assert(a@.subrange(0, a@.len() as int) =~= a@);
    assert(b@.subrange(0, b@.len() as int) =~= b@);
    while i < a.len() && i < b.len()
        invariant
            i <= a@.len(),
            i <= b@.len(),
            lex_cmp(a@, b@) == lex_cmp(a@.subrange(i as int, a@.len() as int), b@.subrange(i as int, b@.len() as int)),
        decreases a.len() - i,
    {
        let x = a[i];
        let y = b[i];
        if x < y {
            return -1;
        }
        if x > y {
            return 1;
        }
        assert(a@.subrange(i as int, a@.len() as int).drop_first() =~= a@.subrange(i + 1, a@.len() as int));
        assert(b@.subrange(i as int, b@.len() as int).drop_first() =~= b@.subrange(i + 1, b@.len() as int));
        i = i + 1;
    }
    if i < a.len() {
        1
    } else if i < b.len() {
        -1
    } else {
        0
    }
}

/// Tests two identifiers for equality.
pub fn same_id(a: &Vec<u8>, b: &Vec<u8>) -> (r: bool)
    ensures
        r == (a@ == b@),
{
    let c = compare_ids(a, b);
    proof {
        lemma_lex_cmp_zero(a@, b@);
    }
    c == 0
}

/// Copies the bytes of a string slice into an identifier.
pub fn id_of(s: &str) -> (r: Vec<u8>)
    ensures
        r@ == s.spec_bytes(),
{
    vstd::slice::slice_to_vec(s.as_bytes())
}

/// Copies an identifier.
pub fn copy_id(a: &Vec<u8>) -> (r: Vec<u8>)
    ensures
        r@ == a@,
{
    vstd::slice::slice_to_vec(a.as_slice())
}

} // verus!
