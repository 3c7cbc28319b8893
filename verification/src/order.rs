//! Lexicographic order on sequences of codes, the order of `Vec<u32>` and,
//! over character codes, of `String`.

use vstd::prelude::*;

verus! {

/// `a` comes strictly before `b` in lexicographic order, a proper prefix
/// before any of its extensions (the order of `Vec<u32>`).
pub open spec fn seq_lt(a: Seq<u32>, b: Seq<u32>) -> bool
    decreases a.len(),
{
    if a.len() == 0 {
        b.len() > 0
    } else if b.len() == 0 {
        false
    } else if a[0] < b[0] {
        true
    } else if a[0] > b[0] {
        false
    } else {
        seq_lt(a.drop_first(), b.drop_first())
    }
}

/// The codes of the characters of `s`.
pub open spec fn codes(s: Seq<char>) -> Seq<u32> {
    s.map_values(|c: char| c as u32)
}

/// `a` sorts before `b` as strings do: by character codes, lexicographically.
pub open spec fn text_lt(a: Seq<char>, b: Seq<char>) -> bool {
    seq_lt(codes(a), codes(b))
}

// ---------------------------------------------------------------------------
// Lemmas

/// Stepping the lexicographic comparison past an equal position.
pub proof fn lemma_seq_lt_skip(a: Seq<u32>, b: Seq<u32>, i: int)
    requires
        0 <= i < a.len(),
        i < b.len(),
        a[i] == b[i],
    ensures
        seq_lt(a.skip(i), b.skip(i)) == seq_lt(a.skip(i + 1), b.skip(i + 1)),
{
    assert(a.skip(i).drop_first() =~= a.skip(i + 1));
    assert(b.skip(i).drop_first() =~= b.skip(i + 1));
}

/// Nothing comes before itself.
pub proof fn lemma_seq_lt_irreflexive(a: Seq<u32>)
    ensures
        !seq_lt(a, a),
    decreases a.len(),
{
    if a.len() > 0 {
        lemma_seq_lt_irreflexive(a.drop_first());
    }
}

/// At most one of two sequences comes before the other.
pub proof fn lemma_seq_lt_asymmetric(a: Seq<u32>, b: Seq<u32>)
    ensures
        seq_lt(a, b) ==> !seq_lt(b, a),
    decreases a.len(),
{
    if a.len() > 0 && b.len() > 0 && a[0] == b[0] {
        lemma_seq_lt_asymmetric(a.drop_first(), b.drop_first());
    }
}

/// The order is transitive.
pub proof fn lemma_seq_lt_transitive(a: Seq<u32>, b: Seq<u32>, c: Seq<u32>)
    ensures
        seq_lt(a, b) && seq_lt(b, c) ==> seq_lt(a, c),
    decreases a.len(),
{
    if a.len() > 0 && b.len() > 0 && c.len() > 0 {
        lemma_seq_lt_transitive(a.drop_first(), b.drop_first(), c.drop_first());
    }
}

/// Of two different sequences, one comes before the other.
pub proof fn lemma_seq_lt_total(a: Seq<u32>, b: Seq<u32>)
    ensures
        a != b ==> seq_lt(a, b) || seq_lt(b, a),
    decreases a.len(),
{
    if a.len() > 0 && b.len() > 0 {
        lemma_seq_lt_total(a.drop_first(), b.drop_first());
        if a[0] == b[0] && a.drop_first() == b.drop_first() {
            assert(a =~= seq![a[0]] + a.drop_first());
            assert(b =~= seq![b[0]] + b.drop_first());
        }
    } else if a.len() == 0 && b.len() == 0 {
        assert(a =~= b);
    }
}

/// Sequences that agree before position `k` and differ at `k` are ordered
/// by their elements at `k`.
proof fn lemma_seq_lt_first_difference(a: Seq<u32>, b: Seq<u32>, k: int)
    requires
        0 <= k < a.len(),
        k < b.len(),
        a.take(k) == b.take(k),
        a[k] < b[k],
    ensures
        seq_lt(a, b),
    decreases k,
{
    if k > 0 {
        assert(a[0] == a.take(k)[0] && b[0] == b.take(k)[0]);
        assert(a.drop_first().take(k - 1) =~= a.take(k).drop_first());
        assert(b.drop_first().take(k - 1) =~= b.take(k).drop_first());
        lemma_seq_lt_first_difference(a.drop_first(), b.drop_first(), k - 1);
    }
}

/// A proper prefix comes before its extensions.
proof fn lemma_seq_lt_prefix(a: Seq<u32>, b: Seq<u32>)
    requires
        a.len() < b.len(),
        b.take(a.len() as int) == a,
    ensures
        seq_lt(a, b),
    decreases a.len(),
{
    if a.len() > 0 {
        assert(a[0] == b.take(a.len() as int)[0]);
        assert(b.drop_first().take(a.len() - 1) =~= a.drop_first());
        lemma_seq_lt_prefix(a.drop_first(), b.drop_first());
    }
}

// ---------------------------------------------------------------------------
// Laws

/// Strings are ordered at their first difference: when `a` and `b` agree on
/// their first `k` characters and the character of `a` at `k` has the
/// smaller code, `a` sorts before `b` and not after it, wherever `k` lies.
pub proof fn law_text_order_first_difference(a: Seq<char>, b: Seq<char>, k: int)
    requires
        0 <= k < a.len(),
        k < b.len(),
        a.take(k) == b.take(k),
        (a[k] as u32) < (b[k] as u32),
    ensures
        text_lt(a, b),
        !text_lt(b, a),
{
    assert(codes(a).take(k) =~= codes(b).take(k)) by {
        assert forall|i: int| 0 <= i < k implies codes(a).take(k)[i] == codes(b).take(k)[i] by {
            assert(a[i] == a.take(k)[i] && b[i] == b.take(k)[i]);
        }
    }
    lemma_seq_lt_first_difference(codes(a), codes(b), k);
    lemma_seq_lt_asymmetric(codes(a), codes(b));
}

/// A string sorts before every longer string that starts with it.
pub proof fn law_text_order_prefix_first(a: Seq<char>, b: Seq<char>)
    requires
        a.len() < b.len(),
        b.take(a.len() as int) == a,
    ensures
        text_lt(a, b),
        !text_lt(b, a),
{
    assert(codes(b).take(a.len() as int) =~= codes(a)) by {
        assert forall|i: int| 0 <= i < a.len() implies codes(b).take(a.len() as int)[i] == codes(a)[i] by {
            assert(b[i] == b.take(a.len() as int)[i]);
        }
    }
    lemma_seq_lt_prefix(codes(a), codes(b));
    lemma_seq_lt_asymmetric(codes(a), codes(b));
}

/// No string sorts before itself.
pub proof fn law_text_order_irreflexive(a: Seq<char>)
    ensures
        !text_lt(a, a),
{
    lemma_seq_lt_irreflexive(codes(a));
}

// ---------------------------------------------------------------------------
// Executable code

/// Lexicographic `a < b` on number sequences.
pub fn numbers_less(a: &Vec<u32>, b: &Vec<u32>) -> (r: bool)
    ensures
        r == seq_lt(a@, b@),
{
    let mut i: usize = 0;
    assert(a@.skip(0) =~= a@);
    assert(b@.skip(0) =~= b@);
    while i < a.len() && i < b.len()
        invariant
            i <= a.len(),
            i <= b.len(),
            seq_lt(a@, b@) == seq_lt(a@.skip(i as int), b@.skip(i as int)),
        decreases a.len() - i,
    {
        if a[i] < b[i] {
            return true;
        }
        if a[i] > b[i] {
            return false;
        }
        proof {
            lemma_seq_lt_skip(a@, b@, i as int);
        }
        i = i + 1;
    }
    i == a.len() && i < b.len()
}

/// Whether the string `a` sorts before the string `b`.
pub fn text_less(a: &str, b: &str) -> (r: bool)
    ensures
        r == text_lt(a@, b@),
{
    let x = crate::text::chars_of(a);
    let y = crate::text::chars_of(b);
    let mut cx: Vec<u32> = Vec::new();
    let mut i: usize = 0;
    while i < x.len()
        invariant
            i <= x.len(),
            cx@ == codes(x@).take(i as int),
        decreases x.len() - i,
    {
        cx.push(x[i] as u32);
        assert(cx@ =~= codes(x@).take(i + 1));
        i = i + 1;
    }
    let mut cy: Vec<u32> = Vec::new();
    let mut j: usize = 0;
    while j < y.len()
        invariant
            j <= y.len(),
            cy@ == codes(y@).take(j as int),
        decreases y.len() - j,
    {
        cy.push(y[j] as u32);
        assert(cy@ =~= codes(y@).take(j + 1));
        j = j + 1;
    }
    assert(cx@ =~= codes(a@));
    assert(cy@ =~= codes(b@));
    numbers_less(&cx, &cy)
}

} // verus!
