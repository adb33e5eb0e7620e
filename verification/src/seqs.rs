use vstd::prelude::*;

verus! {

/// Growing a prefix by one element adds exactly that element.
pub proof fn lemma_prefix_contains<T>(s: Seq<T>, k: int, x: T)
    requires
        0 <= k < s.len(),
    ensures
        s.subrange(0, k + 1).contains(x) <==> (s.subrange(0, k).contains(x) || s[k] == x),
{
    if s.subrange(0, k + 1).contains(x) {
        let w = choose|w: int| 0 <= w < k + 1 && #[trigger] s.subrange(0, k + 1)[w] == x;
        if w < k {
            assert(s.subrange(0, k)[w] == x);
        }
    }
    if s.subrange(0, k).contains(x) {
        let w = choose|w: int| 0 <= w < k && #[trigger] s.subrange(0, k)[w] == x;
        assert(s.subrange(0, k + 1)[w] == x);
    }
    if s[k] == x {
        assert(s.subrange(0, k + 1)[k] == x);
    }
}

/// Pushing adds exactly the pushed element.
pub proof fn lemma_push_contains<T>(s: Seq<T>, pushed: T, x: T)
    ensures
        s.push(pushed).contains(x) <==> (s.contains(x) || pushed == x),
{
    if s.push(pushed).contains(x) {
        let w = choose|w: int| 0 <= w < s.len() + 1 && #[trigger] s.push(pushed)[w] == x;
        if w < s.len() {
            assert(s[w] == x);
        }
    }
    if s.contains(x) {
        let w = choose|w: int| 0 <= w < s.len() && #[trigger] s[w] == x;
        assert(s.push(pushed)[w] == x);
    }
    if pushed == x {
        assert(s.push(pushed)[s.len() as int] == x);
    }
}

/// Byte-wise lexicographic comparison: -1, 0 or 1, as byte strings and
/// UTF-8 strings are ordered.
pub open spec fn lex_order(a: Seq<u8>, b: Seq<u8>) -> int
    decreases a.len(),
{
    if a.len() == 0 {
        if b.len() == 0 {
            0
        } else {
            -1
        }
    } else if b.len() == 0 {
        1
    } else if a[0] < b[0] {
        -1
    } else if a[0] > b[0] {
        1
    } else {
        lex_order(a.drop_first(), b.drop_first())
    }
}

/// `a` comes strictly before `b`.
pub open spec fn lex_less(a: Seq<u8>, b: Seq<u8>) -> bool {
    lex_order(a, b) == -1
}

pub proof fn lemma_lex_order_range(a: Seq<u8>, b: Seq<u8>)
    ensures
        -1 <= lex_order(a, b) <= 1,
    decreases a.len(),
{
    if a.len() > 0 && b.len() > 0 && a[0] == b[0] {
        lemma_lex_order_range(a.drop_first(), b.drop_first());
    }
}

/// Only equal strings compare equal.
pub proof fn lemma_lex_order_equal(a: Seq<u8>, b: Seq<u8>)
    ensures
        lex_order(a, b) == 0 <==> a == b,
    decreases a.len(),
{
    if a.len() > 0 && b.len() > 0 && a[0] == b[0] {
        lemma_lex_order_equal(a.drop_first(), b.drop_first());
        if a.drop_first() == b.drop_first() {
            assert(a =~= seq![a[0]] + a.drop_first());
            assert(b =~= seq![b[0]] + b.drop_first());
        }
    } else if a.len() == 0 && b.len() == 0 {
        assert(a =~= b);
    } else if a.len() > 0 && b.len() > 0 {
        assert(a[0] != b[0]);
    }
}

/// Swapping the arguments flips the comparison.
pub proof fn lemma_lex_order_flip(a: Seq<u8>, b: Seq<u8>)
    ensures
        lex_order(a, b) == -lex_order(b, a),
    decreases a.len(),
{
    if a.len() > 0 && b.len() > 0 && a[0] == b[0] {
        lemma_lex_order_flip(a.drop_first(), b.drop_first());
    }
}

/// The order is transitive.
pub proof fn lemma_lex_less_transitive(a: Seq<u8>, b: Seq<u8>, c: Seq<u8>)
    requires
        lex_less(a, b),
        lex_less(b, c),
    ensures
        lex_less(a, c),
    decreases a.len(),
{
    if a.len() > 0 && b.len() > 0 && c.len() > 0 && a[0] == b[0] && b[0] == c[0] {
        lemma_lex_less_transitive(a.drop_first(), b.drop_first(), c.drop_first());
    }
}

proof fn lemma_lex_order_skip(a: Seq<u8>, b: Seq<u8>, i: int)
    requires
        0 <= i <= a.len(),
        i <= b.len(),
        a.subrange(0, i) == b.subrange(0, i),
    ensures
        lex_order(a, b) == lex_order(a.skip(i), b.skip(i)),
    decreases i,
{
    if i > 0 {
        assert(a[0] == a.subrange(0, i)[0]);
        assert(b[0] == b.subrange(0, i)[0]);
        assert(a.drop_first().subrange(0, i - 1) =~= a.subrange(0, i).drop_first());
        assert(b.drop_first().subrange(0, i - 1) =~= b.subrange(0, i).drop_first());
        lemma_lex_order_skip(a.drop_first(), b.drop_first(), i - 1);
        assert(a.drop_first().skip(i - 1) =~= a.skip(i));
        assert(b.drop_first().skip(i - 1) =~= b.skip(i));
    } else {
        assert(a.skip(0) =~= a);
        assert(b.skip(0) =~= b);
    }
}

/// Compares two byte strings lexicographically.
pub fn compare_bytes(a: &[u8], b: &[u8]) -> (order: i8)
    ensures
        order == lex_order(a@, b@),
{
    let mut i: usize = 0;
    while i < a.len() && i < b.len()
        invariant
            i <= a@.len(),
            i <= b@.len(),
            a@.subrange(0, i as int) == b@.subrange(0, i as int),
        decreases a@.len() - i,
    {
        if a[i] != b[i] {
            proof {
                lemma_lex_order_skip(a@, b@, i as int);
                assert(a@.skip(i as int)[0] == a@[i as int]);
                assert(b@.skip(i as int)[0] == b@[i as int]);
            }
            if a[i] < b[i] {
                return -1;
            } else {
                return 1;
            }
        }
        assert(a@.subrange(0, i + 1) =~= a@.subrange(0, i as int).push(a@[i as int]));
        assert(b@.subrange(0, i + 1) =~= b@.subrange(0, i as int).push(b@[i as int]));
        i = i + 1;
    }
    proof {
        lemma_lex_order_skip(a@, b@, i as int);
    }
    if a.len() == b.len() {
        0
    } else if a.len() < b.len() {
        -1
    } else {
        1
    }
}

} // verus!
