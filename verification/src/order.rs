//! Three-way comparisons as spec functions, and the laws that make them total orders.
use vstd::prelude::*;

verus! {

/// A three-way comparison: `-1`, `0` or `1`, antisymmetric, zero exactly on equal values,
/// and transitive.
pub open spec fn is_order<T>(c: spec_fn(T, T) -> int) -> bool {
    &&& forall|x: T, y: T| #[trigger] c(x, y) == -c(y, x)
    &&& forall|x: T, y: T| #[trigger] c(x, y) == 0 <==> x == y
    &&& forall|x: T, y: T| -1 <= #[trigger] c(x, y) <= 1
    &&& forall|x: T, y: T, z: T|
        #![trigger c(x, y), c(y, z)]
        c(x, y) < 0 && c(y, z) < 0 ==> c(x, z) < 0
}

/// Comparison of integers.
pub open spec fn int_order(x: int, y: int) -> int {
    if x < y {
        -1
    } else if x == y {
        0
    } else {
        1
    }
}

/// Comparison of characters by code point.
pub open spec fn char_order(x: char, y: char) -> int {
    int_order(x as int, y as int)
}

/// Lexicographic comparison of sequences: the first difference decides, and a proper
/// prefix is less.
pub open spec fn lex_order<T>(a: Seq<T>, b: Seq<T>, c: spec_fn(T, T) -> int) -> int
    decreases a.len(),
{
    if a.len() == 0 {
        if b.len() == 0 {
            0
        } else {
            -1
        }
    } else if b.len() == 0 {
        1
    } else if c(a[0], b[0]) != 0 {
        c(a[0], b[0])
    } else {
        lex_order(a.drop_first(), b.drop_first(), c)
    }
}

/// Comparison of character sequences, as `Ord` compares strings.
pub open spec fn str_order(a: Seq<char>, b: Seq<char>) -> int {
    lex_order(a, b, |x: char, y: char| char_order(x, y))
}

/// Lexicographic comparison of pairs.
pub open spec fn pair_order<A, B>(
    p: (A, B),
    q: (A, B),
    ca: spec_fn(A, A) -> int,
    cb: spec_fn(B, B) -> int,
) -> int {
    if ca(p.0, q.0) != 0 {
        ca(p.0, q.0)
    } else {
        cb(p.1, q.1)
    }
}

/// The comparison of integers is a total order.
pub proof fn lemma_int_order()
    ensures
        is_order(|x: int, y: int| int_order(x, y)),
{
}

/// The comparison of characters is a total order.
pub proof fn lemma_char_order()
    ensures
        is_order(|x: char, y: char| char_order(x, y)),
{
    assert forall|x: char, y: char| char_order(x, y) == 0 <==> x == y by {
        if x as int == y as int {
            assert(x == y);
        }
    }
}

/// Lexicographic comparison is antisymmetric, zero exactly on equal sequences, and in
/// `-1..=1`.
proof fn lemma_lex_basic<T>(a: Seq<T>, b: Seq<T>, c: spec_fn(T, T) -> int)
    requires
        is_order(c),
    ensures
        lex_order(a, b, c) == -lex_order(b, a, c),
        lex_order(a, b, c) == 0 <==> a == b,
        -1 <= lex_order(a, b, c) <= 1,
    decreases a.len(),
{
    if a.len() > 0 && b.len() > 0 {
        lemma_lex_basic(a.drop_first(), b.drop_first(), c);
        assert(c(a[0], b[0]) == -c(b[0], a[0]));
        if c(a[0], b[0]) == 0 {
            assert(a[0] == b[0]);
            if a.drop_first() == b.drop_first() {
                assert(a =~= seq![a[0]] + a.drop_first());
                assert(b =~= seq![b[0]] + b.drop_first());
            }
        }
        if a == b {
            assert(a.drop_first() == b.drop_first());
        }
    } else if a.len() == 0 && b.len() == 0 {
        assert(a =~= b);
    }
}

/// Lexicographic comparison is transitive.
proof fn lemma_lex_trans<T>(a: Seq<T>, b: Seq<T>, d: Seq<T>, c: spec_fn(T, T) -> int)
    requires
        is_order(c),
        lex_order(a, b, c) < 0,
        lex_order(b, d, c) < 0,
    ensures
        lex_order(a, d, c) < 0,
    decreases a.len(),
{
    if a.len() > 0 && b.len() > 0 && d.len() > 0 {
        let (x, y, z) = (a[0], b[0], d[0]);
        if c(x, y) == 0 && c(y, z) == 0 {
            assert(x == y && y == z);
            lemma_lex_trans(a.drop_first(), b.drop_first(), d.drop_first(), c);
        } else if c(x, y) == 0 {
            assert(x == y);
        } else if c(y, z) == 0 {
            assert(y == z);
        } else {
            assert(c(x, y) < 0 && c(y, z) < 0);
        }
    }
}

/// Lexicographic comparison over a total order is a total order.
pub proof fn lemma_lex_order<T>(c: spec_fn(T, T) -> int)
    requires
        is_order(c),
    ensures
        is_order(|a: Seq<T>, b: Seq<T>| lex_order(a, b, c)),
{
    let l = |a: Seq<T>, b: Seq<T>| lex_order(a, b, c);
    assert forall|x: Seq<T>, y: Seq<T>| #[trigger] l(x, y) == -l(y, x) by {
        lemma_lex_basic(x, y, c);
    }
    assert forall|x: Seq<T>, y: Seq<T>| #[trigger] l(x, y) == 0 <==> x == y by {
        lemma_lex_basic(x, y, c);
    }
    assert forall|x: Seq<T>, y: Seq<T>| -1 <= #[trigger] l(x, y) <= 1 by {
        lemma_lex_basic(x, y, c);
    }
    assert forall|x: Seq<T>, y: Seq<T>, z: Seq<T>|
        #![trigger l(x, y), l(y, z)]
        l(x, y) < 0 && l(y, z) < 0 implies l(x, z) < 0 by {
        lemma_lex_trans(x, y, z, c);
    }
}

pub proof fn lemma_str_order()
    ensures
        is_order(|a: Seq<char>, b: Seq<char>| str_order(a, b)),
{
    lemma_char_order();
    lemma_lex_order(|x: char, y: char| char_order(x, y));
    let l = |a: Seq<char>, b: Seq<char>| lex_order(a, b, |x: char, y: char| char_order(x, y));
    let s = |a: Seq<char>, b: Seq<char>| str_order(a, b);
    assert forall|a: Seq<char>, b: Seq<char>| #[trigger] s(a, b) == l(a, b) by {}
    assert(s =~= l);
}

/// Lexicographic comparison of pairs over total orders is a total order.
pub proof fn lemma_pair_order<A, B>(ca: spec_fn(A, A) -> int, cb: spec_fn(B, B) -> int)
    requires
        is_order(ca),
        is_order(cb),
    ensures
        is_order(|p: (A, B), q: (A, B)| pair_order(p, q, ca, cb)),
{
    let l = |p: (A, B), q: (A, B)| pair_order(p, q, ca, cb);
    assert forall|x: (A, B), y: (A, B)| #[trigger] l(x, y) == -l(y, x) by {
        assert(ca(x.0, y.0) == -ca(y.0, x.0));
        assert(cb(x.1, y.1) == -cb(y.1, x.1));
    }
    assert forall|x: (A, B), y: (A, B)| #[trigger] l(x, y) == 0 <==> x == y by {
        if ca(x.0, y.0) == 0 && cb(x.1, y.1) == 0 {
            assert(x.0 == y.0 && x.1 == y.1);
        }
        if x == y {
            assert(ca(x.0, y.0) == 0);
            assert(cb(x.1, y.1) == 0);
        }
    }
    assert forall|x: (A, B), y: (A, B)| -1 <= #[trigger] l(x, y) <= 1 by {
        assert(-1 <= ca(x.0, y.0) <= 1);
        assert(-1 <= cb(x.1, y.1) <= 1);
    }
    assert forall|x: (A, B), y: (A, B), z: (A, B)|
        #![trigger l(x, y), l(y, z)]
        l(x, y) < 0 && l(y, z) < 0 implies l(x, z) < 0 by {
        if ca(x.0, y.0) == 0 {
            assert(x.0 == y.0);
        }
        if ca(y.0, z.0) == 0 {
            assert(y.0 == z.0);
        }
        if ca(x.0, y.0) != 0 && ca(y.0, z.0) != 0 {
            assert(ca(x.0, y.0) < 0 && ca(y.0, z.0) < 0);
        }
        if ca(x.0, y.0) == 0 && ca(y.0, z.0) == 0 {
            assert(cb(x.1, y.1) < 0 && cb(y.1, z.1) < 0);
            assert(ca(x.0, z.0) == 0);
        }
    }
}

/// A comparison through an injective key is a comparison.
pub proof fn lemma_keyed_order<A, K>(key: spec_fn(A) -> K, c: spec_fn(K, K) -> int)
    requires
        is_order(c),
        forall|x: A, y: A| #[trigger] key(x) == #[trigger] key(y) ==> x == y,
    ensures
        is_order(|x: A, y: A| c(key(x), key(y))),
{
    let l = |x: A, y: A| c(key(x), key(y));
    assert forall|x: A, y: A| #[trigger] l(x, y) == -l(y, x) by {
        assert(c(key(x), key(y)) == -c(key(y), key(x)));
    }
    assert forall|x: A, y: A| #[trigger] l(x, y) == 0 <==> x == y by {
        assert(c(key(x), key(y)) == 0 <==> key(x) == key(y));
    }
    assert forall|x: A, y: A| -1 <= #[trigger] l(x, y) <= 1 by {
        assert(-1 <= c(key(x), key(y)) <= 1);
    }
    assert forall|x: A, y: A, z: A|
        #![trigger l(x, y), l(y, z)]
        l(x, y) < 0 && l(y, z) < 0 implies l(x, z) < 0 by {
        assert(c(key(x), key(y)) < 0 && c(key(y), key(z)) < 0);
    }
}

} // verus!
