//! Three-way comparisons of integers, texts and optional texts, as the standard
//! orderings of integers and `String` compare them, and the facts that make them total
//! orders.
use vstd::prelude::*;
use vstd::string::*;

verus! {

/// Three-way comparison of integers: negative, zero or positive.
pub open spec fn order_int(a: int, b: int) -> int {
    if a < b {
        -1
    } else if a == b {
        0
    } else {
        1
    }
}

/// Lexicographic comparison of texts by character. The UTF-8 encoding keeps the order of
/// code points, so this is the order in which `String` compares its bytes.
pub open spec fn order_text(a: Seq<char>, b: Seq<char>) -> int
    decreases a.len(),
{
    if a.len() == 0 {
        if b.len() == 0 {
            0
        } else {
            -1
        }
    } else if b.len() == 0 {
        1
    } else if a[0] != b[0] {
        order_int(a[0] as int, b[0] as int)
    } else {
        order_text(a.drop_first(), b.drop_first())
    }
}

/// Comparison of optional texts: nothing comes first.
pub open spec fn order_opt(a: Option<Seq<char>>, b: Option<Seq<char>>) -> int {
    match (a, b) {
        (None, None) => 0,
        (None, Some(_)) => -1,
        (Some(_), None) => 1,
        (Some(x), Some(y)) => order_text(x, y),
    }
}

pub proof fn lemma_order_text(a: Seq<char>, b: Seq<char>, c: Seq<char>)
    ensures
        order_text(a, b) == -order_text(b, a),
        -1 <= order_text(a, b) <= 1,
        order_text(a, b) == 0 <==> a == b,
        order_text(a, b) < 0 && order_text(b, c) < 0 ==> order_text(a, c) < 0,
    decreases a.len(),
{
    if a.len() > 0 && b.len() > 0 && c.len() > 0 {
        lemma_order_text(a.drop_first(), b.drop_first(), c.drop_first());
    } else if a.len() > 0 && b.len() > 0 {
        lemma_order_text(a.drop_first(), b.drop_first(), a.drop_first());
    }
    if a.len() > 0 && b.len() > 0 && a[0] == b[0] {
        assert(order_text(a, b) == order_text(a.drop_first(), b.drop_first()));
        if a.drop_first() == b.drop_first() {
            assert forall|i: int| 0 <= i < a.len() implies a[i] == b[i] by {
                if i > 0 {
                    assert(a[i] == a.drop_first()[i - 1]);
                    assert(b[i] == b.drop_first()[i - 1]);
                }
            }
            assert(a =~= b);
        }
    }
    if a.len() == 0 && b.len() == 0 {
        assert(a =~= b);
    }
    if a == b && a.len() > 0 {
        assert(a.drop_first() == b.drop_first());
    }
}

pub proof fn lemma_order_opt(a: Option<Seq<char>>, b: Option<Seq<char>>, c: Option<Seq<char>>)
    ensures
        order_opt(a, b) == -order_opt(b, a),
        order_opt(a, b) == 0 <==> a == b,
        order_opt(a, b) < 0 && order_opt(b, c) < 0 ==> order_opt(a, c) < 0,
{
    match (a, b, c) {
        (Some(x), Some(y), Some(z)) => {
            lemma_order_text(x, y, z);
        },
        (Some(x), Some(y), None) => {
            lemma_order_text(x, y, x);
        },
        _ => {},
    }
}

proof fn lemma_order_text_skip(a: Seq<char>, b: Seq<char>, i: int)
    requires
        0 <= i <= a.len(),
        i <= b.len(),
        a.subrange(0, i) == b.subrange(0, i),
    ensures
        order_text(a, b) == order_text(a.subrange(i, a.len() as int), b.subrange(i, b.len() as int)),
    decreases i,
{
    if i > 0 {
        assert(a[0] == a.subrange(0, i)[0]);
        assert(b[0] == b.subrange(0, i)[0]);
        let a1 = a.drop_first();
        let b1 = b.drop_first();
        assert(a1.subrange(0, i - 1) =~= a.subrange(1, i));
        assert(b1.subrange(0, i - 1) =~= b.subrange(1, i));
        assert(a.subrange(1, i) =~= a.subrange(0, i).drop_first());
        assert(b.subrange(1, i) =~= b.subrange(0, i).drop_first());
        lemma_order_text_skip(a1, b1, i - 1);
        assert(a1.subrange(i - 1, a1.len() as int) =~= a.subrange(i, a.len() as int));
        assert(b1.subrange(i - 1, b1.len() as int) =~= b.subrange(i, b.len() as int));
    } else {
        assert(a.subrange(0, a.len() as int) =~= a);
        assert(b.subrange(0, b.len() as int) =~= b);
    }
}

/// Compares two texts as `String`'s ordering does: negative, zero or positive.
pub fn compare_text(a: &str, b: &str) -> (r: i8)
    ensures
        r == order_text(a@, b@),
{
    let n = a.unicode_len();
    let m = b.unicode_len();
    let mut i: usize = 0;
    while i < n && i < m
        invariant
            n == a@.len(),
            m == b@.len(),
            i <= n,
            i <= m,
            a@.subrange(0, i as int) == b@.subrange(0, i as int),
        decreases n - i,
    {
        let x = a.get_char(i);
        let y = b.get_char(i);
        if x != y {
            proof {
                lemma_order_text_skip(a@, b@, i as int);
                let sa = a@.subrange(i as int, n as int);
                let sb = b@.subrange(i as int, m as int);
                assert(sa[0] == x);
                assert(sb[0] == y);
            }
            if (x as u32) < (y as u32) {
                return -1;
            } else {
                return 1;
            }
        }
        assert(a@.subrange(0, i + 1) =~= a@.subrange(0, i as int).push(x));
        assert(b@.subrange(0, i + 1) =~= b@.subrange(0, i as int).push(y));
        i += 1;
    }
    proof {
        lemma_order_text_skip(a@, b@, i as int);
    }
    if n == m {
        0
    } else if i == n {
        -1
    } else {
        1
    }
}

/// The smallest text of a sequence, as `Iterator::min` picks it; nothing when empty.
pub open spec fn min_text(s: Seq<Seq<char>>) -> Option<Seq<char>>
    decreases s.len(),
{
    if s.len() == 0 {
        None
    } else {
        match min_text(s.drop_last()) {
            None => Some(s.last()),
            Some(m) => if order_text(s.last(), m) < 0 {
                Some(s.last())
            } else {
                Some(m)
            },
        }
    }
}

} // verus!
