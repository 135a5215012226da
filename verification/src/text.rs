//! Character-level helpers shared across the subsystem: string equality,
//! lexicographic ordering of labels, and membership in string lists.

use vstd::prelude::*;

verus! {

/// Whether two strings hold the same characters.
pub fn str_eq(a: &str, b: &str) -> (r: bool)
    ensures
        r == (a@ == b@),
{
    let a_len = a.unicode_len();
    let b_len = b.unicode_len();
    if a_len != b_len {
        assert(a@ != b@) by {
            assert(a@.len() != b@.len());
        }
        return false;
    }
    let mut i: usize = 0;
    while i < a_len
        invariant
            a_len == a@.len(),
            b_len == b@.len(),
            a_len == b_len,
            i <= a_len,
            forall|j: int| 0 <= j < i ==> a@[j] == b@[j],
        decreases a_len - i,
    {
        if a.get_char(i) != b.get_char(i) {
            return false;
        }
        i += 1;
    }
    proof {
        assert(a@ =~= b@);
    }
    true
}

/// Strict lexicographic order on character sequences, by code point.
pub open spec fn lex_lt(a: Seq<char>, b: Seq<char>) -> bool
    decreases a.len(),
{
    if b.len() == 0 {
        false
    } else if a.len() == 0 {
        true
    } else if a[0] != b[0] {
        (a[0] as u32) < (b[0] as u32)
    } else {
        lex_lt(a.skip(1), b.skip(1))
    }
}

/// Non-strict lexicographic order.
pub open spec fn lex_le(a: Seq<char>, b: Seq<char>) -> bool {
    lex_lt(a, b) || a == b
}

/// Whether `a` comes at or before `b` in lexicographic order.
pub fn str_le(a: &str, b: &str) -> (r: bool)
    ensures
        r == lex_le(a@, b@),
{
    let a_len = a.unicode_len();
    let b_len = b.unicode_len();
    let mut i: usize = 0;
    proof {
        assert(a@.skip(0) =~= a@);
        assert(b@.skip(0) =~= b@);
    }
    loop
        invariant
            a_len == a@.len(),
            b_len == b@.len(),
            i <= a_len,
            i <= b_len,
            forall|j: int| 0 <= j < i ==> a@[j] == b@[j],
            lex_le(a@, b@) == lex_le(a@.skip(i as int), b@.skip(i as int)),
            lex_lt(a@, b@) == lex_lt(a@.skip(i as int), b@.skip(i as int)),
            (a@ == b@) == (a@.skip(i as int) == b@.skip(i as int)),
        decreases a_len - i,
    {
        proof {
            lemma_skip_eq_full(a@, b@, i as int);
        }
        if i == a_len {
            proof {
                assert(a@.skip(i as int).len() == 0);
                if i == b_len {
                    assert(a@.skip(i as int) =~= b@.skip(i as int));
                }
            }
            return true;
        }
        if i == b_len {
            proof {
                assert(b@.skip(i as int).len() == 0);
                assert(a@.skip(i as int).len() > 0);
            }
            return false;
        }
        let ca = a.get_char(i);
        let cb = b.get_char(i);
        proof {
            assert(a@.skip(i as int)[0] == a@[i as int]);
            assert(b@.skip(i as int)[0] == b@[i as int]);
        }
        if ca != cb {
            proof {
                assert(a@.skip(i as int).len() > 0 && b@.skip(i as int).len() > 0);
                if a@.skip(i as int) == b@.skip(i as int) {
                    assert(a@.skip(i as int)[0] == b@.skip(i as int)[0]);
                }
            }
            return (ca as u32) < (cb as u32);
        }
        proof {
            assert(a@.skip(i as int).skip(1) =~= a@.skip(i + 1));
            assert(b@.skip(i as int).skip(1) =~= b@.skip(i + 1));
            if a@.skip(i as int) == b@.skip(i as int) {
                assert(a@.skip(i + 1) =~= b@.skip(i + 1));
            } else {
                if a@.skip(i + 1) == b@.skip(i + 1) {
                    assert forall|k: int|
                        0 <= k < a@.skip(i as int).len() implies a@.skip(i as int)[k] == b@.skip(
                        i as int,
                    )[k] by {
                        if k == 0 {
                            assert(a@.skip(i as int)[0] == a@[i as int]);
                        } else {
                            assert(a@.skip(i + 1)[k - 1] == b@.skip(i + 1)[k - 1]);
                        }
                    }
                    assert(a@.skip(i as int) =~= b@.skip(i as int));
                }
            }
        }
        i += 1;
    }
}

/// Two sequences whose first `i` characters agree are equal exactly when
/// their tails from `i` are equal.
proof fn lemma_skip_eq_full(a: Seq<char>, b: Seq<char>, i: int)
    requires
        0 <= i <= a.len(),
        0 <= i <= b.len(),
        forall|j: int| 0 <= j < i ==> a[j] == b[j],
    ensures
        (a == b) == (a.skip(i) == b.skip(i)),
{
    if a.skip(i) == b.skip(i) {
        assert(a.skip(i).len() == b.skip(i).len());
        assert(a.len() == b.len());
        assert forall|j: int| 0 <= j < a.len() implies a[j] == b[j] by {
            if j >= i {
                assert(a.skip(i)[j - i] == b.skip(i)[j - i]);
            }
        }
        assert(a =~= b);
    }
    if a == b {
        assert(a.skip(i) =~= b.skip(i));
    }
}

/// Order is total: of two sequences, one comes at or before the other.
pub proof fn lemma_lex_total(a: Seq<char>, b: Seq<char>)
    ensures
        lex_le(a, b) || lex_le(b, a),
    decreases a.len(),
{
    if b.len() == 0 || a.len() == 0 {
        if a.len() == 0 && b.len() == 0 {
            assert(a =~= b);
        }
    } else if a[0] != b[0] {
        assert((a[0] as u32) != (b[0] as u32)) by {
            vstd::utf8::char_u32_cast(a[0], a[0] as u32);
            vstd::utf8::char_u32_cast(b[0], b[0] as u32);
        }
    } else {
        lemma_lex_total(a.skip(1), b.skip(1));
        if a.skip(1) == b.skip(1) {
            assert(a.skip(1).len() == b.skip(1).len());
            assert forall|j: int| 0 <= j < a.len() implies a[j] == b[j] by {
                if j > 0 {
                    assert(a.skip(1)[j - 1] == b.skip(1)[j - 1]);
                }
            }
            assert(a =~= b);
        }
    }
}

/// Order is transitive.
pub proof fn lemma_lex_trans(a: Seq<char>, b: Seq<char>, c: Seq<char>)
    requires
        lex_le(a, b),
        lex_le(b, c),
    ensures
        lex_le(a, c),
    decreases a.len() + b.len() + c.len(),
{
    if a == b || b == c {
    } else {
        if c.len() == 0 {
            assert(b.len() == 0);
            assert(!lex_lt(a, b));
        } else if a.len() == 0 {
        } else {
            assert(b.len() > 0);
            if a[0] != b[0] {
                if b[0] != c[0] {
                } else {
                }
            } else {
                if b[0] != c[0] {
                } else {
                    lemma_lex_trans(a.skip(1), b.skip(1), c.skip(1));
                    if a.skip(1) == c.skip(1) && a[0] == c[0] {
                        if a.len() == c.len() {
                            assert(a =~= c) by {
                                assert(forall|j: int| 1 <= j < a.len() ==> a[j] == a.skip(1)[j - 1]);
                                assert(forall|j: int| 1 <= j < c.len() ==> c[j] == c.skip(1)[j - 1]);
                            }
                        }
                        assert(a.skip(1).len() == c.skip(1).len());
                        assert(a.len() == c.len());
                    }
                }
            }
        }
    }
}

/// Order is antisymmetric: two sequences at or before each other are
/// the same.
pub proof fn lemma_lex_antisym(a: Seq<char>, b: Seq<char>)
    requires
        lex_le(a, b),
        lex_le(b, a),
    ensures
        a == b,
    decreases a.len(),
{
    if a == b {
    } else {
        assert(lex_lt(a, b) && lex_lt(b, a));
        assert(a.len() > 0 && b.len() > 0);
        if a[0] != b[0] {
            assert((a[0] as u32) < (b[0] as u32) && (b[0] as u32) < (a[0] as u32));
        } else {
            if a.skip(1) == b.skip(1) {
                assert(a =~= b) by {
                    assert(a.skip(1).len() == b.skip(1).len());
                    assert(forall|j: int| 1 <= j < a.len() ==> a[j] == a.skip(1)[j - 1]);
                    assert(forall|j: int| 1 <= j < b.len() ==> b[j] == b.skip(1)[j - 1]);
                }
            } else {
                lemma_lex_antisym(a.skip(1), b.skip(1));
            }
        }
    }
}

/// A strict comparison settled within two equal-length prefixes
/// settles the comparison of any extensions of them.
pub proof fn lemma_lex_concat_lt(a: Seq<char>, b: Seq<char>, x: Seq<char>, y: Seq<char>)
    requires
        a.len() == b.len(),
        lex_lt(a, b),
    ensures
        lex_lt(a + x, b + y),
    decreases a.len(),
{
    assert(b.len() > 0);
    assert(a.len() > 0);
    assert((a + x)[0] == a[0]);
    assert((b + y)[0] == b[0]);
    assert((a + x).len() > 0 && (b + y).len() > 0);
    if a[0] != b[0] {
    } else {
        assert((a + x).skip(1) =~= a.skip(1) + x);
        assert((b + y).skip(1) =~= b.skip(1) + y);
        lemma_lex_concat_lt(a.skip(1), b.skip(1), x, y);
    }
}

/// A shared prefix does not change a strict comparison of the tails.
pub proof fn lemma_lex_same_prefix(p: Seq<char>, x: Seq<char>, y: Seq<char>)
    requires
        lex_lt(x, y),
    ensures
        lex_lt(p + x, p + y),
    decreases p.len(),
{
    if p.len() == 0 {
        assert(p + x =~= x);
        assert(p + y =~= y);
    } else {
        assert((p + x)[0] == p[0]);
        assert((p + y)[0] == p[0]);
        assert(y.len() > 0);
        assert((p + y).len() > 0);
        assert((p + x).skip(1) =~= p.skip(1) + x);
        assert((p + y).skip(1) =~= p.skip(1) + y);
        lemma_lex_same_prefix(p.skip(1), x, y);
    }
}

/// Whether `needle` occurs in `items`, comparing characters.
pub open spec fn contains_str(items: Seq<String>, needle: Seq<char>) -> bool {
    exists|i: int| 0 <= i < items.len() && items[i]@ == needle
}

/// Whether `needle` is one of `items`.
pub fn vec_contains_str(items: &Vec<String>, needle: &str) -> (r: bool)
    ensures
        r == contains_str(items@, needle@),
{
    let mut i: usize = 0;
    while i < items.len()
        invariant
            i <= items@.len(),
            forall|j: int| 0 <= j < i ==> items@[j]@ != needle@,
        decreases items@.len() - i,
    {
        if str_eq(items[i].as_str(), needle) {
            return true;
        }
        i += 1;
    }
    false
}

/// How many entries of `items` hold exactly the characters of `needle`.
pub open spec fn count_str(items: Seq<String>, needle: Seq<char>) -> int
    decreases items.len(),
{
    if items.len() == 0 {
        0
    } else {
        (if items[0]@ == needle { 1int } else { 0int }) + count_str(items.skip(1), needle)
    }
}

/// A sequence holds a string exactly when its count there is positive.
pub proof fn lemma_count_positive(items: Seq<String>, needle: Seq<char>)
    ensures
        contains_str(items, needle) <==> count_str(items, needle) > 0,
        count_str(items, needle) >= 0,
    decreases items.len(),
{
    if items.len() == 0 {
    } else {
        lemma_count_positive(items.skip(1), needle);
        if contains_str(items.skip(1), needle) {
            let i = choose|i: int| 0 <= i < items.skip(1).len() && items.skip(1)[i]@ == needle;
            assert(items[i + 1]@ == needle);
        }
        if contains_str(items, needle) {
            let i = choose|i: int| 0 <= i < items.len() && items[i]@ == needle;
            if i > 0 {
                assert(items.skip(1)[i - 1]@ == needle);
            }
        }
    }
}

/// `items` with every entry equal to `needle` removed, order kept.
pub open spec fn remove_str(items: Seq<String>, needle: Seq<char>) -> Seq<String>
    decreases items.len(),
{
    if items.len() == 0 {
        Seq::empty()
    } else if items[0]@ == needle {
        remove_str(items.skip(1), needle)
    } else {
        seq![items[0]] + remove_str(items.skip(1), needle)
    }
}

/// Removal takes out every occurrence of the needle and no other entry:
/// the needle's count drops to zero and every other count is kept.
pub proof fn lemma_remove_str_counts(items: Seq<String>, needle: Seq<char>, other: Seq<char>)
    ensures
        count_str(remove_str(items, needle), needle) == 0,
        other != needle ==> count_str(remove_str(items, needle), other) == count_str(items, other),
    decreases items.len(),
{
    if items.len() == 0 {
    } else {
        lemma_remove_str_counts(items.skip(1), needle, other);
        if items[0]@ == needle {
        } else {
            let rest = remove_str(items.skip(1), needle);
            assert((seq![items[0]] + rest).skip(1) =~= rest);
            assert((seq![items[0]] + rest)[0] == items[0]);
        }
    }
}

/// Appending one string raises its own count by one and no other's.
pub proof fn lemma_count_push(items: Seq<String>, pushed: String, needle: Seq<char>)
    ensures
        count_str(items.push(pushed), needle) == count_str(items, needle) + (
        if pushed@ == needle {
            1int
        } else {
            0int
        }),
    decreases items.len(),
{
    if items.len() == 0 {
        assert(items.push(pushed)[0] == pushed);
        assert(items.push(pushed).skip(1) =~= Seq::<String>::empty());
        assert(count_str(items.push(pushed).skip(1), needle) == 0);
    } else {
        assert(items.push(pushed).skip(1) =~= items.skip(1).push(pushed));
        lemma_count_push(items.skip(1), pushed, needle);
    }
}

} // verus!
