//! The on-disk naming scheme for stored pages.
//!
//! A page's ciphertext lives under a name derived from the document's own
//! key: the key, an underscore, the page index in decimal, and an `.enc`
//! suffix. The index is printed without leading zeroes, so the digits hold
//! no underscore and the scheme stays collision-free across documents.

use vstd::prelude::*;

verus! {

/// The character for one decimal digit.
pub open spec fn digit_char(d: nat) -> char {
    if d == 0 {
        '0'
    } else if d == 1 {
        '1'
    } else if d == 2 {
        '2'
    } else if d == 3 {
        '3'
    } else if d == 4 {
        '4'
    } else if d == 5 {
        '5'
    } else if d == 6 {
        '6'
    } else if d == 7 {
        '7'
    } else if d == 8 {
        '8'
    } else {
        '9'
    }
}

/// The decimal rendering of `n`, most significant digit first, no leading
/// zeroes (a single zero for `n == 0`).
pub open spec fn spec_decimal(n: nat) -> Seq<char>
    decreases n,
{
    if n < 10 {
        seq![digit_char(n)]
    } else {
        spec_decimal(n / 10).push(digit_char(n % 10))
    }
}

/// The stored name of page `index` of the document keyed `key`.
pub open spec fn spec_page_name(key: Seq<char>, index: nat) -> Seq<char> {
    key + seq!['_'] + spec_decimal(index) + seq!['.', 'e', 'n', 'c']
}

/// Whether a character is a decimal digit.
pub open spec fn is_digit(c: char) -> bool {
    '0' <= c <= '9'
}

/// Every character of a decimal rendering is a digit.
proof fn lemma_decimal_digits(n: nat)
    ensures
        spec_decimal(n).len() >= 1,
        forall|j: int| 0 <= j < spec_decimal(n).len() ==> is_digit(#[trigger] spec_decimal(n)[j]),
    decreases n,
{
    if n >= 10 {
        lemma_decimal_digits(n / 10);
    }
}

/// Decimal renderings are distinct for distinct numbers: the rendering has
/// no leading zeroes, so it is a canonical form.
proof fn lemma_decimal_injective(a: nat, b: nat)
    requires
        spec_decimal(a) == spec_decimal(b),
    ensures
        a == b,
    decreases a + b,
{
    lemma_decimal_digits(a);
    lemma_decimal_digits(b);
    if a < 10 && b < 10 {
        assert(spec_decimal(a)[0] == digit_char(a));
        assert(spec_decimal(b)[0] == digit_char(b));
    } else if a < 10 {
        assert(spec_decimal(b).len() == spec_decimal(b / 10).len() + 1);
        lemma_decimal_digits(b / 10);
    } else if b < 10 {
        assert(spec_decimal(a).len() == spec_decimal(a / 10).len() + 1);
        lemma_decimal_digits(a / 10);
    } else {
        assert(spec_decimal(a).last() == digit_char(a % 10));
        assert(spec_decimal(b).last() == digit_char(b % 10));
        assert(a % 10 == b % 10);
        assert(spec_decimal(a).drop_last() =~= spec_decimal(a / 10));
        assert(spec_decimal(b).drop_last() =~= spec_decimal(b / 10));
        lemma_decimal_injective(a / 10, b / 10);
    }
}

/// The naming scheme is collision-free: two pages share a stored name only
/// when they are the same page of the same document. The page index prints
/// with no underscore in it, so the underscore before it and the fixed
/// suffix after it pin both parts down.
pub proof fn lemma_page_name_injective(k1: Seq<char>, i1: nat, k2: Seq<char>, i2: nat)
    requires
        spec_page_name(k1, i1) == spec_page_name(k2, i2),
    ensures
        k1 == k2,
        i1 == i2,
{
    let s = spec_page_name(k1, i1);
    let d1 = spec_decimal(i1);
    let d2 = spec_decimal(i2);
    let n = s.len() as int;
    let p1 = k1.len() as int;
    let p2 = k2.len() as int;
    lemma_decimal_digits(i1);
    lemma_decimal_digits(i2);
    assert(n == p1 + 1 + d1.len() + 4);
    assert(spec_page_name(k2, i2).len() == p2 + 1 + d2.len() + 4);
    assert(s[p1] == '_');
    assert(s[p2] == '_');
    assert(forall|j: int| 0 <= j < p1 ==> s[j] == k1[j]);
    assert(forall|j: int| 0 <= j < p2 ==> s[j] == k2[j]);
    assert(forall|j: int| p1 + 1 <= j < p1 + 1 + d1.len() ==> s[j] == d1[j - p1 - 1]);
    assert(forall|j: int| p2 + 1 <= j < p2 + 1 + d2.len() ==> s[j] == d2[j - p2 - 1]);
    if p1 < p2 {
        assert(p2 < n - 4);
        assert(p1 + 1 <= p2 < p1 + 1 + d1.len());
        assert(s[p2] == d1[p2 - p1 - 1]);
        assert(is_digit(s[p2]));
        assert(false);
    }
    if p2 < p1 {
        assert(p1 < n - 4);
        assert(p2 + 1 <= p1 < p2 + 1 + d2.len());
        assert(s[p1] == d2[p1 - p2 - 1]);
        assert(is_digit(s[p1]));
        assert(false);
    }
    assert(p1 == p2);
    assert(k1 =~= k2);
    assert(d1.len() == d2.len());
    assert forall|j: int| 0 <= j < d1.len() implies d1[j] == d2[j] by {
        assert(s[p1 + 1 + j] == d1[j]);
        assert(s[p1 + 1 + j] == d2[j]);
    }
    assert(d1 =~= d2);
    lemma_decimal_injective(i1, i2);
}

/// The string slice for one decimal digit.
fn digit_str(d: usize) -> (r: &'static str)
    requires
        d < 10,
    ensures
        r@ == seq![digit_char(d as nat)],
{
    proof {
        reveal_strlit("0");
        reveal_strlit("1");
        reveal_strlit("2");
        reveal_strlit("3");
        reveal_strlit("4");
        reveal_strlit("5");
        reveal_strlit("6");
        reveal_strlit("7");
        reveal_strlit("8");
        reveal_strlit("9");
    }
    let r: &'static str = match d {
        0 => "0",
        1 => "1",
        2 => "2",
        3 => "3",
        4 => "4",
        5 => "5",
        6 => "6",
        7 => "7",
        8 => "8",
        _ => "9",
    };
    proof {
        assert(r@ =~= seq![digit_char(d as nat)]);
    }
    r
}

/// Render `n` in decimal.
pub fn decimal_string(n: usize) -> (r: String)
    ensures
        r@ == spec_decimal(n as nat),
    decreases n,
{
    if n < 10 {
        let mut s = String::new();
        s.append(digit_str(n));
        proof {
            assert(s@ =~= spec_decimal(n as nat));
        }
        s
    } else {
        let mut s = decimal_string(n / 10);
        s.append(digit_str(n % 10));
        proof {
            assert(s@ =~= spec_decimal(n as nat));
        }
        s
    }
}

/// Where a document key's display name begins: right after the last
/// backslash, or at the start when the key has none.
pub open spec fn spec_cut_index(s: Seq<char>) -> int
    decreases s.len(),
{
    if s.len() == 0 {
        0
    } else if s[s.len() - 1] == '\\' {
        s.len() as int
    } else {
        spec_cut_index(s.drop_last())
    }
}

/// A run with no backslash at its end does not move the cut.
proof fn lemma_cut_index_take(s: Seq<char>, i: int)
    requires
        0 <= i <= s.len(),
        forall|k: int| i <= k < s.len() ==> s[k] != '\\',
    ensures
        spec_cut_index(s) == spec_cut_index(s.take(i)),
    decreases s.len() - i,
{
    if i == s.len() {
        assert(s.take(i) =~= s);
    } else {
        assert(s[s.len() - 1] != '\\');
        assert(s.drop_last() =~= s.take(s.len() - 1));
        lemma_cut_index_take(s.take(s.len() - 1), i);
        assert(s.take(s.len() - 1).take(i) =~= s.take(i));
    }
}

/// The name a document is listed under: its key's last path component.
pub fn display_name(key: &str) -> (r: &str)
    ensures
        r@ == key@.skip(spec_cut_index(key@)),
{
    let n = key.unicode_len();
    let mut i: usize = n;
    while i > 0
        invariant
            i <= n,
            n == key@.len(),
            forall|k: int| i <= k < n ==> key@[k] != '\\',
        decreases i,
    {
        if key.get_char(i - 1) == '\\' {
            let r = key.substring_char(i, n);
            proof {
                assert(key@.take(i as int)[i - 1] == '\\');
                assert(spec_cut_index(key@.take(i as int)) == i as int);
                lemma_cut_index_take(key@, i as int);
                assert(r@ =~= key@.skip(i as int));
            }
            return r;
        }
        i = i - 1;
    }
    proof {
        lemma_cut_index_take(key@, 0);
        assert(key@.take(0) =~= Seq::<char>::empty());
        assert(key@.skip(0) =~= key@);
    }
    key
}

/// The file name a page ciphertext is stored under, derived from the
/// document key and the page index.
pub fn page_file_name(key: &str, index: usize) -> (r: String)
    ensures
        r@ == spec_page_name(key@, index as nat),
{
    proof {
        reveal_strlit("_");
        reveal_strlit(".enc");
    }
    let mut s = key.to_owned();
    s.append("_");
    let d = decimal_string(index);
    s.append(d.as_str());
    s.append(".enc");
    proof {
        assert(s@ =~= spec_page_name(key@, index as nat));
    }
    s
}

} // verus!
