//! Text: searching, comparing, trimming and composing strings.
//!
//! A string is modelled by the sequence of its characters, and ordered by the bytes of its
//! UTF-8 encoding.

use vstd::prelude::*;
use vstd::utf8::*;

use crate::sorted::{Comparison, Key};

verus! {

/// `String::push` appends one character.
pub assume_specification[ String::push ](s: &mut String, c: char)
    ensures
        final(s)@ == old(s)@.push(c),
;

/// The characters with the Unicode property `White_Space`.
pub open spec fn white_space(c: char) -> bool {
    ||| '\u{9}' <= c <= '\u{d}'
    ||| c == ' '
    ||| c == '\u{85}'
    ||| c == '\u{a0}'
    ||| c == '\u{1680}'
    ||| '\u{2000}' <= c <= '\u{200a}'
    ||| c == '\u{2028}'
    ||| c == '\u{2029}'
    ||| c == '\u{202f}'
    ||| c == '\u{205f}'
    ||| c == '\u{3000}'
}

/// `char::is_whitespace` tells whether a character has the Unicode property `White_Space`.
pub assume_specification[ char::is_whitespace ](c: char) -> (r: bool)
    ensures
        r == white_space(c),
;

/// The characters of `s`.
pub fn chars_of(s: &str) -> (r: Vec<char>)
    ensures
        r@ == s@,
{
    let mut r: Vec<char> = Vec::new();
    for c in it: s.chars()
        invariant
            r@ == s@.take(it.index()),
            it.seq() == s@,
    {
        r.push(c);
    }
    r
}

/// The position of the first `c` in `s`.
pub fn find_first(s: &Vec<char>, c: char) -> (r: Option<usize>)
    ensures
        match r {
            Some(i) => s@.index_of_first(c) == Some(i as int) && i < s@.len(),
            None => s@.index_of_first(c) is None,
        },
{
    proof {
        s@.index_of_first_ensures(c);
    }
    let mut i: usize = 0;
    while i < s.len()
        invariant
            i <= s.len(),
            forall|j: int| 0 <= j < i ==> s@[j] != c,
        decreases s.len() - i,
    {
        if s[i] == c {
            proof {
                s@.index_of_first_ensures(c);
                assert(s@.contains(s@[i as int]));
            }
            return Some(i);
        }
        i += 1;
    }
    None
}

/// The position of the last `c` in `s`.
pub fn find_last(s: &Vec<char>, c: char) -> (r: Option<usize>)
    ensures
        match r {
            Some(i) => s@.index_of_last(c) == Some(i as int) && i < s@.len(),
            None => s@.index_of_last(c) is None,
        },
{
    proof {
        s@.index_of_last_ensures(c);
    }
    let mut i: usize = s.len();
    while i > 0
        invariant
            i <= s.len(),
            forall|j: int| i <= j < s.len() ==> s@[j] != c,
        decreases i,
    {
        i -= 1;
        if s[i] == c {
            proof {
                s@.index_of_last_ensures(c);
                assert(s@.contains(s@[i as int]));
            }
            return Some(i);
        }
    }
    None
}

/// Whether `a` and `b` first differ at position `k`, and `a` comes first there.
pub open spec fn branches_before(a: Seq<u8>, b: Seq<u8>, k: int) -> bool {
    &&& 0 <= k <= a.len()
    &&& k < b.len()
    &&& a.take(k) == b.take(k)
    &&& k < a.len() ==> a[k] < b[k]
}

/// The lexicographic order on bytes.
pub open spec fn bytes_before(a: Seq<u8>, b: Seq<u8>) -> bool {
    exists|k: int| branches_before(a, b, k)
}

/// The order on text: the lexicographic order on UTF-8 bytes.
pub open spec fn text_before(a: Seq<char>, b: Seq<char>) -> bool {
    bytes_before(encode_utf8(a), encode_utf8(b))
}

proof fn lemma_branch(a: Seq<u8>, b: Seq<u8>, k: int)
    requires
        0 <= k <= a.len(),
        k <= b.len(),
        a.take(k) == b.take(k),
    ensures
        a == b || bytes_before(a, b) || bytes_before(b, a),
    decreases a.len() - k,
{
    if k == a.len() && k == b.len() {
        assert(a.take(k) =~= a);
        assert(b.take(k) =~= b);
    } else if k == a.len() {
        assert(branches_before(a, b, k));
    } else if k == b.len() {
        assert(branches_before(b, a, k));
    } else if a[k] < b[k] {
        assert(branches_before(a, b, k));
    } else if b[k] < a[k] {
        assert(branches_before(b, a, k));
    } else {
        assert(a.take(k + 1) =~= a.take(k).push(a[k]));
        assert(b.take(k + 1) =~= b.take(k).push(b[k]));
        lemma_branch(a, b, k + 1);
    }
}

/// Equal encodings come from equal text.
pub proof fn lemma_encoding_injective(a: Seq<char>, b: Seq<char>)
    ensures
        encode_utf8(a) == encode_utf8(b) ==> a == b,
{
    encode_utf8_decode_utf8(a);
    encode_utf8_decode_utf8(b);
}

proof fn lemma_bytes_before_irreflexive(a: Seq<u8>)
    ensures
        !bytes_before(a, a),
{
    assert forall|k: int| !branches_before(a, a, k) by {}
}

proof fn lemma_bytes_before_transitive(a: Seq<u8>, b: Seq<u8>, c: Seq<u8>)
    requires
        bytes_before(a, b),
        bytes_before(b, c),
    ensures
        bytes_before(a, c),
{
    let i = choose|k: int| branches_before(a, b, k);
    let j = choose|k: int| branches_before(b, c, k);
    let k = if i < j { i } else { j };
    assert(a.take(k) =~= a.take(i).take(k));
    assert(b.take(k) =~= b.take(i).take(k));
    assert(b.take(k) =~= b.take(j).take(k));
    assert(c.take(k) =~= c.take(j).take(k));
    if i < j {
        assert(b.take(j)[i] == c.take(j)[i]);
    } else if j < i {
        assert(a.take(i)[j] == b.take(i)[j]);
    }
    assert(branches_before(a, c, k));
}

/// Compares two byte strings.
fn compare_bytes(a: &[u8], b: &[u8]) -> (r: Comparison)
    ensures
        match r {
            Comparison::Less => bytes_before(a@, b@),
            Comparison::Equal => a@ == b@,
            Comparison::Greater => bytes_before(b@, a@),
        },
{
    let mut k: usize = 0;
    while k < a.len() && k < b.len()
        invariant
            k <= a.len(),
            k <= b.len(),
            a@.take(k as int) == b@.take(k as int),
        decreases a.len() - k,
    {
        if a[k] < b[k] {
            assert(branches_before(a@, b@, k as int));
            return Comparison::Less;
        }
        if b[k] < a[k] {
            assert(branches_before(b@, a@, k as int));
            return Comparison::Greater;
        }
        assert(a@.take(k + 1) =~= a@.take(k as int).push(a@[k as int]));
        assert(b@.take(k + 1) =~= b@.take(k as int).push(b@[k as int]));
        k += 1;
    }
    if k < b.len() {
        assert(branches_before(a@, b@, k as int));
        Comparison::Less
    } else if k < a.len() {
        assert(branches_before(b@, a@, k as int));
        Comparison::Greater
    } else {
        assert(a@.take(k as int) =~= a@);
        assert(b@.take(k as int) =~= b@);
        Comparison::Equal
    }
}

/// Compares two pieces of text.
pub fn compare_text(a: &str, b: &str) -> (r: Comparison)
    ensures
        match r {
            Comparison::Less => text_before(a@, b@),
            Comparison::Equal => a@ == b@,
            Comparison::Greater => text_before(b@, a@),
        },
{
    proof {
        lemma_encoding_injective(a@, b@);
    }
    compare_bytes(a.as_bytes(), b.as_bytes())
}

/// Whether two pieces of text are equal.
pub fn same_text(a: &str, b: &str) -> (r: bool)
    ensures
        r == (a@ == b@),
{
    proof {
        lemma_bytes_before_irreflexive(encode_utf8(a@));
    }
    match compare_text(a, b) {
        Comparison::Equal => true,
        Comparison::Less => false,
        Comparison::Greater => false,
    }
}

impl Key for String {
    open spec fn before(a: Seq<char>, b: Seq<char>) -> bool {
        text_before(a, b)
    }

    proof fn before_irreflexive(a: Seq<char>) {
        lemma_bytes_before_irreflexive(encode_utf8(a));
        assert(Self::before(a, a) == bytes_before(encode_utf8(a), encode_utf8(a)));
    }

    proof fn before_transitive(a: Seq<char>, b: Seq<char>, c: Seq<char>) {
        lemma_bytes_before_transitive(encode_utf8(a), encode_utf8(b), encode_utf8(c));
    }

    proof fn before_total(a: Seq<char>, b: Seq<char>) {
        assert(encode_utf8(a).take(0) =~= encode_utf8(b).take(0));
        lemma_branch(encode_utf8(a), encode_utf8(b), 0);
        lemma_encoding_injective(a, b);
    }

    fn compare(&self, other: &Self) -> (r: Comparison) {
        compare_text(self.as_str(), other.as_str())
    }

    fn duplicate(&self) -> (r: Self) {
        self.clone()
    }
}

/// Whether `s` ends with `suffix`.
pub fn ends_with(s: &str, suffix: &str) -> (r: bool)
    ensures
        r == suffix@.is_suffix_of(s@),
{
    let n: usize = s.unicode_len();
    let m: usize = suffix.unicode_len();
    if m > n {
        return false;
    }
    same_text(s.substring_char(n - m, n), suffix)
}

/// Whether `s` starts with `prefix`.
pub fn starts_with(s: &str, prefix: &str) -> (r: bool)
    ensures
        r == prefix@.is_prefix_of(s@),
{
    let n: usize = s.unicode_len();
    let m: usize = prefix.unicode_len();
    if m > n {
        return false;
    }
    same_text(s.substring_char(0, m), prefix)
}

/// The text without leading and trailing white space.
pub open spec fn trimmed(s: Seq<char>) -> Seq<char>
    decreases s.len(),
{
    if s.len() == 0 {
        s
    } else if white_space(s[0]) {
        trimmed(s.skip(1))
    } else if white_space(s.last()) {
        trimmed(s.drop_last())
    } else {
        s
    }
}

/// Trimmed text neither starts nor ends with white space, and trimming it again changes nothing.
pub proof fn trimmed_text_has_bare_ends(s: Seq<char>)
    ensures
        trimmed(s).len() > 0 ==> !white_space(trimmed(s)[0]) && !white_space(trimmed(s).last()),
        trimmed(trimmed(s)) == trimmed(s),
    decreases s.len(),
{
    if s.len() > 0 {
        if white_space(s[0]) {
            trimmed_text_has_bare_ends(s.skip(1));
        } else if white_space(s.last()) {
            trimmed_text_has_bare_ends(s.drop_last());
        }
    }
}

/// Takes leading and trailing white space off `s`.
pub fn trim(s: &str) -> (r: &str)
    ensures
        r@ == trimmed(s@),
{
    let chars = chars_of(s);
    let mut from: usize = 0;
    let mut to: usize = chars.len();
    assert(chars@.subrange(0, chars@.len() as int) =~= s@);
    while from < to && chars[from].is_whitespace()
        invariant
            from <= to == chars.len(),
            chars@ == s@,
            trimmed(chars@.subrange(from as int, to as int)) == trimmed(s@),
        decreases to - from,
    {
        let ghost rest = chars@.subrange(from as int, to as int);
        assert(rest[0] == chars@[from as int]);
        assert(rest.skip(1) =~= chars@.subrange(from + 1, to as int));
        from += 1;
    }
    while from < to && chars[to - 1].is_whitespace()
        invariant
            from <= to <= chars.len(),
            chars@ == s@,
            from < to ==> !white_space(chars@[from as int]),
            trimmed(chars@.subrange(from as int, to as int)) == trimmed(s@),
        decreases to - from,
    {
        let ghost rest = chars@.subrange(from as int, to as int);
        assert(rest[0] == chars@[from as int]);
        assert(rest.last() == chars@[to - 1]);
        assert(rest.drop_last() =~= chars@.subrange(from as int, to - 1));
        to -= 1;
    }
    proof {
        let rest = chars@.subrange(from as int, to as int);
        if from < to {
            assert(rest[0] == chars@[from as int]);
            assert(rest.last() == chars@[to - 1]);
        }
    }
    s.substring_char(from, to)
}

/// The decimal digits.
pub open spec fn decimal_digit(d: nat) -> char {
    seq!['0', '1', '2', '3', '4', '5', '6', '7', '8', '9'][d as int]
}

/// A number in decimal notation.
pub open spec fn decimal(n: nat) -> Seq<char>
    decreases n,
{
    if n < 10 {
        seq![decimal_digit(n)]
    } else {
        decimal(n / 10).push(decimal_digit(n % 10))
    }
}

fn digit_char(d: usize) -> (r: char)
    requires
        d < 10,
    ensures
        r == decimal_digit(d as nat),
{
    match d {
        0 => '0',
        1 => '1',
        2 => '2',
        3 => '3',
        4 => '4',
        5 => '5',
        6 => '6',
        7 => '7',
        8 => '8',
        _ => '9',
    }
}

/// Writes `n` in decimal notation.
pub fn decimal_text(n: usize) -> (r: String)
    ensures
        r@ == decimal(n as nat),
    decreases n,
{
    let mut r: String = if n < 10 {
        String::new()
    } else {
        decimal_text(n / 10)
    };
    r.push(digit_char(n % 10));
    assert(n < 10 ==> r@ =~= decimal(n as nat));
    r
}

/// Of two pieces of text the one comes first whose encoding has the smaller byte where they first
/// differ, or ends there.
pub proof fn text_order_is_decided_by_the_first_difference(a: Seq<char>, b: Seq<char>, k: int)
    requires
        0 <= k <= encode_utf8(a).len(),
        k < encode_utf8(b).len(),
        forall|j: int| 0 <= j < k ==> #[trigger] encode_utf8(a)[j] == encode_utf8(b)[j],
        k < encode_utf8(a).len() ==> encode_utf8(a)[k] < encode_utf8(b)[k],
    ensures
        text_before(a, b),
        !text_before(b, a),
        a != b,
{
    let x = encode_utf8(a);
    let y = encode_utf8(b);
    assert(x.take(k) =~= y.take(k));
    assert(branches_before(x, y, k));
    if text_before(b, a) {
        lemma_bytes_before_transitive(x, y, x);
    }
    lemma_bytes_before_irreflexive(x);
}

/// Trimming takes off all white space on either side of a piece of text that neither starts nor
/// ends with any, and nothing else.
pub proof fn trimming_gives_back_what_white_space_surrounds(
    left: Seq<char>,
    bare: Seq<char>,
    right: Seq<char>,
)
    requires
        forall|i: int| 0 <= i < left.len() ==> white_space(#[trigger] left[i]),
        forall|i: int| 0 <= i < right.len() ==> white_space(#[trigger] right[i]),
        bare.len() > 0 ==> !white_space(bare[0]) && !white_space(bare.last()),
    ensures
        trimmed(left + bare + right) == bare,
    decreases left.len() + right.len(),
{
    let s = left + bare + right;
    if left.len() > 0 {
        assert(s[0] == left[0]);
        assert(s.skip(1) =~= left.skip(1) + bare + right);
        trimming_gives_back_what_white_space_surrounds(left.skip(1), bare, right);
    } else if bare.len() == 0 {
        if right.len() > 0 {
            assert(s[0] == right[0]);
            assert(s.skip(1) =~= left + bare + right.skip(1));
            trimming_gives_back_what_white_space_surrounds(left, bare, right.skip(1));
        } else {
            assert(s =~= bare);
        }
    } else {
        assert(s[0] == bare[0]);
        if right.len() > 0 {
            assert(s.last() == right.last());
            assert(s.drop_last() =~= left + bare + right.drop_last());
            trimming_gives_back_what_white_space_surrounds(left, bare, right.drop_last());
        } else {
            assert(s =~= bare);
        }
    }
}

/// The number that a sequence of decimal digits denotes.
pub open spec fn number_of(digits: Seq<char>) -> int
    decreases digits.len(),
{
    if digits.len() == 0 {
        0
    } else {
        number_of(digits.drop_last()) * 10 + (digits.last() as int - '0' as int)
    }
}

/// Decimal notation consists of digits, denotes the number, and has no leading zero unless the
/// number is zero.
pub proof fn decimal_denotes_its_number(n: nat)
    ensures
        number_of(decimal(n)) == n,
        decimal(n).len() > 0,
        forall|i: int| 0 <= i < decimal(n).len() ==> '0' <= #[trigger] decimal(n)[i] <= '9',
        decimal(n)[0] == '0' ==> n == 0,
        n == 0 ==> decimal(n).len() == 1,
    decreases n,
{
    let d = decimal(n);
    if n < 10 {
        assert(d.drop_last() =~= Seq::<char>::empty());
        assert(number_of(d.drop_last()) == 0);
        assert(d.last() == decimal_digit(n));
    } else {
        let rest = decimal(n / 10);
        decimal_denotes_its_number(n / 10);
        assert(d.drop_last() =~= rest);
        assert(d.last() == decimal_digit(n % 10));
        assert forall|i: int| 0 <= i < d.len() implies '0' <= #[trigger] d[i] <= '9' by {
            if i < rest.len() {
                assert(d[i] == rest[i]);
            }
        }
    }
}

} // verus!
