//! Names of Image resources, derived from image references.

use sha2::Digest;
use vstd::prelude::*;
use vstd::utf8::*;

use crate::text::{chars_of, find_last};

verus! {

/// The SHA-256 digest of a byte string.
pub uninterp spec fn sha256_digest(data: Seq<u8>) -> Seq<u8>;

/// Hashes `data` with `sha2::Sha256` (`new`, `update` and `finalize`). The result depends on
/// the bytes alone and is 32 bytes long, the output size of that hasher.
#[verifier::external_body]
fn sha256(data: &[u8]) -> (r: Vec<u8>)
    ensures
        r@ == sha256_digest(data@),
        r@.len() == 32,
{
    let mut hasher = sha2::Sha256::new();
    hasher.update(data);
    hasher.finalize().to_vec()
}

/// The lower-case hexadecimal digits.
pub open spec fn hex_digit(d: int) -> char {
    seq![
        '0',
        '1',
        '2',
        '3',
        '4',
        '5',
        '6',
        '7',
        '8',
        '9',
        'a',
        'b',
        'c',
        'd',
        'e',
        'f',
    ][d]
}

/// Two hexadecimal digits for each byte, the high half first.
pub open spec fn hex_text(data: Seq<u8>) -> Seq<char> {
    Seq::new(
        2 * data.len(),
        |i: int|
            if i % 2 == 0 {
                hex_digit(data[i / 2] as int / 16)
            } else {
                hex_digit(data[i / 2] as int % 16)
            },
    )
}

/// Encodes `data` with `hex::encode`: every byte becomes two lower-case hexadecimal digits.
#[verifier::external_body]
fn hex_encode(data: &Vec<u8>) -> (r: String)
    requires
        2 * data@.len() <= isize::MAX,
    ensures
        r@ == hex_text(data@),
{
    hex::encode(data)
}

/// Whether `c` is an ASCII letter or digit.
pub open spec fn ascii_alphanumeric(c: char) -> bool {
    'a' <= c <= 'z' || 'A' <= c <= 'Z' || '0' <= c <= '9'
}

/// The character that stands for `c` in a name: letters in lower case, digits, `-` and `.` as
/// they are, and `-` for every other character.
pub open spec fn name_char(c: char) -> char {
    if 'A' <= c <= 'Z' {
        (c as u32 + 32) as char
    } else if ascii_alphanumeric(c) || c == '-' || c == '.' {
        c
    } else {
        '-'
    }
}

fn is_alphanumeric(c: char) -> (r: bool)
    ensures
        r == ascii_alphanumeric(c),
{
    ('a' <= c && c <= 'z') || ('A' <= c && c <= 'Z') || ('0' <= c && c <= '9')
}

fn to_name_char(c: char) -> (r: char)
    ensures
        r == name_char(c),
{
    if 'A' <= c && c <= 'Z' {
        ((c as u8) + 32) as char
    } else if ('a' <= c && c <= 'z') || ('0' <= c && c <= '9') || c == '-' || c == '.' {
        c
    } else {
        '-'
    }
}

/// The last segment of a reference: what stands behind its last `/`.
pub open spec fn last_segment(s: Seq<char>) -> Seq<char> {
    match s.index_of_last('/') {
        Some(i) => s.skip(i + 1),
        None => s,
    }
}

/// At most 30 characters of the last segment of a reference, as they stand in a name.
pub open spec fn name_base(s: Seq<char>) -> Seq<char> {
    let base = last_segment(s).map_values(|c: char| name_char(c));
    if base.len() > 30 {
        base.take(30)
    } else {
        base
    }
}

/// Whether the character at position `i` has a letter or digit on either side.
pub open spec fn enclosed(s: Seq<char>, i: int) -> bool {
    0 < i < s.len() - 1 && ascii_alphanumeric(s[i - 1]) && ascii_alphanumeric(s[i + 1])
}

/// The readable part of a name: the base of the reference, with a `-` for every `.` that does not
/// stand between letters or digits, so that every label of the name starts and ends with one.
pub open spec fn name_stem(s: Seq<char>) -> Seq<char> {
    let base = name_base(s);
    Seq::new(
        base.len(),
        |i: int|
            if base[i] == '.' && !enclosed(base, i) {
                '-'
            } else {
                base[i]
            },
    )
}

/// The name of the Image resource for the reference `s`, given the hexadecimal hash of `s`.
pub open spec fn image_name(s: Seq<char>, hash: Seq<char>) -> Seq<char> {
    "img-"@ + name_stem(s) + "-"@ + hash.take(16)
}

/// Whether `c` may stand in a DNS name.
pub open spec fn dns_char(c: char) -> bool {
    'a' <= c <= 'z' || '0' <= c <= '9' || c == '-' || c == '.'
}

/// Whether a name of at most 51 characters is a DNS subdomain name: it holds only characters that
/// such a name may hold, and each of its labels, which the `.` part, starts and ends with a letter
/// or digit.
pub open spec fn dns_safe(name: Seq<char>) -> bool {
    &&& 0 < name.len() <= 51
    &&& forall|i: int| 0 <= i < name.len() ==> dns_char(#[trigger] name[i])
    &&& ascii_alphanumeric(name[0])
    &&& ascii_alphanumeric(name.last())
    &&& forall|i: int| 0 <= i < name.len() && #[trigger] name[i] == '.' ==> enclosed(name, i)
}

/// The hexadecimal SHA-256 hash of a reference.
pub open spec fn reference_hash(s: Seq<char>) -> Seq<char> {
    hex_text(sha256_digest(encode_utf8(s)))
}

/// The name for `image_ref`, given the hexadecimal hash of the reference.
pub fn image_name_from_hash(image_ref: &str, hash: &str) -> (r: String)
    requires
        hash@.len() >= 16,
    ensures
        r@ == image_name(image_ref@, hash@),
{
    let chars = chars_of(image_ref);
    let n: usize = chars.len();
    proof {
        image_ref@.index_of_last_ensures('/');
    }
    let start: usize = match find_last(&chars, '/') {
        Some(slash) => slash + 1,
        None => 0,
    };
    let ghost whole = last_segment(image_ref@).map_values(|c: char| name_char(c));
    let mut base: Vec<char> = Vec::new();
    let mut i: usize = start;
    while i < n && i - start < 30
        invariant
            start <= i <= n == chars.len(),
            i - start <= 30,
            chars@ == image_ref@,
            whole == image_ref@.skip(start as int).map_values(|c: char| name_char(c)),
            base@ == whole.take(i - start),
        decreases n - i,
    {
        base.push(to_name_char(chars[i]));
        assert(whole.take(i + 1 - start) =~= whole.take(i - start).push(whole[i - start]));
        i += 1;
    }
    assert(base@ =~= name_base(image_ref@));
    let ghost stem = name_stem(image_ref@);
    let mut name: String = "img-".to_owned();
    let m: usize = base.len();
    let mut k: usize = 0;
    while k < m
        invariant
            k <= m == base.len() == stem.len(),
            base@ == name_base(image_ref@),
            stem == name_stem(image_ref@),
            name@ == "img-"@ + stem.take(k as int),
        decreases m - k,
    {
        let kept = base[k] != '.' || (0 < k && k < m - 1 && is_alphanumeric(base[k - 1])
            && is_alphanumeric(base[k + 1]));
        name.push(if kept { base[k] } else { '-' });
        assert(stem.take(k + 1) =~= stem.take(k as int).push(stem[k as int]));
        k += 1;
    }
    assert(stem.take(k as int) =~= stem);
    name.append("-");
    name.append(hash.substring_char(0, 16));
    assert(hash@.subrange(0, 16) =~= hash@.take(16));
    name
}

/// The name of the Image resource for `image_ref`: a readable stem and the first 16 digits of
/// the hash of the whole reference, which has 64.
pub fn generate_image_name(image_ref: &str) -> (r: String)
    ensures
        r@ == image_name(image_ref@, reference_hash(image_ref@)),
        reference_hash(image_ref@).len() == 64,
        dns_safe(r@),
{
    let digest = sha256(image_ref.as_bytes());
    let hash = hex_encode(&digest);
    proof {
        image_name_is_dns_safe(image_ref@, digest@);
    }
    image_name_from_hash(image_ref, hash.as_str())
}

/// The hexadecimal digits are letters and digits that a DNS name may hold.
proof fn lemma_hex_digit_plain(d: int)
    requires
        0 <= d < 16,
    ensures
        dns_char(hex_digit(d)),
        ascii_alphanumeric(hex_digit(d)),
{
}

/// Every name is a DNS subdomain name of at most 51 characters.
pub proof fn image_name_is_dns_safe(s: Seq<char>, data: Seq<u8>)
    requires
        data.len() >= 8,
    ensures
        dns_safe(image_name(s, hex_text(data))),
{
    reveal_strlit("img-");
    reveal_strlit("-");
    let hash = hex_text(data);
    let name = image_name(s, hash);
    let base = name_base(s);
    let stem = name_stem(s);
    assert forall|i: int| 0 <= i < hash.len() implies dns_char(#[trigger] hash[i])
        && ascii_alphanumeric(hash[i]) by {
        if i % 2 == 0 {
            lemma_hex_digit_plain(data[i / 2] as int / 16);
        } else {
            lemma_hex_digit_plain(data[i / 2] as int % 16);
        }
    }
    assert forall|i: int| 0 <= i < stem.len() implies dns_char(#[trigger] stem[i]) by {
        assert(dns_char(base[i]));
    }
    assert forall|i: int| 0 <= i < name.len() implies dns_char(#[trigger] name[i]) && (name[i]
        == '.' ==> enclosed(name, i)) by {
        if i < 4 {
            assert(name[i] == "img-"@[i]);
        } else if i < 4 + stem.len() {
            assert(name[i] == stem[i - 4]);
            if name[i] == '.' {
                assert(enclosed(base, i - 4));
                assert(stem[i - 5] == base[i - 5] && stem[i - 3] == base[i - 3]);
                assert(name[i - 1] == stem[i - 5] && name[i + 1] == stem[i - 3]);
            }
        } else if i == 4 + stem.len() {
            assert(name[i] == '-');
        } else {
            assert(name[i] == hash[i - 5 - stem.len()]);
        }
    }
    assert(name[0] == "img-"@[0]);
    assert(name.last() == hash[15]);
}

/// Two references with the same name have hashes that agree in their first 16 digits, and the
/// same stem.
pub proof fn image_name_tells_hash(s: Seq<char>, h: Seq<char>, s2: Seq<char>, h2: Seq<char>)
    requires
        h.len() >= 16,
        h2.len() >= 16,
        image_name(s, h) == image_name(s2, h2),
    ensures
        h.take(16) == h2.take(16),
        name_stem(s) == name_stem(s2),
{
    reveal_strlit("img-");
    reveal_strlit("-");
    let name = image_name(s, h);
    let n = name.len();
    assert(name.skip(n - 16) =~= h.take(16));
    assert(image_name(s2, h2).skip(n - 16) =~= h2.take(16));
    assert(name.subrange(4, n - 17) =~= name_stem(s));
    assert(image_name(s2, h2).subrange(4, n - 17) =~= name_stem(s2));
}

/// Two references whose hashes, of 64 digits each, differ in their first 16 have different names,
/// however alike they are otherwise.
pub proof fn different_hashes_give_different_names(a: Seq<char>, b: Seq<char>)
    requires
        reference_hash(a).len() == 64,
        reference_hash(b).len() == 64,
        reference_hash(a).take(16) != reference_hash(b).take(16),
    ensures
        image_name(a, reference_hash(a)) != image_name(b, reference_hash(b)),
{
    if image_name(a, reference_hash(a)) == image_name(b, reference_hash(b)) {
        image_name_tells_hash(a, reference_hash(a), b, reference_hash(b));
    }
}

/// A name is `img-`, a character for each of the first 30 of the last segment of the reference,
/// a `-`, and the first 16 digits of the hash. The folder before the last segment leaves no trace
/// in it but by the hash.
pub proof fn names_are_put_together(folder: Seq<char>, segment: Seq<char>, hash: Seq<char>)
    requires
        folder.len() > 0 ==> folder.last() == '/',
        !segment.contains('/'),
        hash.len() >= 16,
    ensures
        ({
            let name = image_name(folder + segment, hash);
            let kept: int = if segment.len() <= 30 {
                segment.len() as int
            } else {
                30
            };
            &&& name.len() == kept + 21
            &&& name.take(4) == "img-"@
            &&& name[kept + 4] == '-'
            &&& name.skip(kept + 5) == hash.subrange(0, 16)
            &&& forall|i: int|
                0 <= i < kept ==> {
                    let c = segment[i];
                    let n = #[trigger] name[i + 4];
                    &&& 'a' <= c <= 'z' || '0' <= c <= '9' ==> n == c
                    &&& 'A' <= c <= 'Z' ==> n as int == c as int + 32
                    &&& c == '.' ==> n == if 0 < i < kept - 1 && ascii_alphanumeric(segment[i - 1])
                        && ascii_alphanumeric(segment[i + 1]) {
                        '.'
                    } else {
                        '-'
                    }
                    &&& !ascii_alphanumeric(c) && c != '.' ==> n == '-'
                }
        }),
{
    reveal_strlit("img-");
    reveal_strlit("-");
    let s = folder + segment;
    s.index_of_last_ensures('/');
    if s.contains('/') {
        let i = s.index_of_last('/')->0;
        if i >= folder.len() {
            assert(segment[i - folder.len()] == '/');
        }
    }
    if folder.len() > 0 {
        assert(s[folder.len() - 1] == '/');
        assert(s.contains('/'));
    }
    assert(last_segment(s) =~= segment);
    let name = image_name(s, hash);
    let base = name_base(s);
    let stem = name_stem(s);
    let kept = base.len() as int;
    assert forall|i: int| 0 <= i < kept implies {
        let c = segment[i];
        let n = #[trigger] name[i + 4];
        &&& 'a' <= c <= 'z' || '0' <= c <= '9' ==> n == c
        &&& 'A' <= c <= 'Z' ==> n as int == c as int + 32
        &&& c == '.' ==> n == if 0 < i < kept - 1 && ascii_alphanumeric(segment[i - 1])
            && ascii_alphanumeric(segment[i + 1]) {
            '.'
        } else {
            '-'
        }
        &&& !ascii_alphanumeric(c) && c != '.' ==> n == '-'
    } by {
        assert(name[i + 4] == stem[i]);
        assert(base[i] == name_char(segment[i]));
        if 0 < i < kept - 1 {
            assert(base[i - 1] == name_char(segment[i - 1]));
            assert(base[i + 1] == name_char(segment[i + 1]));
        }
    }
    assert(name.take(4) =~= "img-"@);
    assert(name.skip(kept + 5) =~= hash.subrange(0, 16));
}

/// The letters and digits of ASCII, and no other characters, are alphanumeric.
pub proof fn alphanumeric_characters(c: char)
    ensures
        ascii_alphanumeric(c) <==> {
            ||| 48 <= c as int <= 57
            ||| 65 <= c as int <= 90
            ||| 97 <= c as int <= 122
        },
{
}

/// Names tell references apart by the first 8 bytes of the SHA-256 digest of the whole
/// reference: where these differ, so do the names.
pub proof fn names_tell_digests_apart(a: Seq<char>, b: Seq<char>, i: int)
    requires
        sha256_digest(encode_utf8(a)).len() == 32,
        sha256_digest(encode_utf8(b)).len() == 32,
        0 <= i < 8,
        sha256_digest(encode_utf8(a))[i] != sha256_digest(encode_utf8(b))[i],
    ensures
        image_name(a, reference_hash(a)) != image_name(b, reference_hash(b)),
{
    let x = sha256_digest(encode_utf8(a));
    let y = sha256_digest(encode_utf8(b));
    let ha = reference_hash(a);
    let hb = reference_hash(b);
    if image_name(a, ha) == image_name(b, hb) {
        image_name_tells_hash(a, ha, b, hb);
        assert(ha.take(16)[2 * i] == ha[2 * i] && hb.take(16)[2 * i] == hb[2 * i]);
        assert(ha.take(16)[2 * i + 1] == ha[2 * i + 1] && hb.take(16)[2 * i + 1] == hb[2 * i + 1]);
        lemma_hex_digits_differ(x[i] as int / 16, y[i] as int / 16);
        lemma_hex_digits_differ(x[i] as int % 16, y[i] as int % 16);
    }
}

/// Different digits are written differently.
proof fn lemma_hex_digits_differ(a: int, b: int)
    requires
        0 <= a < 16,
        0 <= b < 16,
        hex_digit(a) == hex_digit(b),
    ensures
        a == b,
{
}

} // verus!
