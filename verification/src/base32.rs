//! Addresses as text in Bech32: bytes regrouped into groups of five bits, with a prefix in front
//! and a checksum behind.
use bech32::{CheckBase32, FromBase32, ToBase32};
use vstd::prelude::*;

verus! {

/// The two kinds of checksum.
#[derive(Clone, Copy, Debug, PartialEq, Eq, Structural)]
pub enum Variant {
    Bech32,
    Bech32m,
}

/// What a text in Bech32 holds: the prefix, the groups of five bits, and the kind of checksum.
#[derive(Clone, Debug, PartialEq, Eq)]
pub struct Decoded {
    pub prefix: String,
    pub groups: Vec<u8>,
    pub variant: Variant,
}

impl View for Decoded {
    type V = (Seq<char>, Seq<u8>, Variant);

    open spec fn view(&self) -> (Seq<char>, Seq<u8>, Variant) {
        (self.prefix@, self.groups@, self.variant)
    }
}

/// Bit `i` of a byte, counted from the highest.
pub open spec fn byte_bit(b: u8, i: int) -> bool {
    (b >> ((7 - i) as u8)) & 1u8 == 1u8
}

/// Bit `i` of a group of five bits, counted from the highest.
pub open spec fn group_bit(g: u8, i: int) -> bool {
    (g >> ((4 - i) as u8)) & 1u8 == 1u8
}

/// Bit `k` of a sequence of bytes.
pub open spec fn bit8(bytes: Seq<u8>, k: int) -> bool {
    byte_bit(bytes[k / 8], k % 8)
}

/// Bit `k` of a sequence of groups of five bits.
pub open spec fn bit5(groups: Seq<u8>, k: int) -> bool {
    group_bit(groups[k / 5], k % 5)
}

pub open spec fn are_groups(groups: Seq<u8>) -> bool {
    forall|i: int| 0 <= i < groups.len() ==> #[trigger] groups[i] < 32
}

/// `groups` has the bits of `bytes`, filled up with zeros to the next multiple of five.
pub open spec fn regrouped(bytes: Seq<u8>, groups: Seq<u8>) -> bool {
    &&& groups.len() == (8 * bytes.len() + 4) / 5
    &&& are_groups(groups)
    &&& forall|k: int|
        0 <= k < 5 * groups.len() ==> (#[trigger] bit5(groups, k) <==> k < 8 * bytes.len()
            && bit8(bytes, k))
}

/// The groups of five bits of `bytes`.
pub open spec fn groups_of(bytes: Seq<u8>) -> Seq<u8> {
    choose|groups: Seq<u8>| regrouped(bytes, groups)
}

/// The bytes that `groups` come from, if they come from any.
pub open spec fn bytes_of(groups: Seq<u8>) -> Option<Seq<u8>> {
    if exists|bytes: Seq<u8>| regrouped(bytes, groups) {
        Some(choose|bytes: Seq<u8>| regrouped(bytes, groups))
    } else {
        None
    }
}

proof fn lemma_byte_from_bits(a: u8, b: u8)
    requires
        forall|i: int| 0 <= i < 8 ==> #[trigger] byte_bit(a, i) == byte_bit(b, i),
    ensures
        a == b,
{
    assert(byte_bit(a, 0) == byte_bit(b, 0));
    assert(byte_bit(a, 1) == byte_bit(b, 1));
    assert(byte_bit(a, 2) == byte_bit(b, 2));
    assert(byte_bit(a, 3) == byte_bit(b, 3));
    assert(byte_bit(a, 4) == byte_bit(b, 4));
    assert(byte_bit(a, 5) == byte_bit(b, 5));
    assert(byte_bit(a, 6) == byte_bit(b, 6));
    assert(byte_bit(a, 7) == byte_bit(b, 7));
    assert(a == b) by (bit_vector)
        requires
            ((a >> 7u8) & 1u8 == 1u8) == ((b >> 7u8) & 1u8 == 1u8),
            ((a >> 6u8) & 1u8 == 1u8) == ((b >> 6u8) & 1u8 == 1u8),
            ((a >> 5u8) & 1u8 == 1u8) == ((b >> 5u8) & 1u8 == 1u8),
            ((a >> 4u8) & 1u8 == 1u8) == ((b >> 4u8) & 1u8 == 1u8),
            ((a >> 3u8) & 1u8 == 1u8) == ((b >> 3u8) & 1u8 == 1u8),
            ((a >> 2u8) & 1u8 == 1u8) == ((b >> 2u8) & 1u8 == 1u8),
            ((a >> 1u8) & 1u8 == 1u8) == ((b >> 1u8) & 1u8 == 1u8),
            ((a >> 0u8) & 1u8 == 1u8) == ((b >> 0u8) & 1u8 == 1u8),
    ;
}

proof fn lemma_group_from_bits(a: u8, b: u8)
    requires
        a < 32,
        b < 32,
        forall|i: int| 0 <= i < 5 ==> #[trigger] group_bit(a, i) == group_bit(b, i),
    ensures
        a == b,
{
    assert(group_bit(a, 0) == group_bit(b, 0));
    assert(group_bit(a, 1) == group_bit(b, 1));
    assert(group_bit(a, 2) == group_bit(b, 2));
    assert(group_bit(a, 3) == group_bit(b, 3));
    assert(group_bit(a, 4) == group_bit(b, 4));
    assert(a == b) by (bit_vector)
        requires
            a < 32,
            b < 32,
            ((a >> 4u8) & 1u8 == 1u8) == ((b >> 4u8) & 1u8 == 1u8),
            ((a >> 3u8) & 1u8 == 1u8) == ((b >> 3u8) & 1u8 == 1u8),
            ((a >> 2u8) & 1u8 == 1u8) == ((b >> 2u8) & 1u8 == 1u8),
            ((a >> 1u8) & 1u8 == 1u8) == ((b >> 1u8) & 1u8 == 1u8),
            ((a >> 0u8) & 1u8 == 1u8) == ((b >> 0u8) & 1u8 == 1u8),
    ;
}

/// Groups come from one sequence of bytes at most.
pub proof fn law_bytes_are_determined(a: Seq<u8>, b: Seq<u8>, groups: Seq<u8>)
    requires
        regrouped(a, groups),
        regrouped(b, groups),
    ensures
        a == b,
        bytes_of(groups) == Some(a),
{
    lemma_same_bytes(a, b, groups);
    let c = choose|bytes: Seq<u8>| regrouped(bytes, groups);
    lemma_same_bytes(a, c, groups);
}

proof fn lemma_same_bytes(a: Seq<u8>, b: Seq<u8>, groups: Seq<u8>)
    requires
        regrouped(a, groups),
        regrouped(b, groups),
    ensures
        a == b,
{
    assert(a.len() == b.len());
    assert forall|j: int| 0 <= j < a.len() implies a[j] == b[j] by {
        assert forall|i: int| 0 <= i < 8 implies #[trigger] byte_bit(a[j], i) == byte_bit(
            b[j],
            i,
        ) by {
            let k = 8 * j + i;
            assert(k / 8 == j && k % 8 == i);
            assert(bit5(groups, k) <==> bit8(a, k));
            assert(bit5(groups, k) <==> bit8(b, k));
        }
        lemma_byte_from_bits(a[j], b[j]);
    }
    assert(a =~= b);
}

/// Bytes have one sequence of groups only.
pub proof fn law_groups_are_determined(bytes: Seq<u8>, a: Seq<u8>, b: Seq<u8>)
    requires
        regrouped(bytes, a),
        regrouped(bytes, b),
    ensures
        a == b,
        groups_of(bytes) == a,
{
    lemma_same_groups(bytes, a, b);
    let c = choose|groups: Seq<u8>| regrouped(bytes, groups);
    lemma_same_groups(bytes, a, c);
}

proof fn lemma_same_groups(bytes: Seq<u8>, a: Seq<u8>, b: Seq<u8>)
    requires
        regrouped(bytes, a),
        regrouped(bytes, b),
    ensures
        a == b,
{
    assert forall|j: int| 0 <= j < a.len() implies a[j] == b[j] by {
        assert forall|i: int| 0 <= i < 5 implies #[trigger] group_bit(a[j], i) == group_bit(
            b[j],
            i,
        ) by {
            let k = 5 * j + i;
            assert(k / 5 == j && k % 5 == i);
            assert(bit5(a, k) == bit5(b, k));
        }
        lemma_group_from_bits(a[j], b[j]);
    }
    assert(a =~= b);
}

/// The group with these bits, highest first.
spec fn pack(b0: bool, b1: bool, b2: bool, b3: bool, b4: bool) -> u8 {
    (if b0 { 16u8 } else { 0u8 }) | (if b1 { 8u8 } else { 0u8 }) | (if b2 { 4u8 } else { 0u8 }) | (
    if b3 { 2u8 } else { 0u8 }) | (if b4 { 1u8 } else { 0u8 })
}

proof fn lemma_pack(b0: bool, b1: bool, b2: bool, b3: bool, b4: bool)
    ensures
        pack(b0, b1, b2, b3, b4) < 32,
        group_bit(pack(b0, b1, b2, b3, b4), 0) == b0,
        group_bit(pack(b0, b1, b2, b3, b4), 1) == b1,
        group_bit(pack(b0, b1, b2, b3, b4), 2) == b2,
        group_bit(pack(b0, b1, b2, b3, b4), 3) == b3,
        group_bit(pack(b0, b1, b2, b3, b4), 4) == b4,
{
    let g = pack(b0, b1, b2, b3, b4);
    assert({
        &&& g < 32
        &&& ((g >> 4u8) & 1u8 == 1u8) == b0
        &&& ((g >> 3u8) & 1u8 == 1u8) == b1
        &&& ((g >> 2u8) & 1u8 == 1u8) == b2
        &&& ((g >> 1u8) & 1u8 == 1u8) == b3
        &&& ((g >> 0u8) & 1u8 == 1u8) == b4
    }) by (bit_vector)
        requires
            g == (if b0 { 16u8 } else { 0u8 }) | (if b1 { 8u8 } else { 0u8 }) | (if b2 {
                4u8
            } else {
                0u8
            }) | (if b3 { 2u8 } else { 0u8 }) | (if b4 { 1u8 } else { 0u8 }),
    ;
}

spec fn padded_bit(bytes: Seq<u8>, k: int) -> bool {
    k < 8 * bytes.len() && bit8(bytes, k)
}

/// All bytes can be regrouped, and are got back from their groups.
pub proof fn law_regrouping_round_trip(bytes: Seq<u8>)
    ensures
        regrouped(bytes, groups_of(bytes)),
        bytes_of(groups_of(bytes)) == Some(bytes),
{
    let n = ((8 * bytes.len() + 4) / 5) as nat;
    let groups = Seq::new(
        n,
        |j: int|
            pack(
                padded_bit(bytes, 5 * j),
                padded_bit(bytes, 5 * j + 1),
                padded_bit(bytes, 5 * j + 2),
                padded_bit(bytes, 5 * j + 3),
                padded_bit(bytes, 5 * j + 4),
            ),
    );
    assert forall|j: int| 0 <= j < n implies #[trigger] groups[j] < 32 by {
        lemma_pack(
            padded_bit(bytes, 5 * j),
            padded_bit(bytes, 5 * j + 1),
            padded_bit(bytes, 5 * j + 2),
            padded_bit(bytes, 5 * j + 3),
            padded_bit(bytes, 5 * j + 4),
        );
    }
    assert forall|k: int| 0 <= k < 5 * groups.len() implies (#[trigger] bit5(groups, k) <==> k < 8
        * bytes.len() && bit8(bytes, k)) by {
        let j = k / 5;
        lemma_pack(
            padded_bit(bytes, 5 * j),
            padded_bit(bytes, 5 * j + 1),
            padded_bit(bytes, 5 * j + 2),
            padded_bit(bytes, 5 * j + 3),
            padded_bit(bytes, 5 * j + 4),
        );
        assert(bit5(groups, k) == group_bit(groups[j], k - 5 * j));
        assert(padded_bit(bytes, k) == group_bit(groups[j], k - 5 * j));
    }
    assert(regrouped(bytes, groups));
    law_bytes_are_determined(bytes, bytes, groups_of(bytes));
}

pub open spec fn is_lower(c: char) -> bool {
    'a' <= c <= 'z'
}

pub open spec fn is_upper(c: char) -> bool {
    'A' <= c <= 'Z'
}

pub open spec fn char_lower(c: char) -> char {
    if is_upper(c) {
        (c as int + 32) as char
    } else {
        c
    }
}

pub open spec fn lowercase(s: Seq<char>) -> Seq<char> {
    s.map_values(|c: char| char_lower(c))
}

/// A prefix has 1 to 83 visible ASCII characters and does not mix upper and lower case.
pub open spec fn valid_prefix(s: Seq<char>) -> bool {
    &&& 1 <= s.len() <= 83
    &&& forall|i: int| 0 <= i < s.len() ==> 33 <= (#[trigger] s[i]) as int <= 126
    &&& !((exists|i: int| 0 <= i < s.len() && is_lower(#[trigger] s[i])) && (exists|i: int|
        0 <= i < s.len() && is_upper(#[trigger] s[i])))
}

/// What `bech32::decode` makes of a text, or nothing where it fails.
pub uninterp spec fn bech32_decoded(s: Seq<char>) -> Option<(Seq<char>, Seq<u8>, Variant)>;

/// The text that `bech32::encode` makes of a valid prefix and groups of five bits.
pub uninterp spec fn bech32_encoded(prefix: Seq<char>, groups: Seq<u8>) -> Seq<char>;

/// Calls `bech32::decode`. Claims that it is a function of the text; that what it gives as prefix
/// is a valid one in lower case, and as data groups of five bits; and that, where the checksum is
/// the older of the two, `bech32::encode` gives back the text, in lower case. Which of its errors
/// came is left out.
#[verifier::external_body]
pub(crate) fn decode(s: &str) -> (r: Option<Decoded>)
    ensures
        match r {
            Some(d) => {
                &&& bech32_decoded(s@) == Some(d@)
                &&& valid_prefix(d.prefix@)
                &&& lowercase(d.prefix@) == d.prefix@
                &&& are_groups(d.groups@)
                &&& d.variant == Variant::Bech32 ==> bech32_encoded(d.prefix@, d.groups@)
                    == lowercase(s@)
            },
            None => bech32_decoded(s@) is None,
        },
{
    let (prefix, data, variant) = bech32::decode(s).ok()?;
    let groups = data.iter().map(|g| g.to_u8()).collect();
    let variant = match variant {
        bech32::Variant::Bech32 => Variant::Bech32,
        bech32::Variant::Bech32m => Variant::Bech32m,
    };
    Some(Decoded { prefix, groups, variant })
}

/// Calls `bech32::encode` for the older of the two checksums. Claims that it fails on the prefixes
/// that are not valid and on no others; that the text is a function of prefix and groups, is in
/// lower case, and begins with the prefix and a `1`; and that `bech32::decode` gives back the
/// prefix, in lower case, and the groups.
#[verifier::external_body]
pub(crate) fn encode(prefix: &str, groups: &[u8]) -> (r: Option<String>)
    requires
        are_groups(groups@),
    ensures
        match r {
            Some(s) => {
                &&& valid_prefix(prefix@)
                &&& s@ == bech32_encoded(prefix@, groups@)
                &&& lowercase(s@) == s@
                &&& lowercase(prefix@).push('1').is_prefix_of(s@)
                &&& bech32_decoded(s@) == Some((lowercase(prefix@), groups@, Variant::Bech32))
            },
            None => !valid_prefix(prefix@),
        },
{
    let data = groups.check_base32().unwrap();
    bech32::encode(prefix, data, bech32::Variant::Bech32).ok()
}

/// Calls `to_base32` of `bech32` on bytes. Claims that it gives their bits in groups of five,
/// filled up with zeros.
#[verifier::external_body]
fn to_base32(bytes: &[u8]) -> (r: Vec<u8>)
    ensures
        regrouped(bytes@, r@),
{
    bytes.to_base32().iter().map(|g| g.to_u8()).collect()
}

/// Calls `from_base32` of `bech32` for bytes. Claims that it gives the bytes that the groups come
/// from, and fails where they come from none: where five or more bits are left over, or one that
/// is not zero.
#[verifier::external_body]
fn from_base32(groups: &[u8]) -> (r: Option<Vec<u8>>)
    requires
        are_groups(groups@),
    ensures
        match r {
            Some(bytes) => regrouped(bytes@, groups@),
            None => forall|bytes: Seq<u8>| !regrouped(bytes, groups@),
        },
{
    let data = groups.check_base32().unwrap();
    Vec::<u8>::from_base32(&data).ok()
}

/// The groups of five bits of `bytes`.
pub fn bytes_to_groups(bytes: &[u8]) -> (r: Vec<u8>)
    ensures
        r@ == groups_of(bytes@),
        regrouped(bytes@, r@),
{
    let r = to_base32(bytes);
    proof {
        law_groups_are_determined(bytes@, r@, r@);
    }
    r
}

/// The bytes that `groups` come from, if they come from any.
pub fn groups_to_bytes(groups: &[u8]) -> (r: Option<Vec<u8>>)
    requires
        are_groups(groups@),
    ensures
        match r {
            Some(bytes) => bytes_of(groups@) == Some(bytes@),
            None => bytes_of(groups@) is None,
        },
{
    match from_base32(groups) {
        Some(bytes) => {
            proof {
                law_bytes_are_determined(bytes@, bytes@, groups@);
            }
            Some(bytes)
        },
        None => None,
    }
}

/// Lower case changes the letters from A to Z, each to the letter 32 places on, and nothing else;
/// what is in lower case stays as it is.
pub proof fn law_lower_case(s: Seq<char>, i: int)
    requires
        0 <= i < s.len(),
    ensures
        lowercase(s).len() == s.len(),
        'A' <= s[i] <= 'Z' ==> lowercase(s)[i] as int == s[i] as int + 32,
        !('A' <= s[i] <= 'Z') ==> lowercase(s)[i] == s[i],
        lowercase(lowercase(s)) == lowercase(s),
        lowercase(s) == s <==> forall|j: int|
            0 <= j < s.len() ==> !('A' <= #[trigger] s[j] <= 'Z'),
{
    assert(lowercase(lowercase(s)) =~= lowercase(s));
    if lowercase(s) == s {
        assert forall|j: int| 0 <= j < s.len() implies !('A' <= #[trigger] s[j] <= 'Z') by {
            assert(lowercase(s)[j] == char_lower(s[j]));
        }
    } else if forall|j: int| 0 <= j < s.len() ==> !('A' <= #[trigger] s[j] <= 'Z') {
        assert(lowercase(s) =~= s);
    }
}

/// Five bits make a group and eight a byte, in order and highest first: bit `k` of the bytes is bit
/// `k` of the groups, and what the groups have beyond the bytes is zero.
pub proof fn law_regrouping_keeps_the_bits(bytes: Seq<u8>, groups: Seq<u8>, k: int)
    requires
        regrouped(bytes, groups),
        0 <= k < 5 * groups.len(),
    ensures
        8 * bytes.len() <= 5 * groups.len() < 8 * bytes.len() + 5,
        groups[k / 5] < 32,
        k < 8 * bytes.len() ==> ((groups[k / 5] >> ((4 - k % 5) as u8)) & 1 == 1 <==> (bytes[k / 8]
            >> ((7 - k % 8) as u8)) & 1 == 1),
        k >= 8 * bytes.len() ==> (groups[k / 5] >> ((4 - k % 5) as u8)) & 1 != 1,
{
    assert(bit5(groups, k) <==> k < 8 * bytes.len() && bit8(bytes, k));
}

/// A prefix is valid exactly where it has 1 to 83 characters, all of them visible in ASCII, and has
/// letters of one case only; groups are numbers below 32.
pub proof fn law_prefixes_and_groups(s: Seq<char>, groups: Seq<u8>)
    ensures
        valid_prefix(s) <==> {
            &&& 1 <= s.len() <= 83
            &&& forall|i: int| 0 <= i < s.len() ==> 33 <= (#[trigger] s[i]) as int <= 126
            &&& forall|i: int, j: int|
                #![trigger s[i], s[j]]
                0 <= i < s.len() && 0 <= j < s.len() ==> !('a' <= s[i] <= 'z' && 'A' <= s[j] <= 'Z')
        },
        are_groups(groups) <==> forall|i: int|
            0 <= i < groups.len() ==> #[trigger] groups[i] <= 31,
{
    if (exists|i: int| 0 <= i < s.len() && is_lower(#[trigger] s[i])) && (exists|i: int|
        0 <= i < s.len() && is_upper(#[trigger] s[i])) {
        let i = choose|i: int| 0 <= i < s.len() && is_lower(#[trigger] s[i]);
        let j = choose|j: int| 0 <= j < s.len() && is_upper(#[trigger] s[j]);
        assert('a' <= s[i] <= 'z' && 'A' <= s[j] <= 'Z');
    } else {
        assert forall|i: int, j: int|
            #![trigger s[i], s[j]]
            0 <= i < s.len() && 0 <= j < s.len() implies !('a' <= s[i] <= 'z' && 'A' <= s[j]
            <= 'Z') by {
            if 'a' <= s[i] <= 'z' && 'A' <= s[j] <= 'Z' {
                assert(is_lower(s[i]));
                assert(is_upper(s[j]));
            }
        }
    }
}

} // verus!
