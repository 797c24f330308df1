//! EMV payment payloads: TLV records with a mandatory trailing CRC-16
//! checksum record (tag 63, length 4, value in uppercase hexadecimal).

use vstd::prelude::*;
use vstd::string::StrSliceExecFns;
use vstd::string::StringSliceAdditionalSpecFns;

verus! {

/// Failures while validating or parsing an EMV payload.
#[derive(Debug, PartialEq)]
pub enum EmvError {
    /// The trailing checksum does not match the computed one.
    InvalidCrc { expected: String, actual: String },
    /// The payload does not end in a tag-63 length-4 checksum record.
    MissingChecksum,
    /// A verification step could not be carried out.
    ParseVerify(String),
    /// The payload is not well-formed TLV.
    MalformedData,
}

/// One step of CRC-16/CCITT (Kermit variant, polynomial 0x1021), using the
/// standard nibble-based table-free reduction.
pub open spec fn crc16_step(crc: u16, byte: u8) -> u16 {
    let x = ((crc >> 8) ^ (byte as u16)) & 0xFF;
    let x2 = x ^ (x >> 4);
    ((crc << 8) ^ (x2 << 12) ^ (x2 << 5)) ^ x2
}

/// CRC-16/CCITT over a byte string, initial value 0xFFFF, processed left to
/// right.
pub open spec fn crc16_spec(data: Seq<u8>) -> u16
    decreases data.len(),
{
    if data.len() == 0 {
        0xFFFF
    } else {
        crc16_step(crc16_spec(data.drop_last()), data.last())
    }
}

/// CRC-16/CCITT-FALSE (Kermit): polynomial 0x1021, initial value 0xFFFF.
pub fn crc16_ccitt_kermit(data: &[u8]) -> (r: u16)
    ensures
        r == crc16_spec(data@),
{
    let n = data.len();
    let mut crc: u16 = 0xFFFF;
    let mut i: usize = 0;
    while i < n
        invariant
            i <= n,
            n == data@.len(),
            crc == crc16_spec(data@.take(i as int)),
        decreases n - i,
    {
        let byte: u8 = data[i];
        let x: u16 = ((crc >> 8) ^ (byte as u16)) & 0xFF;
        let x2: u16 = x ^ (x >> 4);
        crc = ((crc << 8) ^ (x2 << 12) ^ (x2 << 5)) ^ x2;
        proof {
            assert(data@.take(i + 1).drop_last() =~= data@.take(i as int));
        }
        i = i + 1;
    }
    proof {
        assert(data@.take(n as int) =~= data@);
    }
    crc
}

/// The ASCII code of the uppercase hexadecimal digit for a nibble.
pub open spec fn hex_digit(n: int) -> u8 {
    if n < 10 {
        (48 + n) as u8
    } else {
        (55 + n) as u8
    }
}

/// The four uppercase hexadecimal ASCII bytes of a 16-bit value, most
/// significant nibble first.
pub open spec fn hex4(v: u16) -> Seq<u8> {
    seq![
        hex_digit((v >> 12) as int),
        hex_digit(((v >> 8) & 0xF) as int),
        hex_digit(((v >> 4) & 0xF) as int),
        hex_digit((v & 0xF) as int),
    ]
}

fn hex_digit_exec(n: u16) -> (r: u8)
    requires
        n < 16,
    ensures
        r == hex_digit(n as int),
{
    if n < 10 {
        48 + n as u8
    } else {
        55 + n as u8
    }
}

/// The four uppercase hexadecimal digits of `v`.
fn hex4_exec(v: u16) -> (r: [u8; 4])
    ensures
        r@ == hex4(v),
{
    proof {
        assert((v >> 12) < 16 && ((v >> 8) & 0xF) < 16 && ((v >> 4) & 0xF) < 16 && (v & 0xF) < 16)
            by (bit_vector);
    }
    let r = [
        hex_digit_exec(v >> 12),
        hex_digit_exec((v >> 8) & 0xF),
        hex_digit_exec((v >> 4) & 0xF),
        hex_digit_exec(v & 0xF),
    ];
    proof {
        assert(r@ =~= hex4(v));
    }
    r
}

/// A byte rendered as a character for diagnostics: ASCII stays itself,
/// anything else becomes '?'.
pub open spec fn byte_char(b: u8) -> char {
    if b < 128 {
        b as char
    } else {
        '?'
    }
}

/// The bytes rendered as characters for diagnostics.
pub open spec fn bytes_chars(s: Seq<u8>) -> Seq<char> {
    Seq::new(s.len(), |i: int| byte_char(s[i]))
}

/// The payload ends with the literal checksum tag and length "6304".
pub open spec fn has_crc_tag(b: Seq<u8>) -> bool {
    &&& b.len() >= 8
    &&& b[b.len() - 8] == 54u8
    &&& b[b.len() - 7] == 51u8
    &&& b[b.len() - 6] == 48u8
    &&& b[b.len() - 5] == 52u8
}

/// The last four bytes spell, in uppercase hexadecimal exactly, the CRC of
/// everything before them.
pub open spec fn crc_matches(b: Seq<u8>) -> bool {
    let n = b.len() as int;
    let expected = hex4(crc16_spec(b.take(n - 4)));
    forall|k: int| 0 <= k < 4 ==> b[n - 4 + k] == expected[k]
}

/// A payload passes checksum validation: it ends in the tag-63 record and
/// the checksum spells the CRC of everything before it.
pub open spec fn crc_valid(b: Seq<u8>) -> bool {
    has_crc_tag(b) && crc_matches(b)
}

fn byte_char_exec(b: u8) -> (r: char)
    ensures
        r == byte_char(b),
{
    if b < 128 {
        b as char
    } else {
        '?'
    }
}

fn string_of_bytes(s: &[u8]) -> (r: String)
    ensures
        r@ == bytes_chars(s@),
{
    let n = s.len();
    let mut r = String::new();
    let mut i: usize = 0;
    while i < n
        invariant
            i <= n,
            n == s@.len(),
            r@ =~= bytes_chars(s@).take(i as int),
        decreases n - i,
    {
        r.push(byte_char_exec(s[i]));
        i = i + 1;
    }
    proof {
        assert(bytes_chars(s@).take(n as int) =~= bytes_chars(s@));
    }
    r
}

/// One TLV record: a two-character tag and its value.
pub ghost struct TlvRec {
    pub tag: Seq<char>,
    pub value: Seq<char>,
}

/// The TLV records of a payload, read front to back: tag (2 characters),
/// decimal length (2 digits), value. Fewer than four trailing characters
/// are ignored; a non-numeric length or one that overruns the payload is a
/// parse failure.
pub open spec fn tlv_records(s: Seq<char>) -> Option<Seq<TlvRec>>
    decreases s.len(),
{
    if s.len() < 4 {
        Some(seq![])
    } else if !(crate::text::is_digit(s[2]) && crate::text::is_digit(s[3])) {
        None
    } else {
        let l = 10 * crate::text::digit_val(s[2]) + crate::text::digit_val(s[3]);
        if 4 + l > s.len() {
            None
        } else {
            match tlv_records(s.skip(4 + l)) {
                None => None,
                Some(rest) => Some(
                    seq![TlvRec { tag: s.subrange(0, 2), value: s.subrange(4, 4 + l) }] + rest,
                ),
            }
        }
    }
}

/// The value of the last record with the given tag, if any.
pub open spec fn tlv_lookup(recs: Seq<TlvRec>, tag: Seq<char>) -> Option<Seq<char>>
    decreases recs.len(),
{
    if recs.len() == 0 {
        None
    } else if recs.last().tag == tag {
        Some(recs.last().value)
    } else {
        tlv_lookup(recs.drop_last(), tag)
    }
}

/// The tag of a record parsed as a two-digit number, if it is numeric.
pub open spec fn tag_num(tag: Seq<char>) -> Option<int> {
    if crate::text::all_digits(tag) && tag.len() == 2 {
        Some(crate::text::digits_val(tag))
    } else {
        None
    }
}

/// A parsed EMV payload. The three tag maps are association lists with
/// pairwise-distinct keys, each key holding the value of its last record.
#[derive(Debug, Clone)]
pub struct EmvData {
    pub raw_data: String,
    pub pfi: String,
    pub point_of_initiation: Option<String>,
    pub merchant_account_information: Vec<(String, String)>,
    pub merchant_category_code: Option<String>,
    pub transaction_currency: Option<String>,
    pub transaction_amount: Option<String>,
    pub country_code: Option<String>,
    pub merchant_name: Option<String>,
    pub merchant_city: Option<String>,
    pub postal_code: Option<String>,
    pub additional_data: Vec<(String, String)>,
    pub crc: String,
    pub unparsed_tags: Vec<(String, String)>,
}

/// Round trip of the checksum: appending the uppercase hexadecimal
/// CRC-16/Kermit of a payload that ends in the checksum tag "6304" yields a
/// payload that passes validation.
pub proof fn lemma_crc_round_trip(b: Seq<u8>)
    requires
        b.len() >= 4,
        b[b.len() - 4] == 54,
        b[b.len() - 3] == 51,
        b[b.len() - 2] == 48,
        b[b.len() - 1] == 52,
    ensures
        crc_valid(b + hex4(crc16_spec(b))),
{
    let crc = crc16_spec(b);
    let full = b + hex4(crc);
    let n = full.len() as int;
    assert(n == b.len() + 4);
    assert(full[n - 8] == b[b.len() - 4]);
    assert(full[n - 7] == b[b.len() - 3]);
    assert(full[n - 6] == b[b.len() - 2]);
    assert(full[n - 5] == b[b.len() - 1]);
    assert(has_crc_tag(full));
    assert(full.take(n - 4) =~= b);
    assert forall|k: int| 0 <= k < 4 implies #[trigger] full[n - 4 + k] == hex4(
        crc16_spec(full.take(n - 4)),
    )[k] by {
        assert(full[n - 4 + k] == hex4(crc)[k]);
    }
}

/// Tampering with the checksum: changing any one of its four characters to
/// any other character makes validation fail with a checksum mismatch,
/// never silently pass.
pub proof fn lemma_crc_flip(b: Seq<u8>, k: int, c: u8)
    requires
        crc_valid(b),
        0 <= k < 4,
        c != b[b.len() - 4 + k],
    ensures
        has_crc_tag(b.update(b.len() - 4 + k, c)),
        !crc_matches(b.update(b.len() - 4 + k, c)),
{
    let n = b.len() as int;
    let t = b.update(n - 4 + k, c);
    assert(t[n - 8] == b[n - 8]);
    assert(t[n - 7] == b[n - 7]);
    assert(t[n - 6] == b[n - 6]);
    assert(t[n - 5] == b[n - 5]);
    assert(t.take(n - 4) =~= b.take(n - 4));
    assert(t[n - 4 + k] == c);
    assert(b[n - 4 + k] == hex4(crc16_spec(b.take(n - 4)))[k]);
}

/// Value under `key` in an association list, scanning from the front.
pub open spec fn alist_find(v: Seq<(String, String)>, key: Seq<char>) -> Option<Seq<char>>
    decreases v.len(),
{
    if v.len() == 0 {
        None
    } else if v[0].0@ == key {
        Some(v[0].1@)
    } else {
        alist_find(v.skip(1), key)
    }
}

/// The keys of an association list are pairwise distinct.
pub open spec fn alist_unique(v: Seq<(String, String)>) -> bool {
    forall|i: int, j: int| 0 <= i < j < v.len() ==> v[i].0@ != v[j].0@
}

/// Tags that are mapped to named fields of `EmvData`.
pub open spec fn special_tag(k: Seq<char>) -> bool {
    ||| k == seq!['0', '0']
    ||| k == seq!['0', '1']
    ||| k == seq!['5', '2']
    ||| k == seq!['5', '3']
    ||| k == seq!['5', '4']
    ||| k == seq!['5', '8']
    ||| k == seq!['5', '9']
    ||| k == seq!['6', '0']
    ||| k == seq!['6', '1']
    ||| k == seq!['6', '3']
}

/// Whether a tag is numeric and falls in the merchant-account range 02-51.
pub open spec fn mai_tag(k: Seq<char>) -> bool {
    match tag_num(k) {
        Some(t) => 2 <= t <= 51,
        None => false,
    }
}

/// What the merchant-account map holds under `k`: the last record of a
/// numeric tag 02-51.
pub open spec fn mai_spec(recs: Seq<TlvRec>, k: Seq<char>) -> Option<Seq<char>> {
    if mai_tag(k) {
        tlv_lookup(recs, k)
    } else {
        None
    }
}

/// What the additional-data map holds under `k`: the last record of
/// tag 62.
pub open spec fn addl_spec(recs: Seq<TlvRec>, k: Seq<char>) -> Option<Seq<char>> {
    if k == seq!['6', '2'] {
        tlv_lookup(recs, k)
    } else {
        None
    }
}

/// What the unparsed-tag map holds under `k`: the last record of any tag
/// that no other field claims.
pub open spec fn unparsed_spec(recs: Seq<TlvRec>, k: Seq<char>) -> Option<Seq<char>> {
    if !special_tag(k) && !mai_tag(k) && k != seq!['6', '2'] {
        tlv_lookup(recs, k)
    } else {
        None
    }
}

/// An optional owned string agrees with an optional character sequence.
pub open spec fn opt_match(o: Option<String>, s: Option<Seq<char>>) -> bool {
    match (o, s) {
        (Option::Some(a), Option::Some(b)) => a@ == b,
        (Option::None, Option::None) => true,
        _ => false,
    }
}

proof fn lemma_find_update(v: Seq<(String, String)>, i: int, p: (String, String), k: Seq<char>)
    requires
        0 <= i < v.len(),
        forall|j: int| 0 <= j < i ==> v[j].0@ != p.0@,
        v[i].0@ == p.0@,
    ensures
        alist_find(v.update(i, p), k) == if k == p.0@ {
            Some(p.1@)
        } else {
            alist_find(v, k)
        },
    decreases i,
{
    if i == 0 {
        assert(v.update(0, p).skip(1) =~= v.skip(1));
    } else {
        assert(v.update(i, p).skip(1) =~= v.skip(1).update(i - 1, p));
        lemma_find_update(v.skip(1), i - 1, p, k);
    }
}

proof fn lemma_find_push(v: Seq<(String, String)>, p: (String, String), k: Seq<char>)
    requires
        forall|j: int| 0 <= j < v.len() ==> v[j].0@ != p.0@,
    ensures
        alist_find(v.push(p), k) == if k == p.0@ {
            Some(p.1@)
        } else {
            alist_find(v, k)
        },
    decreases v.len(),
{
    if v.len() == 0 {
        assert(v.push(p)[0] == p);
        assert(v.push(p).skip(1) =~= Seq::<(String, String)>::empty());
        assert(alist_find(Seq::<(String, String)>::empty(), k) is None);
    } else {
        assert(v.push(p)[0] == v[0]);
        assert(v.push(p).skip(1) =~= v.skip(1).push(p));
        assert(forall|j: int| 0 <= j < v.skip(1).len() ==> v.skip(1)[j] == v[j + 1]);
        lemma_find_push(v.skip(1), p, k);
        if v[0].0@ == k {
            assert(v[0].0@ != p.0@);
            assert(alist_find(v.push(p), k) == Some(v[0].1@));
            assert(alist_find(v, k) == Some(v[0].1@));
        } else {
            assert(alist_find(v.push(p), k) == alist_find(v.skip(1).push(p), k));
            assert(alist_find(v, k) == alist_find(v.skip(1), k));
        }
    }
}

/// Bind `key` to `val`, replacing an existing entry or appending a new
/// one; other keys keep their bindings.
pub(crate) fn assoc_set(m: &mut Vec<(String, String)>, key: String, val: String)
    requires
        alist_unique(old(m)@),
    ensures
        alist_unique(final(m)@),
        alist_find(final(m)@, key@) == Some(val@),
        forall|k: Seq<char>| k != key@ ==> alist_find(final(m)@, k) == alist_find(old(m)@, k),
{
    let n = m.len();
    let mut i: usize = 0;
    while i < n
        invariant
            i <= n,
            n == m@.len(),
            m@ == old(m)@,
            alist_unique(m@),
            forall|j: int| 0 <= j < i ==> m@[j].0@ != key@,
        decreases n - i,
    {
        let hit = {
            let p = &m[i];
            p.0 == key
        };
        if hit {
            let ghost old_m = m@;
            m.set(i, (key, val));
            proof {
                assert forall|k: Seq<char>| true implies alist_find(m@, k) == (if k == old_m[
                    i as int
                ].0@ {
                    Some(m@[i as int].1@)
                } else {
                    alist_find(old_m, k)
                }) by {
                    lemma_find_update(old_m, i as int, m@[i as int], k);
                }
                assert forall|a: int, b: int| 0 <= a < b < m@.len() implies m@[a].0@ != m@[b].0@ by {
                    assert(old_m[a].0@ != old_m[b].0@);
                }
            }
            return ;
        }
        i = i + 1;
    }
    let ghost old_m = m@;
    m.push((key, val));
    proof {
        assert forall|k: Seq<char>| true implies alist_find(m@, k) == (if k == m@[m@.len() - 1].0@ {
            Some(m@[m@.len() - 1].1@)
        } else {
            alist_find(old_m, k)
        }) by {
            lemma_find_push(old_m, m@[m@.len() - 1], k);
        }
        assert forall|a: int, b: int| 0 <= a < b < m@.len() implies m@[a].0@ != m@[b].0@ by {
            if b < m@.len() - 1 {
                assert(old_m[a].0@ != old_m[b].0@);
            }
        }
    }
}

/// View of collected records as TLV records.
pub open spec fn recs_view(v: Seq<(String, String)>) -> Seq<TlvRec> {
    Seq::new(v.len(), |i: int| TlvRec { tag: v[i].0@, value: v[i].1@ })
}

/// Mid-walk relation: what the records of the whole payload are, given the
/// records already collected and what remains from `idx` on.
pub open spec fn walk_rel(s: Seq<char>, built: Seq<TlvRec>, idx: int) -> bool {
    tlv_records(s) == match tlv_records(s.skip(idx)) {
        None => None::<Seq<TlvRec>>,
        Some(rest) => Some(built + rest),
    }
}

/// The numeric reading of a two-character tag, spelled out.
proof fn lemma_two_digit_tag(c0: char, c1: char)
    ensures
        tag_num(seq![c0, c1]) == if crate::text::is_digit(c0) && crate::text::is_digit(c1) {
            Some(10 * crate::text::digit_val(c0) + crate::text::digit_val(c1))
        } else {
            None::<int>
        },
{
    let k = seq![c0, c1];
    assert(k.len() == 2);
    assert(k[0] == c0 && k[1] == c1);
    if crate::text::is_digit(c0) && crate::text::is_digit(c1) {
        assert(crate::text::all_digits(k));
        assert(k.drop_last() =~= seq![c0]);
        assert(seq![c0].drop_last() =~= Seq::<char>::empty());
        assert(crate::text::digits_val(Seq::<char>::empty()) == 0);
        assert(crate::text::digits_val(seq![c0]) == crate::text::digit_val(c0));
        assert(crate::text::digits_val(k) == crate::text::digit_val(c0) * 10
            + crate::text::digit_val(c1));
    } else {
        assert(!crate::text::all_digits(k)) by {
            if crate::text::all_digits(k) {
                assert(crate::text::is_digit(k[0]));
                assert(crate::text::is_digit(k[1]));
            }
        }
    }
}

/// The value of the last record with the given tag.
fn assoc_last(recs: &Vec<(String, String)>, needle: &String) -> (r: Option<String>)
    ensures
        match r {
            Some(v) => tlv_lookup(recs_view(recs@), needle@) == Some(v@),
            None => tlv_lookup(recs_view(recs@), needle@) is None,
        },
{
    let mut i: usize = recs.len();
    proof {
        assert(recs_view(recs@).take(recs@.len() as int) =~= recs_view(recs@));
    }
    while i > 0
        invariant
            i <= recs@.len(),
            tlv_lookup(recs_view(recs@), needle@) == tlv_lookup(
                recs_view(recs@).take(i as int),
                needle@,
            ),
        decreases i,
    {
        i = i - 1;
        let hit = {
            let p = &recs[i];
            p.0 == *needle
        };
        proof {
            assert(recs_view(recs@).take(i + 1).drop_last() =~= recs_view(recs@).take(i as int));
            assert(recs_view(recs@).take(i + 1).last() == recs_view(recs@)[i as int]);
        }
        if hit {
            let p = &recs[i];
            return Some(p.1.clone());
        }
    }
    None
}

impl EmvData {
    /// Check the mandatory trailing checksum record: the payload must end
    /// in "6304" followed by exactly the four uppercase hexadecimal digits
    /// of the CRC-16/Kermit of everything before them.
    pub fn validate_crc(raw: &str) -> (r: Result<(), EmvError>)
        ensures
            ({
                let b = raw.spec_bytes();
                let n = b.len() as int;
                match r {
                    Ok(()) => crc_valid(b),
                    Err(e) => match e {
                        EmvError::MalformedData => n < 8,
                        EmvError::MissingChecksum => n >= 8 && !has_crc_tag(b),
                        EmvError::InvalidCrc { expected, actual } => {
                            &&& has_crc_tag(b)
                            &&& !crc_matches(b)
                            &&& expected@ == bytes_chars(hex4(crc16_spec(b.take(n - 4))))
                            &&& actual@ == bytes_chars(b.skip(n - 4))
                        },
                        EmvError::ParseVerify(_) => false,
                    },
                }
            }),
    {
        let b = raw.as_bytes_vec();
        let n = b.len();
        if n < 8 {
            return Err(EmvError::MalformedData);
        }
        if !(b[n - 8] == 54 && b[n - 7] == 51 && b[n - 6] == 48 && b[n - 5] == 52) {
            return Err(EmvError::MissingChecksum);
        }
        let crc = crc16_ccitt_kermit(vstd::slice::slice_subrange(b.as_slice(), 0, n - 4));
        let expected = hex4_exec(crc);
        let mut mismatch = false;
        let mut k: usize = 0;
        while k < 4
            invariant
                k <= 4,
                n == b@.len() >= 8,
                expected@ == hex4(crc16_spec(b@.take(n - 4))),
                mismatch <==> exists|j: int| 0 <= j < k && b@[n - 4 + j] != expected@[j],
            decreases 4 - k,
        {
            if b[n - 4 + k] != expected[k] {
                mismatch = true;
            }
            k = k + 1;
        }
        if !mismatch {
            Ok(())
        } else {
            let expected_s = string_of_bytes(expected.as_slice());
            let actual_s = string_of_bytes(vstd::slice::slice_subrange(b.as_slice(), n - 4, n));
            proof {
                assert(b@.skip(n - 4) =~= b@.subrange(n - 4, n as int));
            }
            Err(EmvError::InvalidCrc { expected: expected_s, actual: actual_s })
        }
    }

    /// Parse an EMV payload: validate the trailing checksum, walk the TLV
    /// records, and map them onto the named fields and tag maps; the last
    /// record of a repeated tag wins.
    pub fn parse(raw: &str) -> (r: Result<EmvData, EmvError>)
        ensures
            ({
                let cs = raw@;
                let b = raw.spec_bytes();
                match r {
                    Ok(d) => {
                        &&& crc_valid(b)
                        &&& tlv_records(cs) is Some
                        &&& {
                            let recs = tlv_records(cs)->Some_0;
                            &&& d.raw_data@ == cs
                            &&& tlv_lookup(recs, seq!['0', '0']) == Some(d.pfi@)
                            &&& tlv_lookup(recs, seq!['6', '3']) == Some(d.crc@)
                            &&& opt_match(
                                d.point_of_initiation,
                                tlv_lookup(recs, seq!['0', '1']),
                            )
                            &&& opt_match(
                                d.merchant_category_code,
                                tlv_lookup(recs, seq!['5', '2']),
                            )
                            &&& opt_match(
                                d.transaction_currency,
                                tlv_lookup(recs, seq!['5', '3']),
                            )
                            &&& opt_match(
                                d.transaction_amount,
                                tlv_lookup(recs, seq!['5', '4']),
                            )
                            &&& opt_match(d.country_code, tlv_lookup(recs, seq!['5', '8']))
                            &&& opt_match(d.merchant_name, tlv_lookup(recs, seq!['5', '9']))
                            &&& opt_match(d.merchant_city, tlv_lookup(recs, seq!['6', '0']))
                            &&& opt_match(d.postal_code, tlv_lookup(recs, seq!['6', '1']))
                            &&& alist_unique(d.merchant_account_information@)
                            &&& alist_unique(d.additional_data@)
                            &&& alist_unique(d.unparsed_tags@)
                            &&& forall|k: Seq<char>| #[trigger] alist_find(
                                d.merchant_account_information@,
                                k,
                            ) == mai_spec(recs, k)
                            &&& forall|k: Seq<char>| #[trigger] alist_find(d.additional_data@, k)
                                == addl_spec(recs, k)
                            &&& forall|k: Seq<char>| #[trigger] alist_find(d.unparsed_tags@, k)
                                == unparsed_spec(recs, k)
                        }
                    },
                    Err(e) => match e {
                        EmvError::MalformedData => b.len() < 8 || (crc_valid(b) && tlv_records(cs)
                            is None) || (crc_valid(b) && tlv_records(cs) is Some && tlv_lookup(
                            tlv_records(cs)->Some_0,
                            seq!['0', '0'],
                        ) is None),
                        EmvError::MissingChecksum => (b.len() >= 8 && !has_crc_tag(b)) || (
                        crc_valid(b) && tlv_records(cs) is Some && tlv_lookup(
                            tlv_records(cs)->Some_0,
                            seq!['0', '0'],
                        ) is Some && tlv_lookup(tlv_records(cs)->Some_0, seq!['6', '3']) is None),
                        EmvError::InvalidCrc { expected, actual } => {
                            &&& has_crc_tag(b)
                            &&& !crc_matches(b)
                            &&& expected@ == bytes_chars(hex4(crc16_spec(b.take(b.len() - 4))))
                            &&& actual@ == bytes_chars(b.skip(b.len() - 4))
                        },
                        EmvError::ParseVerify(_) => false,
                    },
                }
            }),
    {
        proof {
            reveal_strlit("00");
            reveal_strlit("63");
            reveal_strlit("01");
            reveal_strlit("52");
            reveal_strlit("53");
            reveal_strlit("54");
            reveal_strlit("58");
            reveal_strlit("59");
            reveal_strlit("60");
            reveal_strlit("61");
        }
        match Self::validate_crc(raw) {
            Err(e) => {
                return Err(e);
            },
            Ok(()) => {},
        }
        let chars = crate::text::chars_vec(raw);
        let len = chars.len();
        let mut recs: Vec<(String, String)> = Vec::new();
        let mut idx: usize = 0;
        proof {
            assert(raw@.skip(0) =~= raw@);
            assert(recs_view(recs@) + tlv_records(raw@.skip(0))->Some_0 =~= tlv_records(
                raw@.skip(0),
            )->Some_0) by {
                if tlv_records(raw@.skip(0)) is Some {
                }
            }
        }
        while idx < len && len - idx >= 4
            invariant
                idx <= len,
                len == chars@.len(),
                chars@ == raw@,
                crc_valid(raw.spec_bytes()),
                walk_rel(raw@, recs_view(recs@), idx as int),
                forall|j: int| 0 <= j < recs@.len() ==> (#[trigger] recs@[j].0)@.len() == 2,
            decreases len - idx,
        {
            let ghost rem = raw@.skip(idx as int);
            proof {
                assert(forall|j: int| 0 <= j < rem.len() ==> rem[j] == raw@[idx + j]);
            }
            let c2 = chars[idx + 2];
            let c3 = chars[idx + 3];
            if !(c2 >= '0' && c2 <= '9' && c3 >= '0' && c3 <= '9') {
                proof {
                    assert(tlv_records(rem) is None);
                }
                return Err(EmvError::MalformedData);
            }
            let l: usize = 10 * (c2 as u32 - 48) as usize + (c3 as u32 - 48) as usize;
            if l > len - idx - 4 {
                proof {
                    assert(tlv_records(rem) is None);
                }
                return Err(EmvError::MalformedData);
            }
            let tag = crate::text::string_of_range(&chars, idx, idx + 2);
            let val = crate::text::string_of_range(&chars, idx + 4, idx + 4 + l);
            let ghost old_recs = recs_view(recs@);
            recs.push((tag, val));
            proof {
                let rec = TlvRec {
                    tag: rem.subrange(0, 2),
                    value: rem.subrange(4, 4 + l as int),
                };
                assert(rem.subrange(0, 2) =~= raw@.subrange(idx as int, idx + 2));
                assert(rem.subrange(4, 4 + l as int) =~= raw@.subrange(idx + 4, idx + 4 + l));
                assert(recs_view(recs@) =~= old_recs + seq![rec]);
                assert(rem.skip(4 + l as int) =~= raw@.skip(idx + 4 + l));
                if tlv_records(raw@.skip(idx + 4 + l)) is Some {
                    let rest2 = tlv_records(raw@.skip(idx + 4 + l))->Some_0;
                    assert(tlv_records(rem) == Some(seq![rec] + rest2));
                    assert((old_recs + seq![rec]) + rest2 =~= old_recs + (seq![rec] + rest2));
                }
            }
            idx = idx + 4 + l;
        }
        proof {
            assert(raw@.skip(idx as int).len() < 4);
            assert(tlv_records(raw@.skip(idx as int)) == Some(Seq::<TlvRec>::empty()));
            assert(recs_view(recs@) + Seq::<TlvRec>::empty() =~= recs_view(recs@));
        }
        let ghost full = recs_view(recs@);
        let n00: String = "00".to_owned();
        let n63: String = "63".to_owned();
        let n01: String = "01".to_owned();
        let n52: String = "52".to_owned();
        let n53: String = "53".to_owned();
        let n54: String = "54".to_owned();
        let n58: String = "58".to_owned();
        let n59: String = "59".to_owned();
        let n60: String = "60".to_owned();
        let n61: String = "61".to_owned();
        proof {
            assert(n00@ =~= seq!['0', '0']);
            assert(n63@ =~= seq!['6', '3']);
            assert(n01@ =~= seq!['0', '1']);
            assert(n52@ =~= seq!['5', '2']);
            assert(n53@ =~= seq!['5', '3']);
            assert(n54@ =~= seq!['5', '4']);
            assert(n58@ =~= seq!['5', '8']);
            assert(n59@ =~= seq!['5', '9']);
            assert(n60@ =~= seq!['6', '0']);
            assert(n61@ =~= seq!['6', '1']);
        }
        let pfi = match assoc_last(&recs, &n00) {
            Some(v) => v,
            None => {
                return Err(EmvError::MalformedData);
            },
        };
        let crc_s = match assoc_last(&recs, &n63) {
            Some(v) => v,
            None => {
                return Err(EmvError::MissingChecksum);
            },
        };
        let poi = assoc_last(&recs, &n01);
        let mcc = assoc_last(&recs, &n52);
        let cur = assoc_last(&recs, &n53);
        let amt = assoc_last(&recs, &n54);
        let cc = assoc_last(&recs, &n58);
        let mname = assoc_last(&recs, &n59);
        let mcity = assoc_last(&recs, &n60);
        let postal = assoc_last(&recs, &n61);
        let mut mai: Vec<(String, String)> = Vec::new();
        let mut addl: Vec<(String, String)> = Vec::new();
        let mut unparsed: Vec<(String, String)> = Vec::new();
        let rn = recs.len();
        let mut i: usize = 0;
        while i < rn
            invariant
                i <= rn,
                rn == recs@.len(),
                full == recs_view(recs@),
                forall|j: int| 0 <= j < recs@.len() ==> (#[trigger] recs@[j].0)@.len() == 2,
                alist_unique(mai@),
                alist_unique(addl@),
                alist_unique(unparsed@),
                forall|k: Seq<char>| #[trigger] alist_find(mai@, k) == mai_spec(
                    full.take(i as int),
                    k,
                ),
                forall|k: Seq<char>| #[trigger] alist_find(addl@, k) == addl_spec(
                    full.take(i as int),
                    k,
                ),
                forall|k: Seq<char>| #[trigger] alist_find(unparsed@, k) == unparsed_spec(
                    full.take(i as int),
                    k,
                ),
            decreases rn - i,
        {
            let (key, val) = {
                let p = &recs[i];
                (p.0.clone(), p.1.clone())
            };
            let c0 = key.as_str().get_char(0);
            let c1 = key.as_str().get_char(1);
            let ghost kk = key@;
            proof {
                assert(kk =~= seq![c0, c1]);
                lemma_two_digit_tag(c0, c1);
                assert(full.take(i + 1).drop_last() =~= full.take(i as int));
                assert(full.take(i + 1).last() == full[i as int]);
                assert(full[i as int].tag == kk);
                assert(full[i as int].value == recs@[i as int].1@);
            }
            let is_special = (c0 == '0' && c1 == '0') || (c0 == '0' && c1 == '1') || (c0 == '5'
                && c1 == '2') || (c0 == '5' && c1 == '3') || (c0 == '5' && c1 == '4') || (c0 == '5'
                && c1 == '8') || (c0 == '5' && c1 == '9') || (c0 == '6' && c1 == '0') || (c0 == '6'
                && c1 == '1') || (c0 == '6' && c1 == '3');
            proof {
                if is_special {
                    assert(special_tag(kk));
                } else {
                    assert(!special_tag(kk)) by {
                        if special_tag(kk) {
                            assert(kk[0] == c0 && kk[1] == c1);
                        }
                    }
                }
            }
            if is_special {
            } else if c0 >= '0' && c0 <= '9' && c1 >= '0' && c1 <= '9' && {
                let t: u32 = 10 * (c0 as u32 - 48) + (c1 as u32 - 48);
                t >= 2 && t <= 51
            } {
                proof {
                    assert(mai_tag(kk));
                }
                assoc_set(&mut mai, key, val);
            } else if c0 == '6' && c1 == '2' {
                proof {
                    assert(kk =~= seq!['6', '2']);
                    assert(!mai_tag(kk));
                }
                assoc_set(&mut addl, key, val);
            } else {
                proof {
                    assert(!mai_tag(kk) && kk != seq!['6', '2']) by {
                        if kk == seq!['6', '2'] {
                            assert(kk[0] == '6' && kk[1] == '2');
                        }
                    }
                }
                assoc_set(&mut unparsed, key, val);
            }
            i = i + 1;
        }
        proof {
            assert(full.take(rn as int) =~= full);
        }
        Ok(
            EmvData {
                raw_data: raw.to_owned(),
                pfi,
                point_of_initiation: poi,
                merchant_account_information: mai,
                merchant_category_code: mcc,
                transaction_currency: cur,
                transaction_amount: amt,
                country_code: cc,
                merchant_name: mname,
                merchant_city: mcity,
                postal_code: postal,
                additional_data: addl,
                crc: crc_s,
                unparsed_tags: unparsed,
            },
        )
    }
}

} // verus!
