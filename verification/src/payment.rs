//! Structured payment data extracted from decoded payload text, for the
//! EMV TLV grammar, the payment-URL scheme, and the pipe-delimited scheme.
//! Monetary amounts are carried in minor units (hundredths).

use vstd::prelude::*;
use crate::classify::lower_of;
use crate::emv::{alist_find, alist_unique, opt_match, tlv_lookup, TlvRec};
use crate::text::{
    all_digits, ascii_lower, chars_vec, contains_seq, digits_val, find_from, seg_kv, split_at_sep,
    starts_with,
};

verus! {

/// Which payment grammar a payload followed.
#[derive(Debug, Clone, Copy, PartialEq, Eq, Structural)]
pub enum PaymentFormat {
    EmvQR,
    SbpRussia,
    StRussia,
    Unknown,
}

/// Structured payment fields. `amount` is in minor units: the scheme's
/// integer value, to be divided by 100 for the major unit.
#[derive(Debug, Clone)]
pub struct PaymentInfo {
    pub format: PaymentFormat,
    pub payee_name: Option<String>,
    pub payee_id: Option<String>,
    pub account: Option<String>,
    pub bank: Option<String>,
    pub bic: Option<String>,
    pub amount: Option<u64>,
    pub currency: Option<String>,
    pub purpose: Option<String>,
    pub extra: Vec<(String, String)>,
}

impl Default for PaymentInfo {
    /// The empty payment record: unknown format, no fields.
    fn default() -> (r: Self)
        ensures
            r.format == PaymentFormat::Unknown,
            r.payee_name is None,
            r.payee_id is None,
            r.account is None,
            r.bank is None,
            r.bic is None,
            r.amount is None,
            r.currency is None,
            r.purpose is None,
            r.extra@.len() == 0,
    {
        PaymentInfo {
            format: PaymentFormat::Unknown,
            payee_name: None,
            payee_id: None,
            account: None,
            bank: None,
            bic: None,
            amount: None,
            currency: None,
            purpose: None,
            extra: Vec::new(),
        }
    }
}

/// What `urlencoding::decode` returns: percent-decoding is a function of
/// the characters alone; `None` stands for percent-escapes that do not
/// form valid UTF-8.
pub uninterp spec fn url_decoded(s: Seq<char>) -> Option<Seq<char>>;

/// Relies on `urlencoding::decode`: decodes %XX escapes, leaving other
/// characters (including '+') as they are; a string without any '%' is
/// therefore decoded to itself.
#[verifier::external_body]
fn url_decode(s: &str) -> (r: Option<String>)
    ensures
        match r {
            Some(d) => url_decoded(s@) == Some(d@),
            None => url_decoded(s@) is None,
        },
        (forall|i: int| 0 <= i < s@.len() ==> (#[trigger] s@[i]) != '%') ==> (r is Some && r->Some_0@
            == s@),
{
    match urlencoding::decode(s) {
        Ok(d) => Some(d.into_owned()),
        Err(_) => None,
    }
}

/// The decoded value, or the empty string where decoding fails.
pub open spec fn decoded_or_empty(v: Seq<char>) -> Seq<char> {
    match url_decoded(v) {
        Some(d) => d,
        None => Seq::empty(),
    }
}

/// A value accepted as an amount: a non-empty digit string within range.
pub open spec fn valid_amount(v: Seq<char>) -> bool {
    v.len() > 0 && all_digits(v) && digits_val(v) <= u64::MAX
}

/// Value of the last `Key=Value` segment whose lowercased key is `key`.
pub open spec fn last_kv_lower(params: Seq<Seq<char>>, key: Seq<char>) -> Option<Seq<char>>
    decreases params.len(),
{
    if params.len() == 0 {
        None
    } else {
        match seg_kv(params.last()) {
            Some(kv) => if ascii_lower(kv.0) == key {
                Some(kv.1)
            } else {
                last_kv_lower(params.drop_last(), key)
            },
            None => last_kv_lower(params.drop_last(), key),
        }
    }
}

/// Value of the last `Key=Value` segment whose key is exactly `key`.
pub open spec fn last_kv_exact(params: Seq<Seq<char>>, key: Seq<char>) -> Option<Seq<char>>
    decreases params.len(),
{
    if params.len() == 0 {
        None
    } else {
        match seg_kv(params.last()) {
            Some(kv) => if kv.0 == key {
                Some(kv.1)
            } else {
                last_kv_exact(params.drop_last(), key)
            },
            None => last_kv_exact(params.drop_last(), key),
        }
    }
}

/// The last well-formed amount bound to `key` (lowercased comparison);
/// ill-formed amounts are passed over.
pub open spec fn last_sum_lower(params: Seq<Seq<char>>, key: Seq<char>) -> Option<int>
    decreases params.len(),
{
    if params.len() == 0 {
        None
    } else {
        match seg_kv(params.last()) {
            Some(kv) => if ascii_lower(kv.0) == key && valid_amount(kv.1) {
                Some(digits_val(kv.1))
            } else {
                last_sum_lower(params.drop_last(), key)
            },
            None => last_sum_lower(params.drop_last(), key),
        }
    }
}

/// The last well-formed amount bound to exactly `key`.
pub open spec fn last_sum_exact(params: Seq<Seq<char>>, key: Seq<char>) -> Option<int>
    decreases params.len(),
{
    if params.len() == 0 {
        None
    } else {
        match seg_kv(params.last()) {
            Some(kv) => if kv.0 == key && valid_amount(kv.1) {
                Some(digits_val(kv.1))
            } else {
                last_sum_exact(params.drop_last(), key)
            },
            None => last_sum_exact(params.drop_last(), key),
        }
    }
}

/// The query parameters of a payment URL: everything after the first '?',
/// split at '&'.
pub open spec fn sbp_params(s: Seq<char>) -> Seq<Seq<char>> {
    match find_from(s, seq!['?'], 0) {
        Some(q) => split_at_sep(s.skip(q + 1), '&'),
        None => seq![],
    }
}

/// Keys the URL scheme maps to named fields (compared lowercased).
pub open spec fn sbp_special(k: Seq<char>) -> bool {
    let lk = ascii_lower(k);
    ||| lk == "sum"@
    ||| lk == "cur"@
    ||| lk == "bank"@
    ||| lk == "name"@
    ||| lk == "purpose"@
}

/// What the URL scheme's extras map holds under `k`.
pub open spec fn sbp_extra_spec(params: Seq<Seq<char>>, k: Seq<char>) -> Option<Seq<char>> {
    if sbp_special(k) {
        None
    } else {
        last_kv_exact(params, k)
    }
}

/// The payee identifier of a payment URL: the path after the first
/// "nspk.ru/" up to the next '?'.
pub open spec fn sbp_payee_id(s: Seq<char>) -> Option<Seq<char>> {
    match find_from(s, "nspk.ru/"@, 0) {
        Some(i) => {
            let path = s.skip(i + 8);
            match find_from(path, seq!['?'], 0) {
                Some(e) => Some(path.take(e)),
                None => Some(path),
            }
        },
        None => None,
    }
}

/// An optional amount field carries exactly the spec-level amount.
pub open spec fn amt_match(o: Option<u64>, s: Option<int>) -> bool {
    match (o, s) {
        (Option::Some(a), Option::Some(b)) => a as int == b,
        (Option::None, Option::None) => true,
        _ => false,
    }
}

/// The fields parsed from a payment URL.
pub open spec fn sbp_ok(s: Seq<char>, r: PaymentInfo) -> bool {
    let ps = sbp_params(s);
    &&& r.format == PaymentFormat::SbpRussia
    &&& (match last_kv_lower(ps, "cur"@) {
        Some(v) => opt_match(r.currency, Some(v)),
        None => opt_match(r.currency, Some("RUB"@)),
    })
    &&& amt_match(r.amount, last_sum_lower(ps, "sum"@))
    &&& opt_match(r.bank, last_kv_lower(ps, "bank"@))
    &&& (match last_kv_lower(ps, "name"@) {
        Some(v) => opt_match(r.payee_name, Some(decoded_or_empty(v))),
        None => r.payee_name is None,
    })
    &&& (match last_kv_lower(ps, "purpose"@) {
        Some(v) => opt_match(r.purpose, Some(decoded_or_empty(v))),
        None => r.purpose is None,
    })
    &&& opt_match(r.payee_id, sbp_payee_id(s))
    &&& r.account is None
    &&& r.bic is None
    &&& alist_unique(r.extra@)
    &&& forall|k: Seq<char>| #[trigger] alist_find(r.extra@, k) == sbp_extra_spec(ps, k)
}

/// Keys the pipe-delimited scheme maps to named fields (exact comparison).
pub open spec fn st_special(k: Seq<char>) -> bool {
    ||| k == "Name"@
    ||| k == "PersonalAcc"@
    ||| k == "BankName"@
    ||| k == "BIC"@
    ||| k == "Sum"@
    ||| k == "Purpose"@
    ||| k == "PayeeINN"@
}

/// What the pipe scheme's extras map holds under `k`.
pub open spec fn st_extra_spec(params: Seq<Seq<char>>, k: Seq<char>) -> Option<Seq<char>> {
    if st_special(k) {
        None
    } else {
        last_kv_exact(params, k)
    }
}

/// The fields parsed from a pipe-delimited payload.
pub open spec fn st_ok(s: Seq<char>, r: PaymentInfo) -> bool {
    let ps = split_at_sep(s, '|');
    &&& r.format == PaymentFormat::StRussia
    &&& opt_match(r.payee_name, last_kv_exact(ps, "Name"@))
    &&& opt_match(r.account, last_kv_exact(ps, "PersonalAcc"@))
    &&& opt_match(r.bank, last_kv_exact(ps, "BankName"@))
    &&& opt_match(r.bic, last_kv_exact(ps, "BIC"@))
    &&& amt_match(r.amount, last_sum_exact(ps, "Sum"@))
    &&& opt_match(r.purpose, last_kv_exact(ps, "Purpose"@))
    &&& opt_match(r.payee_id, last_kv_exact(ps, "PayeeINN"@))
    &&& opt_match(r.currency, Some("RUB"@))
    &&& alist_unique(r.extra@)
    &&& forall|k: Seq<char>| #[trigger] alist_find(r.extra@, k) == st_extra_spec(ps, k)
}

/// One step of the last-wins scans: extending the processed prefix by one
/// segment either rebinds the key or leaves the lookup unchanged.
proof fn lemma_last_kv_step(ps: Seq<Seq<char>>, i: int, key: Seq<char>)
    requires
        0 <= i < ps.len(),
    ensures
        last_kv_lower(ps.take(i + 1), key) == (match seg_kv(ps[i]) {
            Some(kv) => if ascii_lower(kv.0) == key {
                Some(kv.1)
            } else {
                last_kv_lower(ps.take(i), key)
            },
            None => last_kv_lower(ps.take(i), key),
        }),
        last_kv_exact(ps.take(i + 1), key) == (match seg_kv(ps[i]) {
            Some(kv) => if kv.0 == key {
                Some(kv.1)
            } else {
                last_kv_exact(ps.take(i), key)
            },
            None => last_kv_exact(ps.take(i), key),
        }),
        last_sum_lower(ps.take(i + 1), key) == (match seg_kv(ps[i]) {
            Some(kv) => if ascii_lower(kv.0) == key && valid_amount(kv.1) {
                Some(digits_val(kv.1))
            } else {
                last_sum_lower(ps.take(i), key)
            },
            None => last_sum_lower(ps.take(i), key),
        }),
        last_sum_exact(ps.take(i + 1), key) == (match seg_kv(ps[i]) {
            Some(kv) => if kv.0 == key && valid_amount(kv.1) {
                Some(digits_val(kv.1))
            } else {
                last_sum_exact(ps.take(i), key)
            },
            None => last_sum_exact(ps.take(i), key),
        }),
{
    assert(ps.take(i + 1).drop_last() =~= ps.take(i));
    assert(ps.take(i + 1).last() == ps[i]);
}

/// The URL scheme's field keys are pairwise distinct.
proof fn lemma_sbp_keys_distinct()
    ensures
        "sum"@ != "cur"@,
        "sum"@ != "bank"@,
        "sum"@ != "name"@,
        "sum"@ != "purpose"@,
        "cur"@ != "bank"@,
        "cur"@ != "name"@,
        "cur"@ != "purpose"@,
        "bank"@ != "name"@,
        "bank"@ != "purpose"@,
        "name"@ != "purpose"@,
{
    reveal_strlit("sum");
    reveal_strlit("cur");
    reveal_strlit("bank");
    reveal_strlit("name");
    reveal_strlit("purpose");
    assert("sum"@[0] == 's');
    assert("cur"@[0] == 'c');
    assert("bank"@[0] == 'b');
    assert("name"@[0] == 'n');
    assert("purpose"@[0] == 'p');
}

/// The pipe scheme's field keys are pairwise distinct.
proof fn lemma_st_keys_distinct()
    ensures
        "Name"@ != "PersonalAcc"@,
        "Name"@ != "BankName"@,
        "Name"@ != "BIC"@,
        "Name"@ != "Sum"@,
        "Name"@ != "Purpose"@,
        "Name"@ != "PayeeINN"@,
        "PersonalAcc"@ != "BankName"@,
        "PersonalAcc"@ != "BIC"@,
        "PersonalAcc"@ != "Sum"@,
        "PersonalAcc"@ != "Purpose"@,
        "PersonalAcc"@ != "PayeeINN"@,
        "BankName"@ != "BIC"@,
        "BankName"@ != "Sum"@,
        "BankName"@ != "Purpose"@,
        "BankName"@ != "PayeeINN"@,
        "BIC"@ != "Sum"@,
        "BIC"@ != "Purpose"@,
        "BIC"@ != "PayeeINN"@,
        "Sum"@ != "Purpose"@,
        "Sum"@ != "PayeeINN"@,
        "Purpose"@ != "PayeeINN"@,
{
    reveal_strlit("Name");
    reveal_strlit("PersonalAcc");
    reveal_strlit("BankName");
    reveal_strlit("BIC");
    reveal_strlit("Sum");
    reveal_strlit("Purpose");
    reveal_strlit("PayeeINN");
    assert("Name"@.len() == 4);
    assert("PersonalAcc"@.len() == 11);
    assert("BankName"@.len() == 8);
    assert("BIC"@.len() == 3);
    assert("Sum"@.len() == 3);
    assert("Purpose"@.len() == 7);
    assert("PayeeINN"@.len() == 8);
    assert("BIC"@[0] == 'B');
    assert("Sum"@[0] == 'S');
    assert("BankName"@[0] == 'B');
    assert("PayeeINN"@[0] == 'P');
}

/// The TLV records of an EMV payload as the payment parser reads them:
/// like `tlv_records`, but a record whose length overruns the payload ends
/// the walk instead of failing it.
pub open spec fn tlv_lax(s: Seq<char>) -> Option<Seq<TlvRec>>
    decreases s.len(),
{
    if s.len() < 4 {
        Some(seq![])
    } else if !(crate::text::is_digit(s[2]) && crate::text::is_digit(s[3])) {
        None
    } else {
        let l = 10 * crate::text::digit_val(s[2]) + crate::text::digit_val(s[3]);
        if 4 + l > s.len() {
            Some(seq![])
        } else {
            match tlv_lax(s.skip(4 + l)) {
                None => None,
                Some(rest) => Some(
                    seq![TlvRec { tag: s.subrange(0, 2), value: s.subrange(4, 4 + l) }] + rest,
                ),
            }
        }
    }
}

/// ISO 4217 numeric currency codes mapped to their alphabetic codes; an
/// unknown code is kept as it is.
pub open spec fn currency_code_spec(c: Seq<char>) -> Seq<char> {
    if c == "643"@ {
        "RUB"@
    } else if c == "840"@ {
        "USD"@
    } else if c == "978"@ {
        "EUR"@
    } else if c == "156"@ {
        "CNY"@
    } else if c == "392"@ {
        "JPY"@
    } else if c == "826"@ {
        "GBP"@
    } else {
        c
    }
}

/// The account of an EMV payload: the last merchant-account record with
/// tag 26 or 27.
pub open spec fn emv_account(recs: Seq<TlvRec>) -> Option<Seq<char>>
    decreases recs.len(),
{
    if recs.len() == 0 {
        None
    } else if recs.last().tag == "26"@ || recs.last().tag == "27"@ {
        Some(recs.last().value)
    } else {
        emv_account(recs.drop_last())
    }
}

/// What the EMV extras map holds under `k`.
pub open spec fn emv_extra_spec(recs: Seq<TlvRec>, k: Seq<char>) -> Option<Seq<char>> {
    if k == "mcc"@ {
        tlv_lookup(recs, "52"@)
    } else if k == "country"@ {
        tlv_lookup(recs, "58"@)
    } else if k == "city"@ {
        tlv_lookup(recs, "60"@)
    } else {
        None
    }
}

/// The fields parsed from an EMV payload's records.
pub open spec fn emv_pay_ok(recs: Seq<TlvRec>, r: PaymentInfo) -> bool {
    &&& r.format == PaymentFormat::EmvQR
    &&& opt_match(r.payee_name, tlv_lookup(recs, "59"@))
    &&& (match tlv_lookup(recs, "53"@) {
        Some(v) => opt_match(r.currency, Some(currency_code_spec(v))),
        None => r.currency is None,
    })
    &&& (match tlv_lookup(recs, "54"@) {
        Some(v) => if valid_amount(v) {
            amt_match(r.amount, Some(digits_val(v)))
        } else {
            r.amount is None
        },
        None => r.amount is None,
    })
    &&& opt_match(r.account, emv_account(recs))
    &&& r.payee_id is None
    &&& r.bank is None
    &&& r.bic is None
    &&& r.purpose is None
    &&& alist_unique(r.extra@)
    &&& forall|k: Seq<char>| #[trigger] alist_find(r.extra@, k) == emv_extra_spec(recs, k)
}

/// The decision ladder of `relevance_score`, over the lowercased and the
/// original text.
pub open spec fn relevance_spec(low: Seq<char>, orig: Seq<char>) -> u32 {
    if contains_seq(low, "qr.nspk.ru"@) {
        100u32
    } else if starts_with(orig, "00"@) && orig.len() > 50 {
        95u32
    } else if starts_with(low, "st."@) {
        90u32
    } else if contains_seq(low, "pay"@) || contains_seq(low, "payment"@) || contains_seq(
        low,
        "оплат"@,
    ) || contains_seq(low, "платёж"@) || contains_seq(low, "платеж"@) || contains_seq(
        low,
        "перевод"@,
    ) {
        60u32
    } else if contains_seq(low, "bank"@) || contains_seq(low, "банк"@) {
        40u32
    } else {
        0u32
    }
}

/// What `PaymentParser::parse` returns for a payload: the URL scheme's
/// fields behind the known payment host, the pipe scheme's fields behind
/// its prefix, the EMV fields behind a long digit-led payload, and
/// nothing otherwise.
pub open spec fn parse_result_ok(cs: Seq<char>, r: Option<PaymentInfo>) -> bool {
    if starts_with(cs, "https://qr.nspk.ru"@) || starts_with(cs, "http://qr.nspk.ru"@) {
        match r {
            Some(info) => sbp_ok(cs, info),
            None => false,
        }
    } else if starts_with(cs, "ST."@) || starts_with(cs, "st."@) {
        match r {
            Some(info) => st_ok(cs, info),
            None => false,
        }
    } else if starts_with(cs, "00"@) && cs.len() > 50 {
        match r {
            Some(info) => tlv_lax(cs) is Some && emv_pay_ok(tlv_lax(cs)->Some_0, info),
            None => tlv_lax(cs) is None,
        }
    } else {
        r is None
    }
}

/// Parser for the supported payment grammars.
pub struct PaymentParser;

impl Default for PaymentParser {
    /// Same as `new`.
    fn default() -> (r: Self) {
        PaymentParser
    }
}

impl PaymentParser {
    /// A parser; it holds no state.
    pub fn new() -> (r: Self) {
        PaymentParser
    }

    /// Parse a payment URL: query parameters become the named fields, the
    /// path after the host the payee identifier.
    #[verifier::rlimit(100)]
    fn parse_sbp(&self, content: &Vec<char>) -> (r: PaymentInfo)
        ensures
            sbp_ok(content@, r),
    {
        proof {
            reveal_strlit("sum");
            reveal_strlit("cur");
            reveal_strlit("bank");
            reveal_strlit("name");
            reveal_strlit("purpose");
            reveal_strlit("RUB");
            reveal_strlit("nspk.ru/");
        }
        let n = content.len();
        let mut qmark: Vec<char> = Vec::new();
        qmark.push('?');
        proof {
            assert(qmark@ =~= seq!['?']);
        }
        let params: Vec<(usize, usize)> = match crate::text::find_from_exec(
            content,
            qmark.as_slice(),
            0,
        ) {
            Some(q) => {
                proof {
                    crate::text::lemma_find_from_bounds(content@, seq!['?'], 0);
                }
                crate::text::split_ranges(content, q + 1, '&')
            },
            None => Vec::new(),
        };
        let ghost ps = sbp_params(content@);
        proof {
            assert(crate::text::ranges_views(content@, params@) =~= ps);
        }
        let mut currency: Option<String> = Some("RUB".to_owned());
        let mut amount: Option<u64> = None;
        let mut bank: Option<String> = None;
        let mut payee_name: Option<String> = None;
        let mut purpose: Option<String> = None;
        let mut extra: Vec<(String, String)> = Vec::new();
        let pn = params.len();
        let mut i: usize = 0;
        while i < pn
            invariant
                i <= pn,
                pn == params@.len(),
                crate::text::ranges_views(content@, params@) == ps,
                forall|j: int| 0 <= j < params@.len() ==> (#[trigger] params@[j]).0 <= params@[j].1
                    <= content@.len(),
                (match last_kv_lower(ps.take(i as int), "cur"@) {
                    Some(v) => opt_match(currency, Some(v)),
                    None => opt_match(currency, Some("RUB"@)),
                }),
                amt_match(amount, last_sum_lower(ps.take(i as int), "sum"@)),
                opt_match(bank, last_kv_lower(ps.take(i as int), "bank"@)),
                (match last_kv_lower(ps.take(i as int), "name"@) {
                    Some(v) => opt_match(payee_name, Some(decoded_or_empty(v))),
                    None => payee_name is None,
                }),
                (match last_kv_lower(ps.take(i as int), "purpose"@) {
                    Some(v) => opt_match(purpose, Some(decoded_or_empty(v))),
                    None => purpose is None,
                }),
                alist_unique(extra@),
                forall|k: Seq<char>| #[trigger] alist_find(extra@, k) == sbp_extra_spec(
                    ps.take(i as int),
                    k,
                ),
            decreases pn - i,
        {
            proof {
                reveal_strlit("sum");
                reveal_strlit("cur");
                reveal_strlit("bank");
                reveal_strlit("name");
                reveal_strlit("purpose");
                reveal_strlit("RUB");
            }
            let (a, b) = { (params[i].0, params[i].1) };
            let seg = crate::text::copy_range(content, a, b);
            proof {
                assert(ps.take(i + 1).drop_last() =~= ps.take(i as int));
                assert(ps.take(i + 1).last() == ps[i as int]);
                assert(seg@ == ps[i as int]);
                lemma_last_kv_step(ps, i as int, "cur"@);
                lemma_last_kv_step(ps, i as int, "sum"@);
                lemma_last_kv_step(ps, i as int, "bank"@);
                lemma_last_kv_step(ps, i as int, "name"@);
                lemma_last_kv_step(ps, i as int, "purpose"@);
                lemma_sbp_keys_distinct();
            }
            let mut eqm: Vec<char> = Vec::new();
            eqm.push('=');
            proof {
                assert(eqm@ =~= seq!['=']);
            }
            match crate::text::find_from_exec(&seg, eqm.as_slice(), 0) {
                None => {},
                Some(e) => {
                    proof {
                        crate::text::lemma_find_from_bounds(seg@, seq!['='], 0);
                    }
                    let sl = seg.len();
                    let key_l = crate::text::lower_range(&seg, 0, e);
                    let ghost kv = seg_kv(seg@)->Some_0;
                    proof {
                        assert(kv.0 =~= seg@.subrange(0, e as int));
                        assert(kv.1 =~= seg@.subrange(e + 1, sl as int));
                    }
                    if crate::text::eq_chars(&key_l, &chars_vec("sum")) {
                        match crate::text::parse_digits_range(&seg, e + 1, sl) {
                            Some(x) => {
                                amount = Some(x);
                            },
                            None => {},
                        }
                    } else if crate::text::eq_chars(&key_l, &chars_vec("cur")) {
                        currency = Some(crate::text::string_of_range(&seg, e + 1, sl));
                    } else if crate::text::eq_chars(&key_l, &chars_vec("bank")) {
                        bank = Some(crate::text::string_of_range(&seg, e + 1, sl));
                    } else if crate::text::eq_chars(&key_l, &chars_vec("name")) {
                        let vs = crate::text::string_of_range(&seg, e + 1, sl);
                        payee_name = Some(
                            match url_decode(vs.as_str()) {
                                Some(d) => d,
                                None => String::new(),
                            },
                        );
                    } else if crate::text::eq_chars(&key_l, &chars_vec("purpose")) {
                        let vs = crate::text::string_of_range(&seg, e + 1, sl);
                        purpose = Some(
                            match url_decode(vs.as_str()) {
                                Some(d) => d,
                                None => String::new(),
                            },
                        );
                    } else {
                        crate::emv::assoc_set(
                            &mut extra,
                            crate::text::string_of_range(&seg, 0, e),
                            crate::text::string_of_range(&seg, e + 1, sl),
                        );
                    }
                },
            }
            i = i + 1;
        }
        proof {
            assert(ps.take(pn as int) =~= ps);
        }
        let nspk = chars_vec("nspk.ru/");
        let pl = nspk.len();
        let payee_id: Option<String> = match crate::text::find_from_exec(content, nspk.as_slice(), 0) {
            Some(ip) => {
                proof {
                    crate::text::lemma_find_from_bounds(content@, "nspk.ru/"@, 0);
                }
                let path_start = ip + pl;
                let ghost path = content@.skip(path_start as int);
                let idv = match crate::text::find_from_exec(content, qmark.as_slice(), path_start) {
                    Some(e) => {
                        proof {
                            crate::text::lemma_find_shift(
                                content@,
                                seq!['?'],
                                path_start as int,
                                0,
                            );
                            assert(path.take(e - path_start) =~= content@.subrange(
                                path_start as int,
                                e as int,
                            ));
                        }
                        crate::text::string_of_range(content, path_start, e)
                    },
                    None => {
                        proof {
                            crate::text::lemma_find_shift(
                                content@,
                                seq!['?'],
                                path_start as int,
                                0,
                            );
                            assert(path =~= content@.subrange(
                                path_start as int,
                                content@.len() as int,
                            ));
                        }
                        crate::text::string_of_range(content, path_start, n)
                    },
                };
                Some(idv)
            },
            None => None,
        };
        PaymentInfo {
            format: PaymentFormat::SbpRussia,
            payee_name,
            payee_id,
            account: None,
            bank,
            bic: None,
            amount,
            currency,
            purpose,
            extra,
        }
    }

    /// Parse a pipe-delimited payload: `Key=Value` fields separated by '|'.
    #[verifier::rlimit(100)]
    fn parse_st(&self, content: &Vec<char>) -> (r: PaymentInfo)
        ensures
            st_ok(content@, r),
    {
        proof {
            reveal_strlit("Name");
            reveal_strlit("PersonalAcc");
            reveal_strlit("BankName");
            reveal_strlit("BIC");
            reveal_strlit("Sum");
            reveal_strlit("Purpose");
            reveal_strlit("PayeeINN");
            reveal_strlit("RUB");
        }
        let params = crate::text::split_ranges(content, 0, '|');
        let ghost ps = split_at_sep(content@, '|');
        proof {
            assert(content@.skip(0) =~= content@);
            assert(crate::text::ranges_views(content@, params@) =~= ps);
        }
        let mut payee_name: Option<String> = None;
        let mut account: Option<String> = None;
        let mut bank: Option<String> = None;
        let mut bic: Option<String> = None;
        let mut amount: Option<u64> = None;
        let mut purpose: Option<String> = None;
        let mut payee_id: Option<String> = None;
        let mut extra: Vec<(String, String)> = Vec::new();
        let pn = params.len();
        let mut i: usize = 0;
        while i < pn
            invariant
                i <= pn,
                pn == params@.len(),
                crate::text::ranges_views(content@, params@) == ps,
                forall|j: int| 0 <= j < params@.len() ==> (#[trigger] params@[j]).0 <= params@[j].1
                    <= content@.len(),
                opt_match(payee_name, last_kv_exact(ps.take(i as int), "Name"@)),
                opt_match(account, last_kv_exact(ps.take(i as int), "PersonalAcc"@)),
                opt_match(bank, last_kv_exact(ps.take(i as int), "BankName"@)),
                opt_match(bic, last_kv_exact(ps.take(i as int), "BIC"@)),
                amt_match(amount, last_sum_exact(ps.take(i as int), "Sum"@)),
                opt_match(purpose, last_kv_exact(ps.take(i as int), "Purpose"@)),
                opt_match(payee_id, last_kv_exact(ps.take(i as int), "PayeeINN"@)),
                alist_unique(extra@),
                forall|k: Seq<char>| #[trigger] alist_find(extra@, k) == st_extra_spec(
                    ps.take(i as int),
                    k,
                ),
            decreases pn - i,
        {
            proof {
                reveal_strlit("Name");
                reveal_strlit("PersonalAcc");
                reveal_strlit("BankName");
                reveal_strlit("BIC");
                reveal_strlit("Sum");
                reveal_strlit("Purpose");
                reveal_strlit("PayeeINN");
                reveal_strlit("RUB");
            }
            let (a, b) = { (params[i].0, params[i].1) };
            let seg = crate::text::copy_range(content, a, b);
            proof {
                assert(ps.take(i + 1).drop_last() =~= ps.take(i as int));
                assert(ps.take(i + 1).last() == ps[i as int]);
                assert(seg@ == ps[i as int]);
                lemma_last_kv_step(ps, i as int, "Name"@);
                lemma_last_kv_step(ps, i as int, "PersonalAcc"@);
                lemma_last_kv_step(ps, i as int, "BankName"@);
                lemma_last_kv_step(ps, i as int, "BIC"@);
                lemma_last_kv_step(ps, i as int, "Sum"@);
                lemma_last_kv_step(ps, i as int, "Purpose"@);
                lemma_last_kv_step(ps, i as int, "PayeeINN"@);
                lemma_st_keys_distinct();
            }
            let mut eqm: Vec<char> = Vec::new();
            eqm.push('=');
            proof {
                assert(eqm@ =~= seq!['=']);
            }
            match crate::text::find_from_exec(&seg, eqm.as_slice(), 0) {
                None => {},
                Some(e) => {
                    proof {
                        crate::text::lemma_find_from_bounds(seg@, seq!['='], 0);
                    }
                    let sl = seg.len();
                    let key = crate::text::copy_range(&seg, 0, e);
                    let ghost kv = seg_kv(seg@)->Some_0;
                    proof {
                        assert(kv.0 =~= seg@.subrange(0, e as int));
                        assert(kv.1 =~= seg@.subrange(e + 1, sl as int));
                    }
                    if crate::text::eq_chars(&key, &chars_vec("Name")) {
                        payee_name = Some(crate::text::string_of_range(&seg, e + 1, sl));
                    } else if crate::text::eq_chars(&key, &chars_vec("PersonalAcc")) {
                        account = Some(crate::text::string_of_range(&seg, e + 1, sl));
                    } else if crate::text::eq_chars(&key, &chars_vec("BankName")) {
                        bank = Some(crate::text::string_of_range(&seg, e + 1, sl));
                    } else if crate::text::eq_chars(&key, &chars_vec("BIC")) {
                        bic = Some(crate::text::string_of_range(&seg, e + 1, sl));
                    } else if crate::text::eq_chars(&key, &chars_vec("Sum")) {
                        match crate::text::parse_digits_range(&seg, e + 1, sl) {
                            Some(x) => {
                                amount = Some(x);
                            },
                            None => {},
                        }
                    } else if crate::text::eq_chars(&key, &chars_vec("Purpose")) {
                        purpose = Some(crate::text::string_of_range(&seg, e + 1, sl));
                    } else if crate::text::eq_chars(&key, &chars_vec("PayeeINN")) {
                        payee_id = Some(crate::text::string_of_range(&seg, e + 1, sl));
                    } else {
                        crate::emv::assoc_set(
                            &mut extra,
                            crate::text::string_of_range(&seg, 0, e),
                            crate::text::string_of_range(&seg, e + 1, sl),
                        );
                    }
                },
            }
            i = i + 1;
        }
        proof {
            assert(ps.take(pn as int) =~= ps);
        }
        PaymentInfo {
            format: PaymentFormat::StRussia,
            payee_name,
            payee_id,
            account,
            bank,
            bic,
            amount,
            currency: Some("RUB".to_owned()),
            purpose,
            extra,
        }
    }

    /// Map an ISO 4217 numeric currency code to its alphabetic code.
    pub fn currency_code_to_string(&self, code: &str) -> (r: String)
        ensures
            r@ == currency_code_spec(code@),
    {
        let cs = chars_vec(code);
        if crate::text::eq_chars(&cs, &chars_vec("643")) {
            "RUB".to_owned()
        } else if crate::text::eq_chars(&cs, &chars_vec("840")) {
            "USD".to_owned()
        } else if crate::text::eq_chars(&cs, &chars_vec("978")) {
            "EUR".to_owned()
        } else if crate::text::eq_chars(&cs, &chars_vec("156")) {
            "CNY".to_owned()
        } else if crate::text::eq_chars(&cs, &chars_vec("392")) {
            "JPY".to_owned()
        } else if crate::text::eq_chars(&cs, &chars_vec("826")) {
            "GBP".to_owned()
        } else {
            code.to_owned()
        }
    }

    /// Parse the EMV TLV records of a payload into payment fields.
    #[verifier::rlimit(100)]
    fn parse_emv(&self, content: &Vec<char>) -> (r: Option<PaymentInfo>)
        ensures
            match r {
                Some(info) => tlv_lax(content@) is Some && emv_pay_ok(
                    tlv_lax(content@)->Some_0,
                    info,
                ),
                None => tlv_lax(content@) is None,
            },
    {
        let len = content.len();
        let mut recs: Vec<(String, String)> = Vec::new();
        let mut idx: usize = 0;
        proof {
            assert(content@.skip(0) =~= content@);
            if tlv_lax(content@.skip(0)) is Some {
                assert(crate::emv::recs_view(recs@) + tlv_lax(content@.skip(0))->Some_0
                    =~= tlv_lax(content@.skip(0))->Some_0);
            }
        }
        while idx < len && len - idx >= 4
            invariant_except_break
                idx <= len,
                len == content@.len(),
                tlv_lax(content@) == match tlv_lax(content@.skip(idx as int)) {
                    None => None::<Seq<TlvRec>>,
                    Some(rest) => Some(crate::emv::recs_view(recs@) + rest),
                },
                forall|j: int| 0 <= j < recs@.len() ==> (#[trigger] recs@[j].0)@.len() == 2,
            ensures
                tlv_lax(content@) == Some(crate::emv::recs_view(recs@)),
                forall|j: int| 0 <= j < recs@.len() ==> (#[trigger] recs@[j].0)@.len() == 2,
            decreases len - idx,
        {
            let ghost rem = content@.skip(idx as int);
            proof {
                assert(forall|j: int| 0 <= j < rem.len() ==> rem[j] == content@[idx + j]);
            }
            let c2 = content[idx + 2];
            let c3 = content[idx + 3];
            if !(c2 >= '0' && c2 <= '9' && c3 >= '0' && c3 <= '9') {
                proof {
                    assert(tlv_lax(rem) is None);
                }
                return None;
            }
            let l: usize = 10 * (c2 as u32 - 48) as usize + (c3 as u32 - 48) as usize;
            if l > len - idx - 4 {
                proof {
                    assert(tlv_lax(rem) == Some(Seq::<TlvRec>::empty()));
                    assert(crate::emv::recs_view(recs@) + Seq::<TlvRec>::empty()
                        =~= crate::emv::recs_view(recs@));
                }
                break ;
            }
            let tag = crate::text::string_of_range(content, idx, idx + 2);
            let val = crate::text::string_of_range(content, idx + 4, idx + 4 + l);
            let ghost old_recs = crate::emv::recs_view(recs@);
            recs.push((tag, val));
            proof {
                let rec = TlvRec { tag: rem.subrange(0, 2), value: rem.subrange(4, 4 + l as int) };
                assert(rem.subrange(0, 2) =~= content@.subrange(idx as int, idx + 2));
                assert(rem.subrange(4, 4 + l as int) =~= content@.subrange(idx + 4, idx + 4 + l));
                assert(crate::emv::recs_view(recs@) =~= old_recs + seq![rec]);
                assert(rem.skip(4 + l as int) =~= content@.skip(idx + 4 + l));
                if tlv_lax(content@.skip(idx + 4 + l)) is Some {
                    let rest2 = tlv_lax(content@.skip(idx + 4 + l))->Some_0;
                    assert(tlv_lax(rem) == Some(seq![rec] + rest2));
                    assert((old_recs + seq![rec]) + rest2 =~= old_recs + (seq![rec] + rest2));
                }
            }
            idx = idx + 4 + l;
        }
        let ghost full = crate::emv::recs_view(recs@);
        let mut payee_name: Option<String> = None;
        let mut currency: Option<String> = None;
        let mut amount: Option<u64> = None;
        let mut account: Option<String> = None;
        let mut extra: Vec<(String, String)> = Vec::new();
        let rn = recs.len();
        let mut i: usize = 0;
        while i < rn
            invariant
                i <= rn,
                rn == recs@.len(),
                full == crate::emv::recs_view(recs@),
                forall|j: int| 0 <= j < recs@.len() ==> (#[trigger] recs@[j].0)@.len() == 2,
                opt_match(payee_name, tlv_lookup(full.take(i as int), "59"@)),
                (match tlv_lookup(full.take(i as int), "53"@) {
                    Some(v) => opt_match(currency, Some(currency_code_spec(v))),
                    None => currency is None,
                }),
                (match tlv_lookup(full.take(i as int), "54"@) {
                    Some(v) => if valid_amount(v) {
                        amt_match(amount, Some(digits_val(v)))
                    } else {
                        amount is None
                    },
                    None => amount is None,
                }),
                opt_match(account, emv_account(full.take(i as int))),
                alist_unique(extra@),
                forall|k: Seq<char>| #[trigger] alist_find(extra@, k) == emv_extra_spec(
                    full.take(i as int),
                    k,
                ),
            decreases rn - i,
        {
            proof {
                reveal_strlit("52");
                reveal_strlit("53");
                reveal_strlit("54");
                reveal_strlit("58");
                reveal_strlit("59");
                reveal_strlit("60");
                reveal_strlit("26");
                reveal_strlit("27");
                reveal_strlit("mcc");
                reveal_strlit("country");
                reveal_strlit("city");
            }
            let (key, val) = {
                let p = &recs[i];
                (p.0.clone(), p.1.clone())
            };
            let c0 = key.as_str().get_char(0);
            let c1 = key.as_str().get_char(1);
            let ghost kk = key@;
            proof {
                assert(kk =~= seq![c0, c1]);
                assert(full.take(i + 1).drop_last() =~= full.take(i as int));
                assert(full.take(i + 1).last() == full[i as int]);
                assert(full[i as int].tag == kk);
                assert(full[i as int].value == recs@[i as int].1@);
                lemma_emv_tags(c0, c1);
            }
            if c0 == '5' && c1 == '9' {
                payee_name = Some(val);
            } else if c0 == '5' && c1 == '3' {
                currency = Some(self.currency_code_to_string(val.as_str()));
            } else if c0 == '5' && c1 == '4' {
                let vc = chars_vec(val.as_str());
                proof {
                    assert(vc@.subrange(0, vc@.len() as int) =~= vc@);
                }
                amount = crate::text::parse_digits_range(&vc, 0, vc.len());
            } else if c0 == '5' && c1 == '2' {
                crate::emv::assoc_set(&mut extra, "mcc".to_owned(), val);
            } else if c0 == '5' && c1 == '8' {
                crate::emv::assoc_set(&mut extra, "country".to_owned(), val);
            } else if c0 == '6' && c1 == '0' {
                crate::emv::assoc_set(&mut extra, "city".to_owned(), val);
            } else if (c0 == '2' && c1 == '6') || (c0 == '2' && c1 == '7') {
                account = Some(val);
            } else {
            }
            i = i + 1;
        }
        proof {
            assert(full.take(rn as int) =~= full);
        }
        Some(
            PaymentInfo {
                format: PaymentFormat::EmvQR,
                payee_name,
                payee_id: None,
                account,
                bank: None,
                bic: None,
                amount,
                currency,
                purpose: None,
                extra,
            },
        )
    }

    /// How likely the text is a payment payload, as a score in hundredths:
    /// 100 for the known payment host, 95 for an EMV shape, 90 for the
    /// pipe scheme, then keyword tiers, 0 otherwise.
    pub fn relevance_score(&self, content: &str) -> (r: u32)
        ensures
            r == relevance_spec(lower_of(content@), content@),
    {
        let low_s = crate::classify::to_lowercase(content);
        let low = chars_vec(low_s.as_str());
        let orig = chars_vec(content);
        if crate::classify::contains_str(&low, "qr.nspk.ru") {
            100
        } else if crate::classify::starts_with_str(&orig, "00") && orig.len() > 50 {
            95
        } else if crate::classify::starts_with_str(&low, "st.") {
            90
        } else if crate::classify::contains_str(&low, "pay") || crate::classify::contains_str(
            &low,
            "payment",
        ) || crate::classify::contains_str(&low, "оплат") || crate::classify::contains_str(
            &low,
            "платёж",
        ) || crate::classify::contains_str(&low, "платеж") || crate::classify::contains_str(
            &low,
            "перевод",
        ) {
            60
        } else if crate::classify::contains_str(&low, "bank") || crate::classify::contains_str(
            &low,
            "банк",
        ) {
            40
        } else {
            0
        }
    }

    /// Parse a payment payload, dispatching on its shape: the known
    /// payment-URL host, the pipe-delimited scheme's prefix, or the EMV
    /// prefix with a long payload.
    pub fn parse(&self, content: &str) -> (r: Option<PaymentInfo>)
        ensures
            parse_result_ok(content@, r),
    {
        let cs = chars_vec(content);
        if crate::classify::starts_with_str(&cs, "https://qr.nspk.ru") || crate::classify::starts_with_str(
            &cs,
            "http://qr.nspk.ru",
        ) {
            Some(self.parse_sbp(&cs))
        } else if crate::classify::starts_with_str(&cs, "ST.") || crate::classify::starts_with_str(
            &cs,
            "st.",
        ) {
            Some(self.parse_st(&cs))
        } else if crate::classify::starts_with_str(&cs, "00") && cs.len() > 50 {
            self.parse_emv(&cs)
        } else {
            None
        }
    }
}

/// The classification facts needed for one EMV tag made of the characters
/// `c0` and `c1`.
proof fn lemma_emv_tags(c0: char, c1: char)
    ensures
        (seq![c0, c1] == "59"@) == (c0 == '5' && c1 == '9'),
        (seq![c0, c1] == "53"@) == (c0 == '5' && c1 == '3'),
        (seq![c0, c1] == "54"@) == (c0 == '5' && c1 == '4'),
        (seq![c0, c1] == "52"@) == (c0 == '5' && c1 == '2'),
        (seq![c0, c1] == "58"@) == (c0 == '5' && c1 == '8'),
        (seq![c0, c1] == "60"@) == (c0 == '6' && c1 == '0'),
        (seq![c0, c1] == "26"@) == (c0 == '2' && c1 == '6'),
        (seq![c0, c1] == "27"@) == (c0 == '2' && c1 == '7'),
        "mcc"@ != "country"@,
        "mcc"@ != "city"@,
        "country"@ != "city"@,
{
    reveal_strlit("59");
    reveal_strlit("53");
    reveal_strlit("54");
    reveal_strlit("52");
    reveal_strlit("58");
    reveal_strlit("60");
    reveal_strlit("26");
    reveal_strlit("27");
    reveal_strlit("mcc");
    reveal_strlit("country");
    reveal_strlit("city");
    assert("59"@ =~= seq!['5', '9']);
    assert("53"@ =~= seq!['5', '3']);
    assert("54"@ =~= seq!['5', '4']);
    assert("52"@ =~= seq!['5', '2']);
    assert("58"@ =~= seq!['5', '8']);
    assert("60"@ =~= seq!['6', '0']);
    assert("26"@ =~= seq!['2', '6']);
    assert("27"@ =~= seq!['2', '7']);
    assert("mcc"@.len() == 3);
    assert("country"@.len() == 7);
    assert("city"@.len() == 4);
    assert forall|a: char, b: char, x: Seq<char>|
        x.len() == 2 && x[0] == a && x[1] == b implies (seq![a, b] == x) by {
        assert(seq![a, b] =~= x);
    }
}

} // verus!
