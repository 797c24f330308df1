//! Classification of decoded payload text into a closed set of content
//! kinds, by prefix and substring matching against known schemes.

use vstd::prelude::*;
use crate::text::{chars_vec, contains_exec, contains_seq, matches_at, starts_with, starts_with_exec};

verus! {

/// The kind of content a decoded payload carries.
#[derive(Debug, Clone, Copy, PartialEq, Eq, Structural)]
pub enum ContentType {
    Text,
    Url,
    VCard,
    WiFi,
    Payment,
    Email,
    Phone,
    Sms,
    Geo,
    Unknown,
}

/// What `str::to_lowercase` returns: a function of the characters alone.
pub uninterp spec fn lower_of(s: Seq<char>) -> Seq<char>;

/// ASCII lowercase of one character: the uppercase letters are folded,
/// the rest kept.
pub open spec fn ascii_lower_char(c: char) -> char {
    if 65 <= c as int <= 90 {
        (((c as int) + 32) as u32) as char
    } else {
        c
    }
}

/// ASCII lowercase of a character sequence.
pub open spec fn ascii_lower_seq(s: Seq<char>) -> Seq<char> {
    Seq::new(s.len(), |i: int| ascii_lower_char(s[i]))
}

/// A character in the seven-bit ASCII range.
pub open spec fn ascii_char(c: char) -> bool {
    (c as int) < 128
}

/// Every character lies in the seven-bit ASCII range.
pub open spec fn all_ascii(s: Seq<char>) -> bool {
    forall|i: int| 0 <= i < s.len() ==> ascii_char(#[trigger] s[i])
}

/// The first `k` characters lie in the seven-bit ASCII range.
pub open spec fn ascii_prefix(s: Seq<char>, k: int) -> bool {
    forall|i: int| 0 <= i < k ==> ascii_char(#[trigger] s[i])
}

/// Relies on `str::to_lowercase`: the result depends on the characters
/// alone, an empty string stays empty, and ASCII text folds exactly as
/// the Unicode lowercase mapping says, uppercase letters shifted into
/// their lowercase forms and everything else kept. An ASCII character
/// folds to one ASCII character independent of context, so a leading
/// ASCII run folds in place whatever follows it.
#[verifier::external_body]
pub(crate) fn to_lowercase(s: &str) -> (r: String)
    ensures
        r@ == lower_of(s@),
        s@.len() == 0 ==> r@.len() == 0,
        all_ascii(s@) ==> r@ == ascii_lower_seq(s@),
        forall|k: int|
            0 <= k <= s@.len() && #[trigger] ascii_prefix(s@, k) ==> r@.len() >= k && (forall|
                i: int,
            |
                0 <= i < k ==> #[trigger] r@[i] == ascii_lower_char(s@[i])),
{
    s.to_lowercase()
}

/// A payload of one of the payment shapes the parser accepts: the known
/// payment-URL host, the pipe scheme's prefix, or the EMV prefix with a
/// long payload.
pub open spec fn payment_shape(cs: Seq<char>) -> bool {
    ||| starts_with(cs, "https://qr.nspk.ru"@)
    ||| starts_with(cs, "http://qr.nspk.ru"@)
    ||| starts_with(cs, "ST."@)
    ||| starts_with(cs, "st."@)
    ||| (starts_with(cs, "00"@) && cs.len() > 50)
}


/// A payload of a payment shape is classified as payment content,
/// whatever follows the shape's ASCII prefix: the prefix folds in place,
/// so the decision tree lands in a payment branch.
proof fn lemma_shape_classifies(cs: Seq<char>, low: Seq<char>)
    requires
        payment_shape(cs),
        forall|k: int|
            0 <= k <= cs.len() && #[trigger] ascii_prefix(cs, k) ==> low.len() >= k && (forall|
                i: int,
            |
                0 <= i < k ==> #[trigger] low[i] == ascii_lower_char(cs[i])),
    ensures
        content_type_spec(low, cs) is Payment,
{
    reveal_strlit("https://qr.nspk.ru");
    reveal_strlit("http://qr.nspk.ru");
    reveal_strlit("https://");
    reveal_strlit("http://");
    reveal_strlit("qr.nspk.ru");
    reveal_strlit("begin:vcard");
    reveal_strlit("wifi:");
    reveal_strlit("mailto:");
    reveal_strlit("tel:");
    reveal_strlit("smsto:");
    reveal_strlit("sms:");
    reveal_strlit("geo:");
    reveal_strlit("ST.");
    reveal_strlit("st.");
    reveal_strlit("00");
    if starts_with(cs, "https://qr.nspk.ru"@) {
        assert(cs[0] == "https://qr.nspk.ru"@[0]);
        assert(cs[0] == 'h');
        assert(cs[1] == "https://qr.nspk.ru"@[1]);
        assert(cs[1] == 't');
        assert(cs[2] == "https://qr.nspk.ru"@[2]);
        assert(cs[2] == 't');
        assert(cs[3] == "https://qr.nspk.ru"@[3]);
        assert(cs[3] == 'p');
        assert(cs[4] == "https://qr.nspk.ru"@[4]);
        assert(cs[4] == 's');
        assert(cs[5] == "https://qr.nspk.ru"@[5]);
        assert(cs[5] == ':');
        assert(cs[6] == "https://qr.nspk.ru"@[6]);
        assert(cs[6] == '/');
        assert(cs[7] == "https://qr.nspk.ru"@[7]);
        assert(cs[7] == '/');
        assert(cs[8] == "https://qr.nspk.ru"@[8]);
        assert(cs[8] == 'q');
        assert(cs[9] == "https://qr.nspk.ru"@[9]);
        assert(cs[9] == 'r');
        assert(cs[10] == "https://qr.nspk.ru"@[10]);
        assert(cs[10] == '.');
        assert(cs[11] == "https://qr.nspk.ru"@[11]);
        assert(cs[11] == 'n');
        assert(cs[12] == "https://qr.nspk.ru"@[12]);
        assert(cs[12] == 's');
        assert(cs[13] == "https://qr.nspk.ru"@[13]);
        assert(cs[13] == 'p');
        assert(cs[14] == "https://qr.nspk.ru"@[14]);
        assert(cs[14] == 'k');
        assert(cs[15] == "https://qr.nspk.ru"@[15]);
        assert(cs[15] == '.');
        assert(cs[16] == "https://qr.nspk.ru"@[16]);
        assert(cs[16] == 'r');
        assert(cs[17] == "https://qr.nspk.ru"@[17]);
        assert(cs[17] == 'u');
        assert(ascii_prefix(cs, 18)) by {
            assert forall|i: int| 0 <= i < 18 implies ascii_char(#[trigger] cs[i]) by {
                if i == 0 {
                    assert(ascii_char(cs[0]));
                } else if i == 1 {
                    assert(ascii_char(cs[1]));
                } else if i == 2 {
                    assert(ascii_char(cs[2]));
                } else if i == 3 {
                    assert(ascii_char(cs[3]));
                } else if i == 4 {
                    assert(ascii_char(cs[4]));
                } else if i == 5 {
                    assert(ascii_char(cs[5]));
                } else if i == 6 {
                    assert(ascii_char(cs[6]));
                } else if i == 7 {
                    assert(ascii_char(cs[7]));
                } else if i == 8 {
                    assert(ascii_char(cs[8]));
                } else if i == 9 {
                    assert(ascii_char(cs[9]));
                } else if i == 10 {
                    assert(ascii_char(cs[10]));
                } else if i == 11 {
                    assert(ascii_char(cs[11]));
                } else if i == 12 {
                    assert(ascii_char(cs[12]));
                } else if i == 13 {
                    assert(ascii_char(cs[13]));
                } else if i == 14 {
                    assert(ascii_char(cs[14]));
                } else if i == 15 {
                    assert(ascii_char(cs[15]));
                } else if i == 16 {
                    assert(ascii_char(cs[16]));
                } else if i == 17 {
                    assert(ascii_char(cs[17]));
                }
            }
        }
        assert(low.len() >= 18);
        assert(low[0] == ascii_lower_char(cs[0]));
        assert(low[0] == 'h');
        assert(low[1] == ascii_lower_char(cs[1]));
        assert(low[1] == 't');
        assert(low[2] == ascii_lower_char(cs[2]));
        assert(low[2] == 't');
        assert(low[3] == ascii_lower_char(cs[3]));
        assert(low[3] == 'p');
        assert(low[4] == ascii_lower_char(cs[4]));
        assert(low[4] == 's');
        assert(low[5] == ascii_lower_char(cs[5]));
        assert(low[5] == ':');
        assert(low[6] == ascii_lower_char(cs[6]));
        assert(low[6] == '/');
        assert(low[7] == ascii_lower_char(cs[7]));
        assert(low[7] == '/');
        assert(low[8] == ascii_lower_char(cs[8]));
        assert(low[8] == 'q');
        assert(low[9] == ascii_lower_char(cs[9]));
        assert(low[9] == 'r');
        assert(low[10] == ascii_lower_char(cs[10]));
        assert(low[10] == '.');
        assert(low[11] == ascii_lower_char(cs[11]));
        assert(low[11] == 'n');
        assert(low[12] == ascii_lower_char(cs[12]));
        assert(low[12] == 's');
        assert(low[13] == ascii_lower_char(cs[13]));
        assert(low[13] == 'p');
        assert(low[14] == ascii_lower_char(cs[14]));
        assert(low[14] == 'k');
        assert(low[15] == ascii_lower_char(cs[15]));
        assert(low[15] == '.');
        assert(low[16] == ascii_lower_char(cs[16]));
        assert(low[16] == 'r');
        assert(low[17] == ascii_lower_char(cs[17]));
        assert(low[17] == 'u');
        assert(matches_at(low, "https://"@, 0)) by {
            assert forall|i: int| 0 <= i < "https://"@.len() implies low[0 + i] == "https://"@[i] by {
                if i == 0 {
                    assert("https://"@[0] == 'h');
                    assert(low[0] == 'h');
                } else if i == 1 {
                    assert("https://"@[1] == 't');
                    assert(low[1] == 't');
                } else if i == 2 {
                    assert("https://"@[2] == 't');
                    assert(low[2] == 't');
                } else if i == 3 {
                    assert("https://"@[3] == 'p');
                    assert(low[3] == 'p');
                } else if i == 4 {
                    assert("https://"@[4] == 's');
                    assert(low[4] == 's');
                } else if i == 5 {
                    assert("https://"@[5] == ':');
                    assert(low[5] == ':');
                } else if i == 6 {
                    assert("https://"@[6] == '/');
                    assert(low[6] == '/');
                } else if i == 7 {
                    assert("https://"@[7] == '/');
                    assert(low[7] == '/');
                }
            }
        }
        assert(starts_with(low, "https://"@));
        assert(matches_at(low, "qr.nspk.ru"@, 8)) by {
            assert forall|i: int| 0 <= i < "qr.nspk.ru"@.len() implies low[8 + i] == "qr.nspk.ru"@[i] by {
                if i == 0 {
                    assert("qr.nspk.ru"@[0] == 'q');
                    assert(low[8] == 'q');
                } else if i == 1 {
                    assert("qr.nspk.ru"@[1] == 'r');
                    assert(low[9] == 'r');
                } else if i == 2 {
                    assert("qr.nspk.ru"@[2] == '.');
                    assert(low[10] == '.');
                } else if i == 3 {
                    assert("qr.nspk.ru"@[3] == 'n');
                    assert(low[11] == 'n');
                } else if i == 4 {
                    assert("qr.nspk.ru"@[4] == 's');
                    assert(low[12] == 's');
                } else if i == 5 {
                    assert("qr.nspk.ru"@[5] == 'p');
                    assert(low[13] == 'p');
                } else if i == 6 {
                    assert("qr.nspk.ru"@[6] == 'k');
                    assert(low[14] == 'k');
                } else if i == 7 {
                    assert("qr.nspk.ru"@[7] == '.');
                    assert(low[15] == '.');
                } else if i == 8 {
                    assert("qr.nspk.ru"@[8] == 'r');
                    assert(low[16] == 'r');
                } else if i == 9 {
                    assert("qr.nspk.ru"@[9] == 'u');
                    assert(low[17] == 'u');
                }
            }
        }
        assert(contains_seq(low, "qr.nspk.ru"@));
        assert(content_type_spec(low, cs) is Payment);
    } else if starts_with(cs, "http://qr.nspk.ru"@) {
        assert(cs[0] == "http://qr.nspk.ru"@[0]);
        assert(cs[0] == 'h');
        assert(cs[1] == "http://qr.nspk.ru"@[1]);
        assert(cs[1] == 't');
        assert(cs[2] == "http://qr.nspk.ru"@[2]);
        assert(cs[2] == 't');
        assert(cs[3] == "http://qr.nspk.ru"@[3]);
        assert(cs[3] == 'p');
        assert(cs[4] == "http://qr.nspk.ru"@[4]);
        assert(cs[4] == ':');
        assert(cs[5] == "http://qr.nspk.ru"@[5]);
        assert(cs[5] == '/');
        assert(cs[6] == "http://qr.nspk.ru"@[6]);
        assert(cs[6] == '/');
        assert(cs[7] == "http://qr.nspk.ru"@[7]);
        assert(cs[7] == 'q');
        assert(cs[8] == "http://qr.nspk.ru"@[8]);
        assert(cs[8] == 'r');
        assert(cs[9] == "http://qr.nspk.ru"@[9]);
        assert(cs[9] == '.');
        assert(cs[10] == "http://qr.nspk.ru"@[10]);
        assert(cs[10] == 'n');
        assert(cs[11] == "http://qr.nspk.ru"@[11]);
        assert(cs[11] == 's');
        assert(cs[12] == "http://qr.nspk.ru"@[12]);
        assert(cs[12] == 'p');
        assert(cs[13] == "http://qr.nspk.ru"@[13]);
        assert(cs[13] == 'k');
        assert(cs[14] == "http://qr.nspk.ru"@[14]);
        assert(cs[14] == '.');
        assert(cs[15] == "http://qr.nspk.ru"@[15]);
        assert(cs[15] == 'r');
        assert(cs[16] == "http://qr.nspk.ru"@[16]);
        assert(cs[16] == 'u');
        assert(ascii_prefix(cs, 17)) by {
            assert forall|i: int| 0 <= i < 17 implies ascii_char(#[trigger] cs[i]) by {
                if i == 0 {
                    assert(ascii_char(cs[0]));
                } else if i == 1 {
                    assert(ascii_char(cs[1]));
                } else if i == 2 {
                    assert(ascii_char(cs[2]));
                } else if i == 3 {
                    assert(ascii_char(cs[3]));
                } else if i == 4 {
                    assert(ascii_char(cs[4]));
                } else if i == 5 {
                    assert(ascii_char(cs[5]));
                } else if i == 6 {
                    assert(ascii_char(cs[6]));
                } else if i == 7 {
                    assert(ascii_char(cs[7]));
                } else if i == 8 {
                    assert(ascii_char(cs[8]));
                } else if i == 9 {
                    assert(ascii_char(cs[9]));
                } else if i == 10 {
                    assert(ascii_char(cs[10]));
                } else if i == 11 {
                    assert(ascii_char(cs[11]));
                } else if i == 12 {
                    assert(ascii_char(cs[12]));
                } else if i == 13 {
                    assert(ascii_char(cs[13]));
                } else if i == 14 {
                    assert(ascii_char(cs[14]));
                } else if i == 15 {
                    assert(ascii_char(cs[15]));
                } else if i == 16 {
                    assert(ascii_char(cs[16]));
                }
            }
        }
        assert(low.len() >= 17);
        assert(low[0] == ascii_lower_char(cs[0]));
        assert(low[0] == 'h');
        assert(low[1] == ascii_lower_char(cs[1]));
        assert(low[1] == 't');
        assert(low[2] == ascii_lower_char(cs[2]));
        assert(low[2] == 't');
        assert(low[3] == ascii_lower_char(cs[3]));
        assert(low[3] == 'p');
        assert(low[4] == ascii_lower_char(cs[4]));
        assert(low[4] == ':');
        assert(low[5] == ascii_lower_char(cs[5]));
        assert(low[5] == '/');
        assert(low[6] == ascii_lower_char(cs[6]));
        assert(low[6] == '/');
        assert(low[7] == ascii_lower_char(cs[7]));
        assert(low[7] == 'q');
        assert(low[8] == ascii_lower_char(cs[8]));
        assert(low[8] == 'r');
        assert(low[9] == ascii_lower_char(cs[9]));
        assert(low[9] == '.');
        assert(low[10] == ascii_lower_char(cs[10]));
        assert(low[10] == 'n');
        assert(low[11] == ascii_lower_char(cs[11]));
        assert(low[11] == 's');
        assert(low[12] == ascii_lower_char(cs[12]));
        assert(low[12] == 'p');
        assert(low[13] == ascii_lower_char(cs[13]));
        assert(low[13] == 'k');
        assert(low[14] == ascii_lower_char(cs[14]));
        assert(low[14] == '.');
        assert(low[15] == ascii_lower_char(cs[15]));
        assert(low[15] == 'r');
        assert(low[16] == ascii_lower_char(cs[16]));
        assert(low[16] == 'u');
        assert(matches_at(low, "http://"@, 0)) by {
            assert forall|i: int| 0 <= i < "http://"@.len() implies low[0 + i] == "http://"@[i] by {
                if i == 0 {
                    assert("http://"@[0] == 'h');
                    assert(low[0] == 'h');
                } else if i == 1 {
                    assert("http://"@[1] == 't');
                    assert(low[1] == 't');
                } else if i == 2 {
                    assert("http://"@[2] == 't');
                    assert(low[2] == 't');
                } else if i == 3 {
                    assert("http://"@[3] == 'p');
                    assert(low[3] == 'p');
                } else if i == 4 {
                    assert("http://"@[4] == ':');
                    assert(low[4] == ':');
                } else if i == 5 {
                    assert("http://"@[5] == '/');
                    assert(low[5] == '/');
                } else if i == 6 {
                    assert("http://"@[6] == '/');
                    assert(low[6] == '/');
                }
            }
        }
        assert(starts_with(low, "http://"@));
        assert(matches_at(low, "qr.nspk.ru"@, 7)) by {
            assert forall|i: int| 0 <= i < "qr.nspk.ru"@.len() implies low[7 + i] == "qr.nspk.ru"@[i] by {
                if i == 0 {
                    assert("qr.nspk.ru"@[0] == 'q');
                    assert(low[7] == 'q');
                } else if i == 1 {
                    assert("qr.nspk.ru"@[1] == 'r');
                    assert(low[8] == 'r');
                } else if i == 2 {
                    assert("qr.nspk.ru"@[2] == '.');
                    assert(low[9] == '.');
                } else if i == 3 {
                    assert("qr.nspk.ru"@[3] == 'n');
                    assert(low[10] == 'n');
                } else if i == 4 {
                    assert("qr.nspk.ru"@[4] == 's');
                    assert(low[11] == 's');
                } else if i == 5 {
                    assert("qr.nspk.ru"@[5] == 'p');
                    assert(low[12] == 'p');
                } else if i == 6 {
                    assert("qr.nspk.ru"@[6] == 'k');
                    assert(low[13] == 'k');
                } else if i == 7 {
                    assert("qr.nspk.ru"@[7] == '.');
                    assert(low[14] == '.');
                } else if i == 8 {
                    assert("qr.nspk.ru"@[8] == 'r');
                    assert(low[15] == 'r');
                } else if i == 9 {
                    assert("qr.nspk.ru"@[9] == 'u');
                    assert(low[16] == 'u');
                }
            }
        }
        assert(contains_seq(low, "qr.nspk.ru"@));
        assert(content_type_spec(low, cs) is Payment);
    } else if starts_with(cs, "ST."@) || starts_with(cs, "st."@) {
        if starts_with(cs, "ST."@) {
        {
        assert(cs[0] == "ST."@[0]);
        assert(cs[0] == 'S');
        assert(cs[1] == "ST."@[1]);
        assert(cs[1] == 'T');
        assert(cs[2] == "ST."@[2]);
        assert(cs[2] == '.');
        assert(ascii_prefix(cs, 3)) by {
            assert forall|i: int| 0 <= i < 3 implies ascii_char(#[trigger] cs[i]) by {
                if i == 0 {
                    assert(ascii_char(cs[0]));
                } else if i == 1 {
                    assert(ascii_char(cs[1]));
                } else if i == 2 {
                    assert(ascii_char(cs[2]));
                }
            }
        }
        assert(low.len() >= 3);
        assert(low[0] == ascii_lower_char(cs[0]));
        assert(low[0] == 's');
        assert(low[1] == ascii_lower_char(cs[1]));
        assert(low[1] == 't');
        assert(low[2] == ascii_lower_char(cs[2]));
        assert(low[2] == '.');
        assert(cs[0] == 'S');
        }
        } else {
        {
        assert(cs[0] == "st."@[0]);
        assert(cs[0] == 's');
        assert(cs[1] == "st."@[1]);
        assert(cs[1] == 't');
        assert(cs[2] == "st."@[2]);
        assert(cs[2] == '.');
        assert(ascii_prefix(cs, 3)) by {
            assert forall|i: int| 0 <= i < 3 implies ascii_char(#[trigger] cs[i]) by {
                if i == 0 {
                    assert(ascii_char(cs[0]));
                } else if i == 1 {
                    assert(ascii_char(cs[1]));
                } else if i == 2 {
                    assert(ascii_char(cs[2]));
                }
            }
        }
        assert(low.len() >= 3);
        assert(low[0] == ascii_lower_char(cs[0]));
        assert(low[0] == 's');
        assert(low[1] == ascii_lower_char(cs[1]));
        assert(low[1] == 't');
        assert(low[2] == ascii_lower_char(cs[2]));
        assert(low[2] == '.');
        assert(cs[0] == 's');
        }
        }
        assert(low[0] == 's' && low[1] == 't' && low[2] == '.');
        assert(low.len() >= 3);
        assert(!starts_with(low, "http://"@)) by {
            if starts_with(low, "http://"@) {
                assert(low[0] == "http://"@[0]);
                assert("http://"@[0] == 'h');
            }
        }
        assert(!starts_with(low, "https://"@)) by {
            if starts_with(low, "https://"@) {
                assert(low[0] == "https://"@[0]);
                assert("https://"@[0] == 'h');
            }
        }
        assert(!starts_with(low, "begin:vcard"@)) by {
            if starts_with(low, "begin:vcard"@) {
                assert(low[0] == "begin:vcard"@[0]);
                assert("begin:vcard"@[0] == 'b');
            }
        }
        assert(!starts_with(low, "wifi:"@)) by {
            if starts_with(low, "wifi:"@) {
                assert(low[0] == "wifi:"@[0]);
                assert("wifi:"@[0] == 'w');
            }
        }
        assert(!starts_with(low, "mailto:"@)) by {
            if starts_with(low, "mailto:"@) {
                assert(low[0] == "mailto:"@[0]);
                assert("mailto:"@[0] == 'm');
            }
        }
        assert(!starts_with(low, "tel:"@)) by {
            if starts_with(low, "tel:"@) {
                assert(low[0] == "tel:"@[0]);
                assert("tel:"@[0] == 't');
            }
        }
        assert(!starts_with(low, "smsto:"@)) by {
            if starts_with(low, "smsto:"@) {
                assert(low[1] == "smsto:"@[1]);
                assert("smsto:"@[1] == 'm');
            }
        }
        assert(!starts_with(low, "sms:"@)) by {
            if starts_with(low, "sms:"@) {
                assert(low[1] == "sms:"@[1]);
                assert("sms:"@[1] == 'm');
            }
        }
        assert(!starts_with(low, "geo:"@)) by {
            if starts_with(low, "geo:"@) {
                assert(low[0] == "geo:"@[0]);
                assert("geo:"@[0] == 'g');
            }
        }
        assert(!starts_with(cs, "00"@)) by {
            if starts_with(cs, "00"@) {
                assert(cs[0] == "00"@[0]);
                assert("00"@[0] == '0');
            }
        }
        assert(matches_at(low, "st."@, 0)) by {
            assert forall|i: int| 0 <= i < "st."@.len() implies low[0 + i] == "st."@[i] by {
                if i == 0 {
                    assert("st."@[0] == 's');
                    assert(low[0] == 's');
                } else if i == 1 {
                    assert("st."@[1] == 't');
                    assert(low[1] == 't');
                } else if i == 2 {
                    assert("st."@[2] == '.');
                    assert(low[2] == '.');
                }
            }
        }
        assert(starts_with(low, "st."@));
        assert(content_type_spec(low, cs) is Payment);
    } else {
        assert(cs[0] == "00"@[0]);
        assert(cs[0] == '0');
        assert(cs[1] == "00"@[1]);
        assert(cs[1] == '0');
        assert(ascii_prefix(cs, 2)) by {
            assert forall|i: int| 0 <= i < 2 implies ascii_char(#[trigger] cs[i]) by {
                if i == 0 {
                    assert(ascii_char(cs[0]));
                } else if i == 1 {
                    assert(ascii_char(cs[1]));
                }
            }
        }
        assert(low.len() >= 2);
        assert(low[0] == ascii_lower_char(cs[0]));
        assert(low[0] == '0');
        assert(low[1] == ascii_lower_char(cs[1]));
        assert(low[1] == '0');
        assert(!starts_with(low, "http://"@)) by {
            if starts_with(low, "http://"@) {
                assert(low[0] == "http://"@[0]);
                assert("http://"@[0] == 'h');
            }
        }
        assert(!starts_with(low, "https://"@)) by {
            if starts_with(low, "https://"@) {
                assert(low[0] == "https://"@[0]);
                assert("https://"@[0] == 'h');
            }
        }
        assert(!starts_with(low, "begin:vcard"@)) by {
            if starts_with(low, "begin:vcard"@) {
                assert(low[0] == "begin:vcard"@[0]);
                assert("begin:vcard"@[0] == 'b');
            }
        }
        assert(!starts_with(low, "wifi:"@)) by {
            if starts_with(low, "wifi:"@) {
                assert(low[0] == "wifi:"@[0]);
                assert("wifi:"@[0] == 'w');
            }
        }
        assert(!starts_with(low, "mailto:"@)) by {
            if starts_with(low, "mailto:"@) {
                assert(low[0] == "mailto:"@[0]);
                assert("mailto:"@[0] == 'm');
            }
        }
        assert(!starts_with(low, "tel:"@)) by {
            if starts_with(low, "tel:"@) {
                assert(low[0] == "tel:"@[0]);
                assert("tel:"@[0] == 't');
            }
        }
        assert(!starts_with(low, "smsto:"@)) by {
            if starts_with(low, "smsto:"@) {
                assert(low[0] == "smsto:"@[0]);
                assert("smsto:"@[0] == 's');
            }
        }
        assert(!starts_with(low, "sms:"@)) by {
            if starts_with(low, "sms:"@) {
                assert(low[0] == "sms:"@[0]);
                assert("sms:"@[0] == 's');
            }
        }
        assert(!starts_with(low, "geo:"@)) by {
            if starts_with(low, "geo:"@) {
                assert(low[0] == "geo:"@[0]);
                assert("geo:"@[0] == 'g');
            }
        }
        assert(content_type_spec(low, cs) is Payment);
    }
}

/// The classification decision tree over the lowercased text (`low`) and
/// the text as decoded (`orig`).
pub open spec fn content_type_spec(low: Seq<char>, orig: Seq<char>) -> ContentType {
    if starts_with(low, "http://"@) || starts_with(low, "https://"@) {
        if contains_seq(low, "qr.nspk.ru"@) || contains_seq(low, "pay"@) {
            ContentType::Payment
        } else {
            ContentType::Url
        }
    } else if starts_with(low, "begin:vcard"@) {
        ContentType::VCard
    } else if starts_with(low, "wifi:"@) {
        ContentType::WiFi
    } else if starts_with(low, "mailto:"@) {
        ContentType::Email
    } else if starts_with(low, "tel:"@) {
        ContentType::Phone
    } else if starts_with(low, "smsto:"@) || starts_with(low, "sms:"@) {
        ContentType::Sms
    } else if starts_with(low, "geo:"@) {
        ContentType::Geo
    } else if starts_with(orig, "00"@) && orig.len() > 50 {
        ContentType::Payment
    } else if starts_with(low, "st."@) {
        ContentType::Payment
    } else {
        ContentType::Text
    }
}

/// Whether the lowercased character vector begins with the pattern string.
pub(crate) fn starts_with_str(s: &Vec<char>, p: &str) -> (r: bool)
    ensures
        r == starts_with(s@, p@),
{
    let pv = chars_vec(p);
    starts_with_exec(s, pv.as_slice())
}

/// Whether the pattern string occurs anywhere in the character vector.
pub(crate) fn contains_str(s: &Vec<char>, p: &str) -> (r: bool)
    ensures
        r == contains_seq(s@, p@),
{
    let pv = chars_vec(p);
    contains_exec(s, pv.as_slice())
}

impl ContentType {
    /// Classify decoded text by its scheme prefix, the known payment
    /// hosts, and the EMV payload shape.
    pub fn detect(content: &str) -> (r: ContentType)
        ensures
            r == content_type_spec(lower_of(content@), content@),
            payment_shape(content@) ==> r is Payment,
    {
        let low_s = to_lowercase(content);
        let low = chars_vec(low_s.as_str());
        let orig = chars_vec(content);
        proof {
            if payment_shape(content@) {
                lemma_shape_classifies(content@, low_s@);
            }
        }
        if starts_with_str(&low, "http://") || starts_with_str(&low, "https://") {
            if contains_str(&low, "qr.nspk.ru") || contains_str(&low, "pay") {
                ContentType::Payment
            } else {
                ContentType::Url
            }
        } else if starts_with_str(&low, "begin:vcard") {
            ContentType::VCard
        } else if starts_with_str(&low, "wifi:") {
            ContentType::WiFi
        } else if starts_with_str(&low, "mailto:") {
            ContentType::Email
        } else if starts_with_str(&low, "tel:") {
            ContentType::Phone
        } else if starts_with_str(&low, "smsto:") || starts_with_str(&low, "sms:") {
            ContentType::Sms
        } else if starts_with_str(&low, "geo:") {
            ContentType::Geo
        } else if starts_with_str(&orig, "00") && orig.len() > 50 {
            ContentType::Payment
        } else if starts_with_str(&low, "st.") {
            ContentType::Payment
        } else {
            ContentType::Text
        }
    }
}

/// Classification is stable: it is a pure function of the decoded text, so
/// classifying the same text twice gives the same kind.
pub proof fn lemma_classify_stable(t1: ContentType, t2: ContentType, s: Seq<char>)
    requires
        t1 == content_type_spec(lower_of(s), s),
        t2 == content_type_spec(lower_of(s), s),
    ensures
        t1 == t2,
{
}

} // verus!
