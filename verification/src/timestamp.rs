//! The canonical timestamp `YYYYMMDD-HHMMSS` and its order.

use crate::text::bytes_less;
use crate::text::differ_at;
use crate::text::is_ascii_bytes;
use crate::text::lemma_ascii_encoding;
use crate::text::lemma_mismatch;
use crate::text::mismatch;
use crate::text::text_less;
use vstd::prelude::*;
use vstd::string::StringSliceAdditionalSpecFns;
use vstd::utf8::encode_utf8;
use vstd::utf8::is_ascii_chars;
use vstd::utf8::is_ascii_chars_encode_utf8;

verus! {

/// `c` is one of the digits `0` to `9`.
pub open spec fn is_digit(c: char) -> bool {
    '0' <= c <= '9'
}

/// `s` has the canonical form of a timestamp: `YYYYMMDD-HHMMSS`.
pub open spec fn is_timestamp(s: Seq<char>) -> bool {
    &&& s.len() == 15
    &&& s[8] == '-'
    &&& forall|i: int| 0 <= i < 15 && i != 8 ==> is_digit(#[trigger] s[i])
}

/// Whether `b` is the code of a digit.
pub fn digit_byte(b: u8) -> (r: bool)
    ensures
        r == (48 <= b <= 57),
{
    48 <= b && b <= 57
}

/// Whether `text` has the canonical form `YYYYMMDD-HHMMSS`.
pub fn is_canonical_timestamp(text: &str) -> (r: bool)
    ensures
        r == is_timestamp(text@),
{
    let b = text.as_bytes();
    proof {
        if is_timestamp(text@) {
            assert(is_ascii_chars(text@)) by {
                assert forall|i: int| 0 <= i < text@.len() implies '\0' <= #[trigger] text@[i]
                    <= '\u{7f}' by {
                    if i != 8 {
                        assert(is_digit(text@[i]));
                    }
                }
            }
            is_ascii_chars_encode_utf8(text@);
        }
    }
    if b.len() != 15 {
        return false;
    }
    let mut i: usize = 0;
    while i < 15
        invariant
            i <= 15,
            b@.len() == 15,
            b@ == encode_utf8(text@),
            is_timestamp(text@) ==> text@.len() == 15 && forall|j: int|
                0 <= j < 15 ==> text@[j] as u8 == #[trigger] b@[j],
            forall|j: int| 0 <= j < i ==> #[trigger] b@[j] < 128,
            forall|j: int| 0 <= j < i && j != 8 ==> 48 <= #[trigger] b@[j] <= 57,
            i > 8 ==> b@[8] == 45,
        decreases 15 - i,
    {
        let ok: bool = if i == 8 { b[i] == 45 } else { digit_byte(b[i]) };
        if !ok {
            proof {
                if is_timestamp(text@) {
                    assert(text@[i as int] as u8 == b@[i as int]);
                    if i != 8 {
                        assert(is_digit(text@[i as int]));
                    }
                }
            }
            return false;
        }
        i += 1;
    }
    proof {
        assert(is_ascii_bytes(b@));
        lemma_ascii_encoding(text@);
        assert forall|j: int| 0 <= j < 15 && j != 8 implies is_digit(
            #[trigger] text@[j],
        ) by {
            assert(48 <= b@[j] <= 57);
        }
    }
    true
}

/// A moment as the calendar names it.
pub struct Moment {
    pub year: int,
    pub month: int,
    pub day: int,
    pub hour: int,
    pub minute: int,
    pub second: int,
}

/// The number that the digit `c` stands for.
pub open spec fn digit_value(c: char) -> int {
    c as int - '0' as int
}

/// The moment that the canonical timestamp `s` names.
pub open spec fn moment_of(s: Seq<char>) -> Moment {
    Moment {
        year: digit_value(s[0]) * 1000 + digit_value(s[1]) * 100 + digit_value(s[2]) * 10
            + digit_value(s[3]),
        month: digit_value(s[4]) * 10 + digit_value(s[5]),
        day: digit_value(s[6]) * 10 + digit_value(s[7]),
        hour: digit_value(s[9]) * 10 + digit_value(s[10]),
        minute: digit_value(s[11]) * 10 + digit_value(s[12]),
        second: digit_value(s[13]) * 10 + digit_value(s[14]),
    }
}

/// The moment `a` is earlier than the moment `b`.
pub open spec fn precedes(a: Moment, b: Moment) -> bool {
    if a.year != b.year {
        a.year < b.year
    } else if a.month != b.month {
        a.month < b.month
    } else if a.day != b.day {
        a.day < b.day
    } else if a.hour != b.hour {
        a.hour < b.hour
    } else if a.minute != b.minute {
        a.minute < b.minute
    } else {
        a.second < b.second
    }
}

/// Where two canonical timestamps first differ, the smaller character
/// stands in the timestamp of the earlier moment.
proof fn lemma_first_difference_decides(a: Seq<char>, b: Seq<char>, k: int)
    requires
        is_timestamp(a),
        is_timestamp(b),
        0 <= k < 15,
        forall|j: int| 0 <= j < k ==> a[j] == b[j],
        a[k] != b[k],
    ensures
        precedes(moment_of(a), moment_of(b)) <==> a[k] < b[k],
{
    assert(forall|i: int| 0 <= i < 15 && i != 8 ==> 0 <= digit_value(#[trigger] a[i]) <= 9) by {
        assert forall|i: int| 0 <= i < 15 && i != 8 implies 0 <= digit_value(#[trigger] a[i])
            <= 9 by {
            assert(is_digit(a[i]));
        }
    }
    assert(forall|i: int| 0 <= i < 15 && i != 8 ==> 0 <= digit_value(#[trigger] b[i]) <= 9) by {
        assert forall|i: int| 0 <= i < 15 && i != 8 implies 0 <= digit_value(#[trigger] b[i])
            <= 9 by {
            assert(is_digit(b[i]));
        }
    }
    assert(a[k] < b[k] <==> digit_value(a[k]) < digit_value(b[k]));
    assert(k != 8);
    assert(forall|j: int| 0 <= j < k ==> digit_value(a[j]) == digit_value(b[j]));
}

/// The order of the texts of canonical timestamps is the order of the
/// moments that they name: `a` comes before `b` as a string exactly where
/// the moment of `a` is earlier than that of `b`.
pub proof fn lemma_timestamp_order_is_chronological(a: Seq<char>, b: Seq<char>)
    requires
        is_timestamp(a),
        is_timestamp(b),
    ensures
        text_less(a, b) <==> precedes(moment_of(a), moment_of(b)),
{
    let x = encode_utf8(a);
    let y = encode_utf8(b);
    lemma_timestamp_is_ascii(a);
    lemma_timestamp_is_ascii(b);
    if bytes_less(x, y) {
        let k = choose|k: int| #[trigger] differ_at(x, y, k) && (k == x.len() || x[k] < y[k]);
        assert(a[k] as u8 == x[k] && b[k] as u8 == y[k]);
        assert forall|j: int| 0 <= j < k implies a[j] == b[j] by {
            assert(x[j] == y[j]);
            assert(a[j] as u8 == x[j] && b[j] as u8 == y[j]);
        }
        lemma_first_difference_decides(a, b, k);
    }
    if precedes(moment_of(a), moment_of(b)) {
        lemma_mismatch(x, y, 0);
        let k = mismatch(x, y, 0);
        if k == 15 {
            assert(a =~= b) by {
                assert forall|j: int| 0 <= j < 15 implies a[j] == b[j] by {
                    assert(x[j] == y[j]);
                    assert(a[j] as u8 == x[j] && b[j] as u8 == y[j]);
                }
            }
        } else {
            assert(a[k] as u8 == x[k] && b[k] as u8 == y[k]);
            assert forall|j: int| 0 <= j < k implies a[j] == b[j] by {
                assert(x[j] == y[j]);
                assert(a[j] as u8 == x[j] && b[j] as u8 == y[j]);
            }
            lemma_first_difference_decides(a, b, k);
            assert(differ_at(x, y, k));
        }
    }
}

/// A canonical timestamp is ASCII: its encoding holds the codes of its
/// fifteen characters.
pub proof fn lemma_timestamp_is_ascii(s: Seq<char>)
    requires
        is_timestamp(s),
    ensures
        encode_utf8(s).len() == 15,
        forall|j: int| 0 <= j < 15 ==> s[j] as u8 == #[trigger] encode_utf8(s)[j],
        forall|j: int| 0 <= j < 15 ==> (#[trigger] s[j]) as u8 == encode_utf8(s)[j],
{
    assert(is_ascii_chars(s)) by {
        assert forall|i: int| 0 <= i < s.len() implies '\0' <= #[trigger] s[i] <= '\u{7f}' by {
            if i != 8 {
                assert(is_digit(s[i]));
            }
        }
    }
    is_ascii_chars_encode_utf8(s);
}

} // verus!
