use vstd::prelude::*;
use vstd::string::StringSliceAdditionalSpecFns;
use vstd::utf8::{decode_utf8, valid_utf8};

use crate::key_error::{IdError, KeyError};

verus! {

/// The value of an ASCII hex digit, if `b` is one.
pub open spec fn hex_value(b: u8) -> Option<u8> {
    if 48 <= b <= 57 {
        Some((b - 48) as u8)
    } else if 97 <= b <= 102 {
        Some((b - 87) as u8)
    } else if 65 <= b <= 70 {
        Some((b - 55) as u8)
    } else {
        None
    }
}

/// The bytes that `b` stands for, where each `%` followed by two hex digits
/// is the byte with that value; `None` where a `%` is not so followed.
pub open spec fn unescape_bytes(b: Seq<u8>) -> Option<Seq<u8>>
    decreases b.len(),
{
    if b.len() == 0 {
        Some(Seq::empty())
    } else if b[0] == 37 {
        if b.len() >= 3 && hex_value(b[1]) is Some && hex_value(b[2]) is Some {
            match unescape_bytes(b.subrange(3, b.len() as int)) {
                Some(rest) => Some(
                    seq![(hex_value(b[1])->0 * 16 + hex_value(b[2])->0) as u8] + rest,
                ),
                None => None,
            }
        } else {
            None
        }
    } else {
        match unescape_bytes(b.subrange(1, b.len() as int)) {
            Some(rest) => Some(seq![b[0]] + rest),
            None => None,
        }
    }
}

/// Relies on `String::from_utf8`: the string that the bytes encode, exactly
/// when they are valid UTF-8.
#[verifier::external_body]
fn string_from_utf8(bytes: Vec<u8>) -> (r: Option<String>)
    ensures
        r is Some <==> valid_utf8(bytes@),
        r matches Some(s) ==> s@ == decode_utf8(bytes@),
{
    String::from_utf8(bytes).ok()
}

fn hex_digit(b: u8) -> (r: Option<u8>)
    ensures
        r == hex_value(b),
{
    if 48 <= b && b <= 57 {
        Some(b - 48)
    } else if 97 <= b && b <= 102 {
        Some(b - 87)
    } else if 65 <= b && b <= 70 {
        Some(b - 55)
    } else {
        None
    }
}

/// Decodes the `%XX` escapes of a key segment.
pub fn unescape(s: &str) -> (r: Result<String, KeyError>)
    ensures
        match unescape_bytes(s.spec_bytes()) {
            None => r matches Err(KeyError::InvalidEscape { s: got }) && got@ == s@,
            Some(u) => if valid_utf8(u) {
                r matches Ok(t) && t@ == decode_utf8(u)
            } else {
                r matches Err(KeyError::InvalidUtf8 { s: got }) && got@ == s@
            },
        },
{
    let b = s.as_bytes();
    let ghost bv = b@;
    let mut out: Vec<u8> = Vec::new();
    let mut i: usize = 0;
    proof {
        assert(bv.subrange(0, bv.len() as int) =~= bv);
        if let Some(all) = unescape_bytes(bv) {
            assert(out@ + all =~= all);
        }
    }
    while i < b.len()
        invariant
            0 <= i <= bv.len(),
            bv == b@,
            bv == s.spec_bytes(),
            unescape_bytes(bv) == match unescape_bytes(bv.subrange(i as int, bv.len() as int)) {
                Some(rest) => Some(out@ + rest),
                None => None,
            },
        decreases bv.len() - i,
    {
        let ghost tail = bv.subrange(i as int, bv.len() as int);
        if b[i] == 37 {
            if b.len() - i > 2 {
                let hi = hex_digit(b[i + 1]);
                let lo = hex_digit(b[i + 2]);
                if let (Some(h), Some(l)) = (hi, lo) {
                    proof {
                        assert(tail.subrange(3, tail.len() as int) =~= bv.subrange(
                            i + 3,
                            bv.len() as int,
                        ));
                        assert(tail[1] == bv[i + 1] && tail[2] == bv[i + 2]);
                    }
                    let ghost old_out = out@;
                    out.push(h * 16 + l);
                    proof {
                        assert(out@ =~= old_out + seq![(h * 16 + l) as u8]);
                        if let Some(rest) = unescape_bytes(bv.subrange(i + 3, bv.len() as int)) {
                            assert(old_out + (seq![(h * 16 + l) as u8] + rest) =~= out@ + rest);
                        }
                    }
                    i = i + 3;
                } else {
                    return Err(KeyError::InvalidEscape { s: s.to_owned() });
                }
            } else {
                return Err(KeyError::InvalidEscape { s: s.to_owned() });
            }
        } else {
            proof {
                assert(tail.subrange(1, tail.len() as int) =~= bv.subrange(
                    i + 1,
                    bv.len() as int,
                ));
            }
            let ghost old_out = out@;
            out.push(b[i]);
            proof {
                if let Some(rest) = unescape_bytes(bv.subrange(i + 1, bv.len() as int)) {
                    assert(old_out + (seq![bv[i as int]] + rest) =~= out@ + rest);
                }
            }
            i = i + 1;
        }
    }
    proof {
        assert(bv.subrange(i as int, bv.len() as int) =~= Seq::<u8>::empty());
        assert(out@ + Seq::<u8>::empty() =~= out@);
    }
    match string_from_utf8(out) {
        Some(t) => Ok(t),
        None => Err(KeyError::InvalidUtf8 { s: s.to_owned() }),
    }
}

/// Whether every character of `s` is a decimal digit.
pub open spec fn all_digits(s: Seq<char>) -> bool {
    forall|i: int| 0 <= i < s.len() ==> '0' <= #[trigger] s[i] <= '9'
}

/// The number that the decimal digits `s` write.
pub open spec fn digits_value(s: Seq<char>) -> nat
    decreases s.len(),
{
    if s.len() == 0 {
        0
    } else {
        digits_value(s.drop_last()) * 10 + (s.last() as nat - '0' as nat) as nat
    }
}

/// The digits of an id: the segment without one leading `+`.
pub open spec fn id_digits(s: Seq<char>) -> Seq<char> {
    if s.len() > 0 && s[0] == '+' {
        s.subrange(1, s.len() as int)
    } else {
        s
    }
}

/// What reading `s` as a decimal `u64` id yields.
pub open spec fn id_value(s: Seq<char>) -> Result<u64, IdError> {
    if s.len() == 0 {
        Err(IdError::Empty)
    } else if id_digits(s).len() == 0 || !all_digits(id_digits(s)) {
        Err(IdError::InvalidDigit)
    } else if digits_value(id_digits(s)) > u64::MAX {
        Err(IdError::TooLarge)
    } else {
        Ok(digits_value(id_digits(s)) as u64)
    }
}

proof fn lemma_digits_value_grows(s: Seq<char>, i: int)
    requires
        0 <= i <= s.len(),
        all_digits(s),
    ensures
        digits_value(s.subrange(0, i)) <= digits_value(s),
    decreases s.len() - i,
{
    if i < s.len() {
        lemma_digits_value_grows(s, i + 1);
        assert(s.subrange(0, i + 1).drop_last() =~= s.subrange(0, i));
    } else {
        assert(s.subrange(0, i) =~= s);
    }
}

/// Reads a key segment as a decimal `u64` id (an optional leading `+`, then
/// digits).
pub fn decode_id(s: &str) -> (r: Result<u64, KeyError>)
    ensures
        match id_value(s@) {
            Ok(v) => r == Ok::<u64, KeyError>(v),
            Err(e) => r matches Err(KeyError::InvalidId { s: got, reason }) && got@ == s@ && reason
                == e,
        },
{
    let n = s.unicode_len();
    if n == 0 {
        return Err(KeyError::InvalidId { s: s.to_owned(), reason: IdError::Empty });
    }
    let start: usize = if s.get_char(0) == '+' {
        1
    } else {
        0
    };
    let ghost d = id_digits(s@);
    proof {
        assert(d =~= s@.subrange(start as int, n as int));
    }
    if start == n {
        return Err(KeyError::InvalidId { s: s.to_owned(), reason: IdError::InvalidDigit });
    }
    let mut k: usize = start;
    while k < n
        invariant
            start <= k <= n,
            n == s@.len(),
            d == s@.subrange(start as int, n as int),
            d == id_digits(s@),
            start < n,
            forall|j: int| start <= j < k ==> '0' <= #[trigger] s@[j] <= '9',
        decreases n - k,
    {
        let c = s.get_char(k);
        if !('0' <= c && c <= '9') {
            proof {
                assert(d[k - start] == c);
                assert(!('0' <= d[k - start] <= '9'));
                assert(!all_digits(d));
            }
            return Err(KeyError::InvalidId { s: s.to_owned(), reason: IdError::InvalidDigit });
        }
        k = k + 1;
    }
    proof {
        assert forall|j: int| 0 <= j < d.len() implies '0' <= #[trigger] d[j] <= '9' by {
            assert(d[j] == s@[start + j]);
        }
    }
    let mut acc: u64 = 0;
    let mut k: usize = start;
    while k < n
        invariant
            start <= k <= n,
            n == s@.len(),
            d == s@.subrange(start as int, n as int),
            d == id_digits(s@),
            start < n,
            all_digits(d),
            acc == digits_value(d.subrange(0, k - start)),
        decreases n - k,
    {
        let c = s.get_char(k);
        proof {
            assert(d[k - start] == c);
            assert('0' <= d[k - start] <= '9');
        }
        let digit = (c as u32 - '0' as u32) as u64;
        proof {
            assert(d.subrange(0, k - start + 1).drop_last() =~= d.subrange(0, k - start));
            assert(digits_value(d.subrange(0, k - start + 1)) == acc * 10 + digit);
        }
        if acc > 1844674407370955161 || (acc == 1844674407370955161 && digit > 5) {
            proof {
                lemma_digits_value_grows(d, k - start + 1);
                assert(digits_value(d) > u64::MAX);
            }
            return Err(KeyError::InvalidId { s: s.to_owned(), reason: IdError::TooLarge });
        }
        acc = acc * 10 + digit;
        k = k + 1;
    }
    proof {
        assert(d.subrange(0, n - start) =~= d);
    }
    Ok(acc)
}

} // verus!
