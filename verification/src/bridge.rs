use vstd::prelude::*;

verus! {

use vstd::utf8::{encode_utf8, valid_utf8};

/// The day number chrono assigns to a calendar date, when it accepts
/// the date at all. The result depends on year, month and day alone.
pub uninterp spec fn day_number_of(year: int, month: int, day: int) -> Option<u64>;

/// Whether a date is a real Gregorian calendar date with a year the
/// bridge below promises to accept.
pub open spec fn is_valid_ymd(year: int, month: int, day: int) -> bool {
    let leap = (year % 4 == 0 && year % 100 != 0) || year % 400 == 0;
    let month_days = if month == 2 {
        if leap {
            29int
        } else {
            28int
        }
    } else if month == 4 || month == 6 || month == 9 || month == 11 {
        30int
    } else {
        31int
    };
    1 <= year <= 9999 && 1 <= month <= 12 && 1 <= day <= month_days
}

/// Relies on chrono's `NaiveDate::from_ymd_opt`, which returns `None`
/// exactly on invalid or out-of-range dates, and on
/// `Datelike::num_days_from_ce`, whose result depends on the date
/// alone and is positive from year 1 on.
#[verifier::external_body]
pub fn day_number(year: i32, month: u32, day: u32) -> (r: Option<u64>)
    ensures
        r == day_number_of(year as int, month as int, day as int),
        is_valid_ymd(year as int, month as int, day as int) ==> r.is_some(),
{
    chrono::NaiveDate::from_ymd_opt(year, month, day).map(
        |nd| chrono::Datelike::num_days_from_ce(&nd) as u64,
    )
}

/// Whether the bytes spell a `YYYY-MM-DD` date token.
pub open spec fn is_date_format(s: Seq<u8>) -> bool {
    s.len() == 10 && crate::semantics::all_digits(s.take(4)) && s[4] == 45
        && crate::semantics::all_digits(s.subrange(5, 7)) && s[7] == 45
        && crate::semantics::all_digits(s.subrange(8, 10))
}

/// The day number a `YYYY-MM-DD` token denotes, if it is one and the
/// calendar accepts it.
pub open spec fn date_of(s: Seq<u8>) -> Option<u64> {
    if is_date_format(s) {
        day_number_of(
            crate::semantics::digits_val(s.take(4)) as int,
            crate::semantics::digits_val(s.subrange(5, 7)) as int,
            crate::semantics::digits_val(s.subrange(8, 10)) as int,
        )
    } else {
        None
    }
}

/// Parses a `YYYY-MM-DD` token into its day number.
pub fn parse_date_str(token: &str) -> (r: Option<u64>)
    ensures
        r == date_of(encode_utf8(token@)),
{
    let bs = token.as_bytes();
    let ghost s = encode_utf8(token@);
    if bs.len() != 10 {
        return None;
    }
    let mut i: usize = 0;
    while i < 10
        invariant
            bs@ == s,
            s == encode_utf8(token@),
            s.len() == 10,
            i <= 10,
            forall|j: int| 0 <= j < i && j != 4 && j != 7 ==> 48 <= #[trigger] s[j] <= 57,
            forall|j: int| 0 <= j < i && (j == 4 || j == 7) ==> s[j] == 45,
        decreases 10 - i,
    {
        let b = bs[i];
        if i == 4 || i == 7 {
            if b != 45 {
                proof {
                    assert(s[i as int] != 45);
                    assert(!is_date_format(s));
                    assert(date_of(s) is None);
                }
                return None;
            }
        } else {
            if b < 48 || b > 57 {
                proof {
                    if i < 4 {
                        assert(s.take(4)[i as int] == s[i as int]);
                        assert(!crate::semantics::all_digits(s.take(4)));
                    } else if i < 7 {
                        assert(s.subrange(5, 7)[i - 5] == s[i as int]);
                        assert(!crate::semantics::all_digits(s.subrange(5, 7)));
                    } else {
                        assert(s.subrange(8, 10)[i - 8] == s[i as int]);
                        assert(!crate::semantics::all_digits(s.subrange(8, 10)));
                    }
                    assert(!is_date_format(s));
                    assert(date_of(s) is None);
                }
                return None;
            }
        }
        i = i + 1;
    }
    proof {
        assert forall|j: int| 0 <= j < 4 implies 48 <= #[trigger] s.take(4)[j] <= 57 by {
            assert(s.take(4)[j] == s[j]);
        }
        assert forall|j: int| 0 <= j < 2 implies 48 <= #[trigger] s.subrange(5, 7)[j] <= 57 by {
            assert(s.subrange(5, 7)[j] == s[j + 5]);
        }
        assert forall|j: int| 0 <= j < 2 implies 48 <= #[trigger] s.subrange(8, 10)[j] <= 57 by {
            assert(s.subrange(8, 10)[j] == s[j + 8]);
        }
        assert(is_date_format(s));
    }
    let year: u32 = (bs[0] - 48) as u32 * 1000 + (bs[1] - 48) as u32 * 100 + (bs[2] - 48) as u32
        * 10 + (bs[3] - 48) as u32;
    let month: u32 = (bs[5] - 48) as u32 * 10 + (bs[6] - 48) as u32;
    let day: u32 = (bs[8] - 48) as u32 * 10 + (bs[9] - 48) as u32;
    proof {
        let y4 = s.take(4);
        assert(y4.len() == 4);
        assert(y4.drop_last() =~= s.take(3));
        assert(s.take(3).drop_last() =~= s.take(2));
        assert(s.take(2).drop_last() =~= s.take(1));
        assert(s.take(1).drop_last() =~= s.take(0));
        assert(s.take(0).len() == 0);
        assert(y4.last() == s[3] && s.take(3).last() == s[2] && s.take(2).last() == s[1]
            && s.take(1).last() == s[0]);
        assert(crate::semantics::digits_val(s.take(0)) == 0);
        assert(crate::semantics::digits_val(s.take(1)) == (s[0] - 48) as nat);
        assert(crate::semantics::digits_val(s.take(2)) == crate::semantics::digits_val(s.take(1))
            * 10 + (s[1] - 48) as nat);
        assert(crate::semantics::digits_val(s.take(3)) == crate::semantics::digits_val(s.take(2))
            * 10 + (s[2] - 48) as nat);
        assert(crate::semantics::digits_val(y4) == crate::semantics::digits_val(s.take(3)) * 10 + (
        s[3] - 48) as nat);
        let m2 = s.subrange(5, 7);
        assert(m2.drop_last() =~= s.subrange(5, 6));
        assert(s.subrange(5, 6).drop_last() =~= s.subrange(5, 5));
        assert(s.subrange(5, 5).len() == 0);
        assert(m2.last() == s[6] && s.subrange(5, 6).last() == s[5]);
        assert(crate::semantics::digits_val(s.subrange(5, 5)) == 0);
        assert(crate::semantics::digits_val(s.subrange(5, 6)) == (s[5] - 48) as nat);
        assert(crate::semantics::digits_val(m2) == crate::semantics::digits_val(s.subrange(5, 6))
            * 10 + (s[6] - 48) as nat);
        let d2 = s.subrange(8, 10);
        assert(d2.drop_last() =~= s.subrange(8, 9));
        assert(s.subrange(8, 9).drop_last() =~= s.subrange(8, 8));
        assert(s.subrange(8, 8).len() == 0);
        assert(d2.last() == s[9] && s.subrange(8, 9).last() == s[8]);
        assert(crate::semantics::digits_val(s.subrange(8, 8)) == 0);
        assert(crate::semantics::digits_val(s.subrange(8, 9)) == (s[8] - 48) as nat);
        assert(crate::semantics::digits_val(d2) == crate::semantics::digits_val(s.subrange(8, 9))
            * 10 + (s[9] - 48) as nat);
        assert(year as int == crate::semantics::digits_val(y4) as int);
        assert(month as int == crate::semantics::digits_val(m2) as int);
        assert(day as int == crate::semantics::digits_val(d2) as int);
    }
    day_number(year as i32, month, day)
}

/// What base64 decodes a string to, when it decodes at all. The
/// result depends on the input alone.
pub uninterp spec fn base64_decode_of(s: Seq<char>) -> Option<Seq<u8>>;

/// Relies on `base64::decode` (standard alphabet, padding): the
/// decoding is a function of the input string alone.
#[verifier::external_body]
fn base64_decode(s: &str) -> (r: Option<Vec<u8>>)
    ensures
        match r {
            Some(v) => base64_decode_of(s@) == Some(v@),
            None => base64_decode_of(s@).is_none(),
        },
{
    base64::decode(s).ok()
}

/// Relies on std's `String::from_utf8`: it succeeds exactly on valid
/// UTF-8 and returns the string those bytes encode.
#[verifier::external_body]
fn bytes_to_string(v: Vec<u8>) -> (r: Option<String>)
    ensures
        match r {
            Some(s) => valid_utf8(v@) && encode_utf8(s@) == v@,
            None => !valid_utf8(v@),
        },
{
    String::from_utf8(v).ok()
}

/// The content type mime_guess assigns to a path, with
/// `application/octet-stream` as the fallback. The guess depends on
/// the path alone.
pub uninterp spec fn mime_of(path: Seq<char>) -> Seq<char>;

/// Relies on `mime_guess::from_path` and
/// `MimeGuess::first_or_octet_stream`: the guess is a function of the
/// path alone.
#[verifier::external_body]
pub fn guess_mime(path: &str) -> (r: String)
    ensures
        r@ == mime_of(path@),
{
    mime_guess::from_path(path).first_or_octet_stream().essence_str().to_owned()
}

/// Decodes the base64-encoded file name a preview request carries:
/// `Some` exactly when the name decodes to valid UTF-8, and then the
/// string whose encoding base64 yielded.
pub fn decode_preview_path(encoded: &str) -> (r: Option<String>)
    ensures
        match r {
            Some(p) => base64_decode_of(encoded@).is_some() && valid_utf8(
                base64_decode_of(encoded@).unwrap(),
            ) && encode_utf8(p@) == base64_decode_of(encoded@).unwrap(),
            None => base64_decode_of(encoded@).is_none() || !valid_utf8(
                base64_decode_of(encoded@).unwrap(),
            ),
        },
{
    match base64_decode(encoded) {
        Some(bytes) => bytes_to_string(bytes),
        None => None,
    }
}

/// What a file preview responds with: the decoded path and the
/// content type to serve it under. `None` exactly when the encoded
/// name does not decode to a UTF-8 path.
pub fn preview_target(encoded: &str) -> (r: Option<(String, String)>)
    ensures
        match r {
            Some(pair) => base64_decode_of(encoded@).is_some() && valid_utf8(
                base64_decode_of(encoded@).unwrap(),
            ) && encode_utf8(pair.0@) == base64_decode_of(encoded@).unwrap() && pair.1@ == mime_of(
                pair.0@,
            ),
            None => base64_decode_of(encoded@).is_none() || !valid_utf8(
                base64_decode_of(encoded@).unwrap(),
            ),
        },
{
    match decode_preview_path(encoded) {
        Some(path) => {
            let mime = guess_mime(path.as_str());
            Some((path, mime))
        },
        None => None,
    }
}

} // verus!
