//! Parsing of the requested durations: a comma-separated list of whole
//! numbers, as it arrives in a query string. A piece that is not a valid
//! `i32` — empty, a stray sign, a non-digit, or out of range — is dropped;
//! the remaining pieces keep their order.

use vstd::prelude::*;

verus! {

/// The byte separating two pieces: an ASCII comma.
pub const SEPARATOR: u8 = 44;

/// One byte is an ASCII decimal digit.
pub open spec fn is_digit(b: u8) -> bool {
    48 <= b <= 57
}

/// Every byte of the run is a digit.
pub open spec fn all_digits(s: Seq<u8>) -> bool {
    forall|i: int| 0 <= i < s.len() ==> is_digit(#[trigger] s[i])
}

/// The non-negative number a run of decimal digits denotes.
pub open spec fn digits_val(s: Seq<u8>) -> int
    decreases s.len(),
{
    if s.len() == 0 {
        0
    } else {
        digits_val(s.drop_last()) * 10 + (s.last() - 48)
    }
}

/// The duration one piece denotes: an optional sign, then at least one
/// digit, with the signed value within `i32`'s range. Any other piece
/// denotes nothing.
pub open spec fn piece_value(s: Seq<u8>) -> Option<i32> {
    let signed = s.len() >= 1 && (s[0] == 43 || s[0] == 45);
    let negative = s.len() >= 1 && s[0] == 45;
    let digits = if signed {
        s.subrange(1, s.len() as int)
    } else {
        s
    };
    if digits.len() >= 1 && all_digits(digits) {
        if negative && digits_val(digits) <= 2147483648 {
            Some((-digits_val(digits)) as i32)
        } else if !negative && digits_val(digits) <= 2147483647 {
            Some(digits_val(digits) as i32)
        } else {
            None
        }
    } else {
        None
    }
}

/// The position of the first separator at or after `i`, or the input's end.
pub open spec fn first_comma(s: Seq<u8>, i: int) -> int
    decreases s.len() - i,
    when 0 <= i <= s.len()
{
    if i >= s.len() {
        i
    } else if s[i] == SEPARATOR {
        i
    } else {
        first_comma(s, i + 1)
    }
}

/// The first separator lies between `i` and the end, is a separator when it
/// is not the end, and nothing before it is one.
pub proof fn lemma_first_comma(s: Seq<u8>, i: int)
    requires
        0 <= i <= s.len(),
    ensures
        i <= first_comma(s, i) <= s.len(),
        first_comma(s, i) < s.len() ==> s[first_comma(s, i)] == SEPARATOR,
        forall|j: int| i <= j < first_comma(s, i) ==> s[j] != SEPARATOR,
    decreases s.len() - i,
{
    if i >= s.len() || s[i] == SEPARATOR {
    } else {
        lemma_first_comma(s, i + 1);
    }
}

/// The durations the input denotes from position `i` on: the piece up to
/// the next separator, if it denotes one, followed by the rest.
pub open spec fn durations_from(s: Seq<u8>, i: int) -> Seq<i32>
    decreases s.len() - i,
    when 0 <= i <= s.len()
    via durations_from_decreases
{
    let c = first_comma(s, i);
    let head: Seq<i32> = match piece_value(s.subrange(i, c)) {
        Some(v) => seq![v],
        None => Seq::empty(),
    };
    if c >= s.len() {
        head
    } else {
        head + durations_from(s, c + 1)
    }
}

#[via_fn]
proof fn durations_from_decreases(s: Seq<u8>, i: int) {
    lemma_first_comma(s, i);
}

/// All durations a comma-separated input denotes, in order.
pub open spec fn durations_of(s: Seq<u8>) -> Seq<i32> {
    durations_from(s, 0)
}

/// A run of digits denotes a non-negative number.
proof fn lemma_digits_val_nonneg(s: Seq<u8>)
    requires
        all_digits(s),
    ensures
        digits_val(s) >= 0,
    decreases s.len(),
{
    if s.len() > 0 {
        assert(all_digits(s.drop_last())) by {
            assert(forall|i: int| 0 <= i < s.len() - 1 ==> is_digit(#[trigger] s[i]));
        }
        lemma_digits_val_nonneg(s.drop_last());
    }
}

/// What a piece denotes, seen from its digit run and its sign.
pub open spec fn piece_outcome(digits: Seq<u8>, negative: bool) -> Option<i32> {
    if digits.len() >= 1 && all_digits(digits) {
        if negative && digits_val(digits) <= 2147483648 {
            Some((-digits_val(digits)) as i32)
        } else if !negative && digits_val(digits) <= 2147483647 {
            Some(digits_val(digits) as i32)
        } else {
            None
        }
    } else {
        None
    }
}

/// Parse the piece `[start, end)` as a signed whole number.
fn parse_piece(s: &[u8], start: usize, end: usize) -> (r: Option<i32>)
    requires
        start <= end <= s@.len(),
    ensures
        r == piece_value(s@.subrange(start as int, end as int)),
{
    let ghost piece = s@.subrange(start as int, end as int);
    let mut j = start;
    let mut negative = false;
    if start < end && (s[start] == 43 || s[start] == 45) {
        negative = s[start] == 45;
        j = start + 1;
    }
    let ghost digits = s@.subrange(j as int, end as int);
    proof {
        if j > start {
            assert(digits =~= piece.subrange(1, piece.len() as int));
        } else {
            assert(digits =~= piece);
        }
        assert(piece_value(piece) == piece_outcome(digits, negative));
    }
    if j == end {
        return None;
    }
    let mut acc: i64 = 0;
    let mut overflow = false;
    let mut k = j;
    while k < end
        invariant
            start <= j <= k <= end <= s@.len(),
            piece == s@.subrange(start as int, end as int),
            digits == s@.subrange(j as int, end as int),
            digits.len() >= 1,
            piece_value(piece) == piece_outcome(digits, negative),
            all_digits(s@.subrange(j as int, k as int)),
            !overflow ==> acc == digits_val(s@.subrange(j as int, k as int)),
            0 <= acc <= 2147483648,
            overflow ==> digits_val(s@.subrange(j as int, k as int)) > 2147483648,
        decreases end - k,
    {
        let b = s[k];
        proof {
            assert(s@.subrange(j as int, k as int + 1).drop_last() =~= s@.subrange(
                j as int,
                k as int,
            ));
            assert(s@.subrange(j as int, k as int + 1).last() == s@[k as int]);
        }
        if b < 48 || b > 57 {
            proof {
                assert(digits[k - j] == s@[k as int]);
                assert(!all_digits(digits));
            }
            return None;
        }
        proof {
            assert(all_digits(s@.subrange(j as int, k as int + 1))) by {
                let cur = s@.subrange(j as int, k as int + 1);
                assert(forall|i: int|
                    0 <= i < cur.len() - 1 ==> cur[i] == s@.subrange(j as int, k as int)[i]);
            }
            lemma_digits_val_nonneg(s@.subrange(j as int, k as int));
        }
        if overflow {
            // The run already exceeds any representable value; later digits
            // only push it further.
        } else {
            let next = acc * 10 + ((b - 48) as i64);
            if next > 2147483648 {
                overflow = true;
                acc = 2147483648;
            } else {
                acc = next;
            }
        }
        k = k + 1;
    }
    proof {
        assert(s@.subrange(j as int, k as int) == digits);
    }
    if overflow {
        return None;
    }
    if negative {
        Some((0 - acc) as i32)
    } else if acc <= 2147483647 {
        Some(acc as i32)
    } else {
        None
    }
}

/// Parse a comma-separated list of durations, dropping what does not parse
/// as an `i32` and keeping the order of the rest.
pub fn get_durations(s: &[u8]) -> (r: Vec<i32>)
    ensures
        r@ == durations_of(s@),
{
    let n = s.len();
    let mut out: Vec<i32> = Vec::new();
    let mut start: usize = 0;
    while start <= n
        invariant
            n == s@.len(),
            start <= n,
            durations_of(s@) == out@ + durations_from(s@, start as int),
        decreases n - start,
    {
        let mut c = start;
        while c < n && s[c] != SEPARATOR
            invariant
                start <= c <= n,
                n == s@.len(),
                first_comma(s@, start as int) == first_comma(s@, c as int),
            decreases n - c,
        {
            c = c + 1;
        }
        proof {
            assert(first_comma(s@, start as int) == c);
        }
        match parse_piece(s, start, c) {
            Some(v) => {
                out.push(v);
            },
            None => {},
        }
        if c == n {
            proof {
                assert(out@ == durations_of(s@));
            }
            return out;
        }
        proof {
            assert(out@ + durations_from(s@, c as int + 1) == durations_of(s@));
        }
        start = c + 1;
    }
    proof {
        // The last piece always returns from inside the loop.
        assert(false);
    }
    out
}

} // verus!
