use vstd::prelude::*;
use vstd::string::StrSliceExecFns;

verus! {

/// Why a decimal integer literal failed to parse, mirroring the kinds of
/// failure std's integer parsing distinguishes.
#[derive(Debug, Clone, PartialEq, Eq, Hash, Structural)]
pub enum IntParseError {
    /// The input was empty.
    Empty,
    /// A character was not a decimal digit (a bare sign counts here too).
    InvalidDigit,
    /// The value exceeds the target type's maximum.
    PosOverflow,
    /// The value falls below the target type's minimum.
    NegOverflow,
}

pub open spec fn is_digit(c: char) -> bool {
    '0' <= c && c <= '9'
}

pub open spec fn digit_val(c: char) -> nat {
    ((c as u32) - ('0' as u32)) as nat
}

pub open spec fn all_digits(s: Seq<char>) -> bool {
    forall|i: int| 0 <= i < s.len() ==> is_digit(s[i])
}

/// The numeric value of a sequence of decimal digits.
pub open spec fn dec_val(s: Seq<char>) -> nat
    decreases s.len(),
{
    if s.len() == 0 {
        0
    } else {
        10 * dec_val(s.drop_last()) + digit_val(s.last())
    }
}

/// Parsing a bare run of digits (no sign) as a value of at most `max`.
pub open spec fn spec_parse_digits(s: Seq<char>, max: nat) -> Result<nat, IntParseError> {
    if s.len() == 0 {
        Err(IntParseError::Empty)
    } else if !all_digits(s) {
        Err(IntParseError::InvalidDigit)
    } else if dec_val(s) > max {
        Err(IntParseError::PosOverflow)
    } else {
        Ok(dec_val(s))
    }
}

/// Parsing an unsigned decimal literal: an optional leading `+`, then at
/// least one digit, with a value of at most `max`.
pub open spec fn spec_parse_uint(s: Seq<char>, max: nat) -> Result<nat, IntParseError> {
    if s.len() == 0 {
        Err(IntParseError::Empty)
    } else {
        let ds = if s[0] == '+' {
            s.drop_first()
        } else {
            s
        };
        match spec_parse_digits(ds, max) {
            Err(IntParseError::Empty) => Err(IntParseError::InvalidDigit),
            r => r,
        }
    }
}

/// Parsing a signed decimal literal: an optional leading `+` or `-`, then
/// at least one digit, with a value within `min ..= max`.
pub open spec fn spec_parse_int(s: Seq<char>, min: int, max: int) -> Result<
    int,
    IntParseError,
> {
    if s.len() == 0 {
        Err(IntParseError::Empty)
    } else {
        let neg = s[0] == '-';
        let ds = if s[0] == '-' || s[0] == '+' {
            s.drop_first()
        } else {
            s
        };
        if ds.len() == 0 {
            Err(IntParseError::InvalidDigit)
        } else if !all_digits(ds) {
            Err(IntParseError::InvalidDigit)
        } else if neg && dec_val(ds) > 0 - min {
            Err(IntParseError::NegOverflow)
        } else if !neg && dec_val(ds) > max {
            Err(IntParseError::PosOverflow)
        } else if neg {
            Ok(0 - (dec_val(ds) as int))
        } else {
            Ok(dec_val(ds) as int)
        }
    }
}

/// Extending a digit run on the right multiplies its value by ten and adds
/// the new digit, so the value of a prefix never exceeds the whole.
pub proof fn lemma_dec_val_take_le(s: Seq<char>, k: int)
    requires
        0 <= k <= s.len(),
    ensures
        dec_val(s.take(k)) <= dec_val(s),
    decreases s.len(),
{
    if k == s.len() {
        assert(s.take(k) =~= s);
    } else {
        assert(s.drop_last().take(k) =~= s.take(k));
        lemma_dec_val_take_le(s.drop_last(), k);
    }
}

/// Parses the digits of `s` from position `from` on as a value of at most
/// `max`.
pub fn parse_digits_str(s: &str, from: usize, max: u64) -> (r: Result<u64, IntParseError>)
    requires
        from <= s@.len(),
    ensures
        match r {
            Ok(n) => spec_parse_digits(s@.skip(from as int), max as nat) == Ok::<
                nat,
                IntParseError,
            >(n as nat),
            Err(e) => spec_parse_digits(s@.skip(from as int), max as nat) == Err::<
                nat,
                IntParseError,
            >(e),
        },
{
    let ghost sub = s@.skip(from as int);
    let n = s.unicode_len();
    if from == n {
        return Err(IntParseError::Empty);
    }
    let mut i: usize = from;
    while i < n
        invariant
            from <= i <= n,
            n == s@.len(),
            sub == s@.skip(from as int),
            forall|j: int| 0 <= j < i - from ==> is_digit(sub[j]),
        decreases n - i,
    {
        let c = s.get_char(i);
        if c < '0' || c > '9' {
            proof {
                assert(sub[i - from] == s@[i as int]);
                assert(!is_digit(sub[i - from]));
            }
            return Err(IntParseError::InvalidDigit);
        }
        i = i + 1;
    }
    proof {
        assert(all_digits(sub));
    }
    let mut acc: u64 = 0;
    i = from;
    while i < n
        invariant
            from <= i <= n,
            n == s@.len(),
            sub == s@.skip(from as int),
            all_digits(sub),
            acc as nat == dec_val(sub.take(i - from)),
        decreases n - i,
    {
        let c = s.get_char(i);
        proof {
            assert(sub[i - from] == s@[i as int]);
            assert(is_digit(sub[i - from]));
            assert(sub.take(i - from + 1).drop_last() =~= sub.take(i - from));
            assert(sub.take(i - from + 1).last() == sub[i - from]);
        }
        let d: u64 = ((c as u32) - 48) as u64;
        let overflowed: bool = match acc.checked_mul(10) {
            Some(a) => {
                match a.checked_add(d) {
                    Some(b) => {
                        acc = b;
                        false
                    },
                    None => true,
                }
            },
            None => true,
        };
        if overflowed {
            proof {
                assert(dec_val(sub.take(i - from + 1)) > u64::MAX);
                lemma_dec_val_take_le(sub, i - from + 1);
                assert(dec_val(sub) > max);
            }
            return Err(IntParseError::PosOverflow);
        }
        i = i + 1;
    }
    proof {
        assert(sub.take(n - from) =~= sub);
    }
    if acc > max {
        Err(IntParseError::PosOverflow)
    } else {
        Ok(acc)
    }
}

/// Parses an unsigned decimal literal whose value fits in `max`.
pub fn parse_uint_str(s: &str, max: u64) -> (r: Result<u64, IntParseError>)
    ensures
        match r {
            Ok(n) => spec_parse_uint(s@, max as nat) == Ok::<nat, IntParseError>(n as nat),
            Err(e) => spec_parse_uint(s@, max as nat) == Err::<nat, IntParseError>(e),
        },
{
    if s.is_empty() {
        return Err(IntParseError::Empty);
    }
    let from: usize = if s.get_char(0) == '+' {
        1
    } else {
        0
    };
    proof {
        if from == 1 {
            assert(s@.skip(1) =~= s@.drop_first());
        } else {
            assert(s@.skip(0) =~= s@);
        }
    }
    match parse_digits_str(s, from, max) {
        Ok(n) => Ok(n),
        Err(IntParseError::Empty) => Err(IntParseError::InvalidDigit),
        Err(e) => Err(e),
    }
}

/// Parses a `u32` decimal literal, as `str::parse::<u32>` does.
pub fn parse_u32_str(s: &str) -> (r: Result<u32, IntParseError>)
    ensures
        match r {
            Ok(n) => spec_parse_uint(s@, u32::MAX as nat) == Ok::<nat, IntParseError>(n as nat),
            Err(e) => spec_parse_uint(s@, u32::MAX as nat) == Err::<nat, IntParseError>(e),
        },
{
    match parse_uint_str(s, u32::MAX as u64) {
        Ok(n) => Ok(n as u32),
        Err(e) => Err(e),
    }
}

/// Parses a `u8` decimal literal, as `str::parse::<u8>` does.
pub fn parse_u8_str(s: &str) -> (r: Result<u8, IntParseError>)
    ensures
        match r {
            Ok(n) => spec_parse_uint(s@, u8::MAX as nat) == Ok::<nat, IntParseError>(n as nat),
            Err(e) => spec_parse_uint(s@, u8::MAX as nat) == Err::<nat, IntParseError>(e),
        },
{
    match parse_uint_str(s, u8::MAX as u64) {
        Ok(n) => Ok(n as u8),
        Err(e) => Err(e),
    }
}

/// Parses a `usize` decimal literal, as `str::parse::<usize>` does.
pub fn parse_usize_str(s: &str) -> (r: Result<usize, IntParseError>)
    ensures
        match r {
            Ok(n) => spec_parse_uint(s@, usize::MAX as nat) == Ok::<nat, IntParseError>(n as nat),
            Err(e) => spec_parse_uint(s@, usize::MAX as nat) == Err::<nat, IntParseError>(e),
        },
{
    match parse_uint_str(s, usize::MAX as u64) {
        Ok(n) => Ok(n as usize),
        Err(e) => Err(e),
    }
}

/// Parses an `isize` decimal literal, as `str::parse::<isize>` does.
pub fn parse_isize_str(s: &str) -> (r: Result<isize, IntParseError>)
    ensures
        match r {
            Ok(n) => spec_parse_int(s@, isize::MIN as int, isize::MAX as int) == Ok::<
                int,
                IntParseError,
            >(n as int),
            Err(e) => spec_parse_int(s@, isize::MIN as int, isize::MAX as int) == Err::<
                int,
                IntParseError,
            >(e),
        },
{
    if s.is_empty() {
        return Err(IntParseError::Empty);
    }
    let c0 = s.get_char(0);
    let neg = c0 == '-';
    let from: usize = if c0 == '-' || c0 == '+' {
        1
    } else {
        0
    };
    proof {
        if from == 1 {
            assert(s@.skip(1) =~= s@.drop_first());
        } else {
            assert(s@.skip(0) =~= s@);
        }
    }
    let bound: u64 = if neg {
        (isize::MAX as u64) + 1
    } else {
        isize::MAX as u64
    };
    match parse_digits_str(s, from, bound) {
        Err(IntParseError::Empty) => {
            if from == 1 {
                Err(IntParseError::InvalidDigit)
            } else {
                Err(IntParseError::Empty)
            }
        },
        Err(IntParseError::PosOverflow) => {
            if neg {
                Err(IntParseError::NegOverflow)
            } else {
                Err(IntParseError::PosOverflow)
            }
        },
        Err(e) => Err(e),
        Ok(m) => {
            if neg {
                if m == (isize::MAX as u64) + 1 {
                    Ok(isize::MIN)
                } else {
                    Ok((0 as isize) - (m as isize))
                }
            } else {
                Ok(m as isize)
            }
        },
    }
}

} // verus!
