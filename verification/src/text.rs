//! Small text rules: the possessive channel name and the decimal numbers
//! read from panel inputs.

use vstd::prelude::*;
use vstd::string::StrSliceExecFns;
use vstd::string::StringExecFns;

verus! {

/// The name of a freshly provisioned room, derived from its owner's
/// display name with the correct possessive suffix: a name already ending
/// in `s` takes only a trailing apostrophe.
pub open spec fn spec_channel_name(name: Seq<char>) -> Seq<char> {
    if name.len() > 0 && name.last() == 's' {
        name + "' voice"@
    } else {
        name + "'s voice"@
    }
}

/// Builds the possessive room name; see [`spec_channel_name`].
pub fn voice_channel_name(name: &str) -> (r: String)
    ensures
        r@ == spec_channel_name(name@),
{
    let n = name.unicode_len();
    let ends_in_s = n > 0 && name.get_char(n - 1) == 's';
    let mut r = name.to_owned();
    if ends_in_s {
        r.append("' voice");
    } else {
        r.append("'s voice");
    }
    r
}

/// Whether every character is an ASCII decimal digit.
pub open spec fn all_digits(s: Seq<char>) -> bool {
    forall|i: int| 0 <= i < s.len() ==> '0' <= #[trigger] s[i] <= '9'
}

/// The number a digit string denotes.
pub open spec fn digits_value(s: Seq<char>) -> int
    decreases s.len(),
{
    if s.len() == 0 {
        0
    } else {
        digits_value(s.drop_last()) * 10 + (s.last() as int - '0' as int)
    }
}

proof fn lemma_digits_value_nonneg(s: Seq<char>)
    requires
        all_digits(s),
    ensures
        digits_value(s) >= 0,
    decreases s.len(),
{
    if s.len() > 0 {
        assert(all_digits(s.drop_last())) by {
            assert(forall|i: int|
                0 <= i < s.len() - 1 ==> #[trigger] s.drop_last()[i] == s[i]);
        }
        lemma_digits_value_nonneg(s.drop_last());
    }
}

proof fn lemma_digits_value_prefix(s: Seq<char>, i: int)
    requires
        all_digits(s),
        0 <= i <= s.len(),
    ensures
        digits_value(s.take(i)) <= digits_value(s),
    decreases s.len() - i,
{
    if i < s.len() {
        lemma_digits_value_prefix(s, i + 1);
        assert(s.take(i + 1).drop_last() =~= s.take(i));
        assert(all_digits(s.take(i + 1))) by {
            assert(forall|j: int|
                0 <= j < i + 1 ==> #[trigger] s.take(i + 1)[j] == s[j]);
        }
        lemma_digits_value_nonneg(s.take(i + 1).drop_last());
        assert(digits_value(s.take(i + 1)) == digits_value(s.take(i)) * 10 + (s[i] as int
            - '0' as int));
        assert(s[i] as int - '0' as int >= 0);
        assert(digits_value(s.take(i)) <= digits_value(s.take(i)) * 10 + (s[i] as int
            - '0' as int)) by {
            lemma_digits_value_nonneg(s.take(i));
        }
    } else {
        assert(s.take(i) =~= s);
    }
}

/// Reads an unsigned decimal number. The result exists exactly when the
/// string is nonempty, holds only ASCII digits, and denotes a value that
/// fits in a `u64`.
pub fn parse_u64(s: &str) -> (r: Option<u64>)
    ensures
        r is Some <==> (s@.len() > 0 && all_digits(s@) && digits_value(s@) <= u64::MAX),
        r is Some ==> r->0 == digits_value(s@),
{
    let n = s.unicode_len();
    if n == 0 {
        return None;
    }
    let mut acc: u64 = 0;
    let mut i: usize = 0;
    while i < n
        invariant
            n == s@.len(),
            i <= n,
            all_digits(s@.take(i as int)),
            acc == digits_value(s@.take(i as int)),
        decreases n - i,
    {
        let c = s.get_char(i);
        if c < '0' || c > '9' {
            proof {
                assert(!('0' <= s@[i as int] <= '9'));
            }
            return None;
        }
        let d: u64 = (c as u32 as u64) - ('0' as u32 as u64);
        proof {
            assert(s@.take(i as int + 1).drop_last() =~= s@.take(i as int));
            assert(all_digits(s@.take(i as int + 1))) by {
                assert(forall|j: int|
                    0 <= j < i + 1 ==> #[trigger] s@.take(i as int + 1)[j] == s@[j]);
            }
            assert(d == s@[i as int] as int - '0' as int);
        }
        if acc > (u64::MAX - d) / 10 {
            proof {
                assert(digits_value(s@.take(i as int + 1)) == acc * 10 + d);
                if all_digits(s@) {
                    lemma_digits_value_prefix(s@, i as int + 1);
                    assert(digits_value(s@) > u64::MAX);
                }
            }
            return None;
        }
        acc = acc * 10 + d;
        i += 1;
    }
    proof {
        assert(s@.take(n as int) =~= s@);
    }
    Some(acc)
}

/// The outcome of a bitrate form input: the platform accepts 8 to 96
/// kilobits per second, sent to it in bits per second.
#[derive(Clone, Copy, PartialEq, Eq, Structural, Debug)]
pub enum BitrateOutcome {
    /// The input is not a decimal number.
    Invalid,
    /// The number lies outside 8 to 96.
    OutOfRange,
    /// Send this value, in bits per second.
    Apply(u32),
}

/// Decides a bitrate form input; rejected input causes no remote call.
pub fn bitrate_decision(input: &str) -> (r: BitrateOutcome)
    ensures
        ({
            let ok = input@.len() > 0 && all_digits(input@) && digits_value(input@)
                <= u64::MAX;
            &&& (r is Invalid <==> !ok)
            &&& ok ==> (r is OutOfRange <==> !(8 <= digits_value(input@) <= 96))
            &&& ok && 8 <= digits_value(input@) <= 96 ==> r == BitrateOutcome::Apply(
                (digits_value(input@) * 1000) as u32,
            )
        }),
{
    match parse_u64(input) {
        None => BitrateOutcome::Invalid,
        Some(v) => {
            if v < 8 || v > 96 {
                BitrateOutcome::OutOfRange
            } else {
                BitrateOutcome::Apply((v as u32) * 1000)
            }
        },
    }
}

/// The outcome of a user-limit form input: any value that fits the
/// platform's field may be sent; the platform itself enforces its cap.
#[derive(Clone, Copy, PartialEq, Eq, Structural, Debug)]
pub enum UserLimitOutcome {
    /// The input is not a decimal number that fits the field.
    Invalid,
    /// Send this limit.
    Apply(u16),
}

/// Decides a user-limit form input; rejected input causes no remote call.
pub fn user_limit_decision(input: &str) -> (r: UserLimitOutcome)
    ensures
        ({
            let ok = input@.len() > 0 && all_digits(input@) && digits_value(input@)
                <= u16::MAX;
            &&& (r is Invalid <==> !ok)
            &&& ok ==> r == UserLimitOutcome::Apply(digits_value(input@) as u16)
        }),
{
    match parse_u64(input) {
        None => UserLimitOutcome::Invalid,
        Some(v) => {
            if v > 0xffff {
                UserLimitOutcome::Invalid
            } else {
                UserLimitOutcome::Apply(v as u16)
            }
        },
    }
}

} // verus!
