//! How numbers, byte lists and errors read.

use vstd::prelude::*;

use crate::error::{outcome, viewed_outcome, FarbfeldError};
use crate::text::{byte_list, comma_separated, decimal, push_byte_list, push_decimal};

verus! {

/// The number that a row of decimal digits denotes.
pub open spec fn numeral_value(digits: Seq<char>) -> nat
    decreases digits.len(),
{
    if digits.len() == 0 {
        0
    } else {
        (10 * numeral_value(digits.drop_last()) + (digits.last() as nat - '0' as nat)) as nat
    }
}

/// A number in decimal notation is made of digits, without a leading zero unless it
/// is zero itself, and denotes the number.
pub proof fn law_decimal_denotes(n: nat)
    ensures
        decimal(n).len() > 0,
        forall|i: int| 0 <= i < decimal(n).len() ==> '0' <= #[trigger] decimal(n)[i] <= '9',
        decimal(n)[0] == '0' ==> n == 0,
        n == 0 ==> decimal(n).len() == 1,
        numeral_value(decimal(n)) == n,
    decreases n,
{
    let digits = decimal(n);
    if n < 10 {
        assert(digits.drop_last() =~= Seq::empty());
        assert(numeral_value(Seq::<char>::empty()) == 0);
    } else {
        law_decimal_denotes(n / 10);
        assert(digits.drop_last() =~= decimal(n / 10));
        assert(digits[0] == decimal(n / 10)[0]);
        assert forall|i: int| 0 <= i < digits.len() implies '0' <= #[trigger] digits[i] <= '9' by {
            if i < digits.len() - 1 {
                assert(digits[i] == decimal(n / 10)[i]);
            }
        }
    }
}

/// A byte list stands in square brackets, with a comma and a space before each byte
/// but the first, and each byte in decimal.
pub proof fn law_byte_list_reads(bytes: Seq<u8>, next: u8)
    ensures
        byte_list(Seq::empty()) == "["@ + "]"@,
        byte_list(bytes) == "["@ + comma_separated(bytes) + "]"@,
        comma_separated(seq![next]) == decimal(next as nat),
        bytes.len() > 0 ==> comma_separated(bytes.push(next)) == comma_separated(bytes) + ", "@
            + decimal(next as nat),
{
    assert("["@ + Seq::<char>::empty() + "]"@ =~= "["@ + "]"@);
    assert(bytes.push(next).drop_last() =~= bytes);
}

/// Numbers and byte lists are appended to what a text held.
pub proof fn law_text_is_appended(out: &mut String, n: u64, other: &mut String, bytes: &[u8])
    requires
        call_ensures(push_decimal, (out, n), ()),
        call_ensures(push_byte_list, (other, bytes), ()),
    ensures
        call_requires(push_decimal, (out, n)),
        call_requires(push_byte_list, (other, bytes)),
        final(out)@ == old(out)@ + decimal(n as nat),
        final(other)@ == old(other)@ + byte_list(bytes@),
{
}

/// An error carries the message that it was made with, tells it behind
/// `invalid data: `, and keeps it in a copy.
pub proof fn law_error_tells(
    message: String,
    e: FarbfeldError,
    line: String,
    copy: FarbfeldError,
)
    requires
        call_ensures(FarbfeldError::invalid, (message,), e),
        call_ensures(FarbfeldError::describe, (&e,), line),
        call_ensures(<FarbfeldError as Clone>::clone, (&e,), copy),
    ensures
        call_requires(FarbfeldError::invalid, (message,)),
        call_requires(FarbfeldError::describe, (&e,)),
        call_requires(<FarbfeldError as Clone>::clone, (&e,)),
        e == FarbfeldError::InvalidData(message),
        line@ == "invalid data: "@ + message@,
        copy matches FarbfeldError::InvalidData(again) && again@ == message@,
{
}

/// What contracts say of a result is said of its value, or of the message of its
/// error.
pub proof fn law_outcome_is_the_result<T, V: View>(
    plain: Result<T, FarbfeldError>,
    viewed: Result<V, FarbfeldError>,
)
    ensures
        match plain {
            Ok(v) => outcome(plain) == Ok::<T, Seq<char>>(v),
            Err(FarbfeldError::InvalidData(message)) => outcome(plain) == Err::<T, _>(message@),
        },
        match viewed {
            Ok(v) => viewed_outcome(viewed) == Ok::<V::V, Seq<char>>(v@),
            Err(FarbfeldError::InvalidData(message)) => viewed_outcome(viewed) == Err::<V::V, _>(
                message@,
            ),
        },
{
}

} // verus!
