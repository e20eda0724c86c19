//! Requester identities and queue entries.

use vstd::prelude::*;
use vstd::string::StrSliceExecFns;

use crate::errors::QueueError;

verus! {

/// The numeric value of a decimal digit character, or 10 for any other
/// character.
pub open spec fn digit_val(c: char) -> int {
    if c == '0' {
        0
    } else if c == '1' {
        1
    } else if c == '2' {
        2
    } else if c == '3' {
        3
    } else if c == '4' {
        4
    } else if c == '5' {
        5
    } else if c == '6' {
        6
    } else if c == '7' {
        7
    } else if c == '8' {
        8
    } else if c == '9' {
        9
    } else {
        10
    }
}

/// Whether `c` is a decimal digit.
pub open spec fn is_dec_digit(c: char) -> bool {
    digit_val(c) < 10
}

/// The number written by a sequence of decimal digits, most significant
/// first; an empty sequence reads as 0.
pub open spec fn dec_value(s: Seq<char>) -> int
    decreases s.len(),
{
    if s.len() == 0 {
        0
    } else {
        dec_value(s.drop_last()) * 10 + digit_val(s.last())
    }
}

/// Whether `s` spells a requester identity: a nonempty run of decimal
/// digits whose value fits in 64 bits.
pub open spec fn is_requester_id_text(s: Seq<char>) -> bool {
    &&& s.len() > 0
    &&& (forall|i: int| 0 <= i < s.len() ==> is_dec_digit(#[trigger] s[i]))
    &&& dec_value(s) <= u64::MAX
}

/// A validated requester identity: a numeric identifier parsed once at the
/// boundary from its decimal text form.
#[derive(Clone, Copy, PartialEq, Eq, Structural, Debug)]
pub struct RequesterId {
    pub value: u64,
}

/// The value a digit sequence spells never goes down when digits are
/// appended.
proof fn lemma_dec_value_nonneg(s: Seq<char>)
    ensures
        dec_value(s) >= 0,
    decreases s.len(),
{
    if s.len() > 0 {
        lemma_dec_value_nonneg(s.drop_last());
    }
}

/// The value of a prefix is at most the value of the whole digit string.
proof fn lemma_dec_value_prefix_le(s: Seq<char>, j: int)
    requires
        0 <= j <= s.len(),
    ensures
        dec_value(s.take(j)) <= dec_value(s),
    decreases s.len() - j,
{
    if j < s.len() {
        lemma_dec_value_prefix_le(s, j + 1);
        let t = s.take(j + 1);
        assert(t.drop_last() =~= s.take(j));
        lemma_dec_value_nonneg(s.take(j));
    } else {
        assert(s.take(j) =~= s);
    }
}

impl RequesterId {
    /// Parse a requester identity from its decimal text form.
    ///
    /// Returns the identity exactly when the text is a nonempty run of
    /// decimal digits whose value fits in 64 bits, and `InvalidArgument`
    /// on any other text.
    pub fn parse(text: &str) -> (r: Result<RequesterId, QueueError>)
        ensures
            is_requester_id_text(text@) ==> r == Ok::<RequesterId, QueueError>(
                RequesterId { value: dec_value(text@) as u64 },
            ),
            !is_requester_id_text(text@) ==> r == Err::<RequesterId, QueueError>(
                QueueError::InvalidArgument,
            ),
    {
        let n = text.unicode_len();
        if n == 0 {
            return Err(QueueError::InvalidArgument);
        }
        let mut value: u64 = 0;
        let mut i: usize = 0;
        while i < n
            invariant
                n == text@.len(),
                0 <= i <= n,
                forall|j: int| 0 <= j < i ==> is_dec_digit(#[trigger] text@[j]),
                value == dec_value(text@.take(i as int)),
            decreases n - i,
        {
            let c = text.get_char(i);
            let d: u64 = match c {
                '0' => 0,
                '1' => 1,
                '2' => 2,
                '3' => 3,
                '4' => 4,
                '5' => 5,
                '6' => 6,
                '7' => 7,
                '8' => 8,
                '9' => 9,
                _ => {
                    return Err(QueueError::InvalidArgument);
                },
            };
            if value > (u64::MAX - d) / 10 {
                proof {
                    let t = text@.take(i + 1);
                    assert(t.drop_last() =~= text@.take(i as int));
                    assert(dec_value(t) == value * 10 + d);
                    assert(value * 10 + d > u64::MAX) by {
                        assert(value >= (u64::MAX - d) / 10 + 1);
                        assert(((u64::MAX - d) / 10 + 1) * 10 > u64::MAX - d) by (nonlinear_arith);
                        assert(value * 10 >= ((u64::MAX - d) / 10 + 1) * 10) by (nonlinear_arith)
                            requires
                                value >= (u64::MAX - d) / 10 + 1,
                        ;
                    }
                    if forall|j: int| 0 <= j < text@.len() ==> is_dec_digit(#[trigger] text@[j]) {
                        lemma_dec_value_prefix_le(text@, i + 1);
                        assert(dec_value(text@) > u64::MAX);
                    }
                }
                return Err(QueueError::InvalidArgument);
            }
            proof {
                let t = text@.take(i + 1);
                assert(t.drop_last() =~= text@.take(i as int));
                assert(t.last() == text@[i as int]);
            }
            value = value * 10 + d;
            i += 1;
        }
        proof {
            assert(text@.take(n as int) =~= text@);
        }
        Ok(RequesterId { value })
    }
}

/// One queue membership: a requester, the display name and note captured
/// at enqueue time, and the enqueue timestamp in milliseconds, kept for
/// display. Queue order is the order of insertion.
pub struct QueueEntry {
    pub requester: RequesterId,
    pub display_name: String,
    pub note: String,
    pub created_at: u64,
}

} // verus!
