//! Integer literals.

use vstd::prelude::*;

verus! {

/// Whether every character of a text is an ASCII digit.
pub open spec fn all_digits(s: Seq<char>) -> bool {
    forall|i: int| 0 <= i < s.len() ==> '0' <= #[trigger] s[i] <= '9'
}

/// The number that a text of digits spells.
pub open spec fn digits_value(s: Seq<char>) -> int
    decreases s.len(),
{
    if s.len() == 0 {
        0
    } else {
        10 * digits_value(s.drop_last()) + (s.last() as int - '0' as int)
    }
}

/// The digits of a literal: what stands behind its sign, if it has one.
pub open spec fn literal_digits(s: Seq<char>) -> Seq<char> {
    if s.len() > 0 && (s[0] == '-' || s[0] == '+') {
        s.subrange(1, s.len() as int)
    } else {
        s
    }
}

/// The integer that a literal spells: an optional `+` or `-`, then one or
/// more digits, the whole within the 64-bit signed integers; nothing else
/// is a literal.
pub open spec fn int_of(s: Seq<char>) -> Option<i64> {
    let digits = literal_digits(s);
    let value = if s.len() > 0 && s[0] == '-' {
        -digits_value(digits)
    } else {
        digits_value(digits)
    };
    if digits.len() == 0 || !all_digits(digits) || value < i64::MIN || value > i64::MAX {
        None
    } else {
        Some(value as i64)
    }
}

/// The number that a text of digits spells does not go down when a digit is
/// added.
pub proof fn lemma_digits_value_grows(s: Seq<char>, k: int)
    requires
        all_digits(s),
        0 <= k <= s.len(),
    ensures
        0 <= digits_value(s.take(k)) <= digits_value(s),
    decreases s.len() - k,
{
    lemma_digits_value_nonneg(s.take(k));
    if k < s.len() {
        lemma_digits_value_grows(s, k + 1);
        assert(s.take(k + 1).drop_last() =~= s.take(k));
        assert(s.take(k + 1).last() == s[k]);
    } else {
        assert(s.take(k) =~= s);
    }
}

/// The number that a text of digits spells is not negative.
pub proof fn lemma_digits_value_nonneg(s: Seq<char>)
    requires
        all_digits(s),
    ensures
        0 <= digits_value(s),
    decreases s.len(),
{
    if s.len() > 0 {
        assert(all_digits(s.drop_last())) by {
            assert forall|i: int| 0 <= i < s.drop_last().len() implies '0'
                <= #[trigger] s.drop_last()[i] <= '9' by {
                assert(s.drop_last()[i] == s[i]);
            }
        }
        lemma_digits_value_nonneg(s.drop_last());
    }
}

/// The smallest number that can take one more digit and stay within the
/// 64-bit signed integers.
pub const LAST_STEP: i64 = -922337203685477580;

/// The integer that a literal spells.
#[verifier::loop_isolation(false)]
pub fn parse_i64(text: &Vec<char>) -> (found: Option<i64>)
    ensures
        found == int_of(text@),
{
    let n = text.len();
    let negative = n > 0 && text[0] == '-';
    let start: usize = if n > 0 && (text[0] == '-' || text[0] == '+') {
        1
    } else {
        0
    };
    let ghost digits = literal_digits(text@);
    assert(digits =~= text@.subrange(start as int, n as int));
    if start == n {
        return None;
    }
    // the value is gathered below zero, where the 64-bit integers reach one
    // further than above
    let mut acc: i64 = 0;
    let mut i: usize = start;
    assert(digits.take(0) =~= Seq::<char>::empty());
    while i < n
        invariant
            start <= i <= n,
            all_digits(digits.take(i - start)),
            acc == -digits_value(digits.take(i - start)),
            acc <= 0,
        decreases n - i,
    {
        let c = text[i];
        let ghost upto = digits.take(i - start);
        let ghost next = digits.take(i + 1 - start);
        proof {
            assert(next.drop_last() =~= upto);
            assert(next.last() == c);
            assert(digits[i - start] == c);
        }
        if !(c >= '0' && c <= '9') {
            assert(!all_digits(digits));
            return None;
        }
        let d = (c as u32 - '0' as u32) as i64;
        assert(0 <= d <= 9);
        proof {
            assert(all_digits(next)) by {
                assert forall|j: int| 0 <= j < next.len() implies '0' <= #[trigger] next[j]
                    <= '9' by {
                    if j < upto.len() {
                        assert(next[j] == upto[j]);
                    }
                }
            }
            assert(digits_value(next) == 10 * digits_value(upto) + d);
        }
        if acc < LAST_STEP || (acc == LAST_STEP && d > 8) {
            proof {
                assert(digits_value(next) > 0x8000_0000_0000_0000);
                if all_digits(digits) {
                    lemma_digits_value_grows(digits, i + 1 - start);
                }
            }
            return None;
        }
        acc = acc * 10 - d;
        i += 1;
    }
    assert(digits.take(n - start) =~= digits);
    if negative {
        Some(acc)
    } else if acc == i64::MIN {
        None
    } else {
        Some(-acc)
    }
}

} // verus!
