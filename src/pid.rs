//! Process identifiers and the directory-entry names that spell them.
use vstd::prelude::*;

verus! {

/// The byte of an ASCII decimal digit.
pub open spec fn is_digit(b: u8) -> bool {
    48 <= b <= 57
}

/// Every byte of `s` is an ASCII decimal digit.
pub open spec fn all_digits(s: Seq<u8>) -> bool {
    forall|i: int| 0 <= i < s.len() ==> is_digit(#[trigger] s[i])
}

/// The number that a string of decimal digits spells, most significant first.
pub open spec fn decimal_value(s: Seq<u8>) -> nat
    decreases s.len(),
{
    if s.len() == 0 {
        0
    } else {
        decimal_value(s.drop_last()) * 10 + (s.last() - 48) as nat
    }
}

/// The process identifier named by a directory entry: present exactly when
/// the name is one or more decimal digits whose value fits a `u32`.
pub open spec fn pid_of(name: Seq<u8>) -> Option<u32> {
    if name.len() > 0 && all_digits(name) && decimal_value(name) <= u32::MAX {
        Some(decimal_value(name) as u32)
    } else {
        None
    }
}

/// Appending a digit never lowers the value of a digit string.
proof fn lemma_decimal_value_grows(s: Seq<u8>, k: int)
    requires
        all_digits(s),
        0 <= k <= s.len(),
    ensures
        decimal_value(s.take(k)) <= decimal_value(s),
    decreases s.len() - k,
{
    if k < s.len() {
        lemma_decimal_value_grows(s, k + 1);
        assert(s.take(k + 1).drop_last() =~= s.take(k));
    }
    else {
        assert(s.take(k) =~= s);
    }
}

/// Reads a directory-entry name as a process identifier. Names that hold
/// anything but decimal digits, are empty, or are too large give `None`.
pub fn parse_pid(name: &[u8]) -> (r: Option<u32>)
    ensures
        r == pid_of(name@),
{
    if name.len() == 0 {
        return None;
    }
    let mut value: u32 = 0;
    let mut i: usize = 0;
    while i < name.len()
        invariant
            0 <= i <= name@.len(),
            all_digits(name@.take(i as int)),
            value as nat == decimal_value(name@.take(i as int)),
        decreases name@.len() - i,
    {
        let b = name[i];
        if b < 48 || b > 57 {
            assert(!all_digits(name@));
            return None;
        }
        let d: u32 = (b - 48) as u32;
        assert(name@.take(i + 1).drop_last() =~= name@.take(i as int));
        if value > (u32::MAX - d) / 10 {
            proof {
                assert(decimal_value(name@.take(i + 1)) > u32::MAX);
                if all_digits(name@) {
                    lemma_decimal_value_grows(name@, i + 1);
                }
            }
            return None;
        }
        value = value * 10 + d;
        i = i + 1;
        assert(all_digits(name@.take(i as int)));
    }
    assert(name@.take(i as int) =~= name@);
    Some(value)
}

} // verus!
