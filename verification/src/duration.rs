//! The display form of a duration: hours, minutes and seconds, each written
//! with two digits at least, joined by colons.

use crate::text::{
    all_digits, digits_value, is_digit, lemma_nat_digits_value, nat_digits, push_nat,
};
use vstd::prelude::*;

verus! {

/// The whole hours in `secs` seconds.
pub open spec fn hours_of(secs: int) -> int {
    secs / 3600
}

/// The whole minutes left once the hours are taken out.
pub open spec fn minutes_of(secs: int) -> int {
    (secs % 3600) / 60
}

/// The seconds left once hours and minutes are taken out.
pub open spec fn seconds_of(secs: int) -> int {
    secs % 60
}

/// The digits of `n`, with a zero in front where there would be one digit only.
pub open spec fn two_digits(n: nat) -> Seq<char> {
    if n < 10 {
        seq!['0'] + nat_digits(n)
    } else {
        nat_digits(n)
    }
}

/// The display form of a duration of `secs` seconds.
pub open spec fn duration_display(secs: int) -> Seq<char> {
    two_digits(hours_of(secs) as nat) + seq![':'] + two_digits(minutes_of(secs) as nat) + seq![
        ':',
    ] + two_digits(seconds_of(secs) as nat)
}

/// The seconds that a display form stands for: its last two characters are
/// seconds, the two before the last colon are minutes, and what stands
/// before the first colon is hours.
pub open spec fn display_seconds(text: Seq<char>) -> nat {
    let n = text.len() as int;
    digits_value(text.subrange(0, n - 6)) * 3600 + digits_value(text.subrange(n - 5, n - 3)) * 60
        + digits_value(text.subrange(n - 2, n))
}

fn push_two_digits(out: &mut String, n: u64)
    ensures
        final(out)@ == old(out)@ + two_digits(n as nat),
{
    if n < 10 {
        proof {
            reveal_strlit("0");
        }
        out.append("0");
    }
    push_nat(out, n);
}

/// Writes a duration in its display form.
pub fn gen_duration_str(secs: i64) -> (r: String)
    requires
        secs >= 0,
    ensures
        r@ == duration_display(secs as int),
{
    let total: u64 = secs as u64;
    let hours: u64 = total / 3600;
    let minutes: u64 = (total % 3600) / 60;
    let seconds: u64 = total % 60;
    proof {
        reveal_strlit(":");
    }
    let mut out = String::new();
    push_two_digits(&mut out, hours);
    out.append(":");
    push_two_digits(&mut out, minutes);
    out.append(":");
    push_two_digits(&mut out, seconds);
    out
}

/// Two digits are two characters for a number under a hundred, both digits,
/// and they spell the number.
proof fn lemma_two_digits(n: nat)
    ensures
        n < 100 ==> two_digits(n).len() == 2,
        two_digits(n).len() >= 2,
        all_digits(two_digits(n)),
        digits_value(two_digits(n)) == n,
{
    lemma_nat_digits_value(n);
    let t = two_digits(n);
    if n < 10 {
        assert(digits_value(t.drop_last().drop_last()) == 0);
        assert(digits_value(t.drop_last()) == 0);
    } else {
        lemma_nat_digits_len(n);
    }
}

/// A number of two digits or more has as many characters.
proof fn lemma_nat_digits_len(n: nat)
    ensures
        n < 10 ==> nat_digits(n).len() == 1,
        10 <= n < 100 ==> nat_digits(n).len() == 2,
        10 <= n ==> nat_digits(n).len() >= 2,
    decreases n,
{
    if n >= 10 {
        lemma_nat_digits_len(n / 10);
    }
}

/// The display form of a duration splits the seconds into hours, minutes
/// and seconds that add up to them again; read back field by field it
/// gives the same total; and under a hundred hours it is eight characters
/// long, with the colons in the third and the sixth place.
pub proof fn lemma_duration_round_trip(secs: int)
    requires
        secs >= 0,
    ensures
        hours_of(secs) * 3600 + minutes_of(secs) * 60 + seconds_of(secs) == secs,
        0 <= hours_of(secs),
        0 <= minutes_of(secs) < 60,
        0 <= seconds_of(secs) < 60,
        display_seconds(duration_display(secs)) == secs,
        secs < 360000 ==> duration_display(secs).len() == 8,
        secs < 360000 ==> duration_display(secs)[2] == ':' && duration_display(secs)[5] == ':',
        secs < 360000 ==> forall|i: int|
            0 <= i < 8 && i != 2 && i != 5 ==> is_digit(
                #[trigger] duration_display(secs)[i],
            ),
{
    let h = hours_of(secs) as nat;
    let m = minutes_of(secs) as nat;
    let s = seconds_of(secs) as nat;
    lemma_two_digits(h);
    lemma_two_digits(m);
    lemma_two_digits(s);
    let text = duration_display(secs);
    let n = text.len() as int;
    let hh = two_digits(h);
    let mm = two_digits(m);
    let ss = two_digits(s);
    assert(text.subrange(0, n - 6) =~= hh);
    assert(text.subrange(n - 5, n - 3) =~= mm);
    assert(text.subrange(n - 2, n) =~= ss);
    if secs < 360000 {
        assert forall|i: int| 0 <= i < 8 && i != 2 && i != 5 implies is_digit(
            #[trigger] text[i],
        ) by {}
    }
}

} // verus!
