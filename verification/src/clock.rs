//! The playback clock shown under the video: `HH:MM:SS / HH:MM:SS`.

use vstd::prelude::*;
use crate::text::{two_digits, push_two_digits, push_str, decimal, digit_char};
use crate::overlay::{all_digits, digits_value, is_digit};

verus! {

/// `secs` as hours, minutes and seconds, each at least two digits wide.
pub open spec fn clock_text(secs: nat) -> Seq<char> {
    two_digits(secs / 3600) + seq![':'] + two_digits((secs % 3600) / 60) + seq![':']
        + two_digits(secs % 60)
}

/// The position and the duration, both as clock texts, separated by ` / `.
pub open spec fn position_text(pos_secs: nat, dur_secs: nat) -> Seq<char> {
    clock_text(pos_secs) + seq![' ', '/', ' '] + clock_text(dur_secs)
}

fn push_clock(s: &mut String, secs: u32)
    ensures
        final(s)@ == old(s)@ + clock_text(secs as nat),
{
    let ghost start = s@;
    push_two_digits(s, (secs / 3600) as u64);
    push_str(s, ":");
    push_two_digits(s, ((secs % 3600) / 60) as u64);
    push_str(s, ":");
    push_two_digits(s, (secs % 60) as u64);
    proof {
        reveal_strlit(":");
    }
    assert(s@ =~= start + clock_text(secs as nat));
}

/// The time text of the player for a position and a duration given in
/// whole seconds.
pub fn format_clock(pos_secs: u32, dur_secs: u32) -> (res: String)
    ensures
        res@ == position_text(pos_secs as nat, dur_secs as nat),
{
    let mut s = String::new();
    push_clock(&mut s, pos_secs);
    push_str(&mut s, " / ");
    push_clock(&mut s, dur_secs);
    proof {
        reveal_strlit(" / ");
    }
    assert(s@ =~= position_text(pos_secs as nat, dur_secs as nat));
    s
}

proof fn lemma_digit_char(d: nat)
    requires
        d < 10,
    ensures
        is_digit(digit_char(d)),
        (digit_char(d) as int) - ('0' as int) == d,
{
}

proof fn lemma_decimal_value(n: nat)
    ensures
        decimal(n).len() >= 1,
        all_digits(decimal(n)),
        digits_value(decimal(n)) == n,
    decreases n,
{
    let d = decimal(n);
    lemma_digit_char(n % 10);
    if n < 10 {
        assert(d.drop_last() =~= Seq::<char>::empty());
        assert(digits_value(Seq::<char>::empty()) == 0);
    } else {
        lemma_decimal_value(n / 10);
        assert(d.drop_last() == decimal(n / 10));
        assert(d.last() == digit_char(n % 10));
        assert forall|i: int| 0 <= i < d.len() implies is_digit(#[trigger] d[i]) by {
            if i < d.len() - 1 {
                assert(d[i] == decimal(n / 10)[i]);
            }
        }
    }
}

proof fn lemma_two_digits_value(n: nat)
    ensures
        two_digits(n).len() >= 2,
        n < 100 ==> two_digits(n).len() == 2,
        all_digits(two_digits(n)),
        digits_value(two_digits(n)) == n,
{
    if n < 10 {
        let t = two_digits(n);
        lemma_digit_char(n);
        lemma_digit_char(0);
        assert(t.drop_last() =~= seq!['0']);
        assert(seq!['0'].drop_last() =~= Seq::<char>::empty());
        assert(seq!['0'].last() == '0');
        assert(digits_value(Seq::<char>::empty()) == 0);
        assert(digits_value(seq!['0']) == 0);
        assert(t.last() == digit_char(n));
    } else {
        lemma_decimal_value(n);
        lemma_decimal_value(n / 10);
        assert(decimal(n).drop_last() == decimal(n / 10));
    }
}

/// The clock text of a time reads back as that time: it is three fields of
/// decimal digits separated by colons, the minutes and the seconds two
/// digits each and below 60, the hours at least two digits, and hours ×
/// 3600 + minutes × 60 + seconds gives the time back.
pub proof fn lemma_clock_reads_back(secs: nat)
    ensures
        exists|h: Seq<char>, m: Seq<char>, x: Seq<char>|
            #![trigger h + seq![':'] + m + seq![':'] + x]
            {
                &&& clock_text(secs) == h + seq![':'] + m + seq![':'] + x
                &&& all_digits(h) && all_digits(m) && all_digits(x)
                &&& h.len() >= 2 && m.len() == 2 && x.len() == 2
                &&& digits_value(m) < 60 && digits_value(x) < 60
                &&& digits_value(h) * 3600 + digits_value(m) * 60 + digits_value(x) == secs
            },
{
    let hv = secs / 3600;
    let mv = (secs % 3600) / 60;
    let xv = secs % 60;
    lemma_two_digits_value(hv);
    lemma_two_digits_value(mv);
    lemma_two_digits_value(xv);
    assert(hv * 3600 + mv * 60 + xv == secs) by (nonlinear_arith)
        requires
            hv == secs / 3600,
            mv == (secs % 3600) / 60,
            xv == secs % 60,
    ;
    let h = two_digits(hv);
    let m = two_digits(mv);
    let x = two_digits(xv);
    assert(clock_text(secs) == h + seq![':'] + m + seq![':'] + x);
}

} // verus!
