use vstd::prelude::*;

verus! {

/// The character of a decimal digit.
pub open spec fn digit_char(digit: nat) -> char {
    if digit == 0 {
        '0'
    } else if digit == 1 {
        '1'
    } else if digit == 2 {
        '2'
    } else if digit == 3 {
        '3'
    } else if digit == 4 {
        '4'
    } else if digit == 5 {
        '5'
    } else if digit == 6 {
        '6'
    } else if digit == 7 {
        '7'
    } else if digit == 8 {
        '8'
    } else {
        '9'
    }
}

/// The decimal notation of `value`, without leading zeros.
pub open spec fn decimal(value: nat) -> Seq<char>
    decreases value,
{
    if value < 10 {
        seq![digit_char(value)]
    } else {
        decimal(value / 10) + seq![digit_char(value % 10)]
    }
}

fn push_digit(text: &mut String, digit: u128)
    requires
        digit < 10,
    ensures
        final(text)@ == old(text)@ + seq![digit_char(digit as nat)],
{
    let literal: &str = if digit == 0 {
        "0"
    } else if digit == 1 {
        "1"
    } else if digit == 2 {
        "2"
    } else if digit == 3 {
        "3"
    } else if digit == 4 {
        "4"
    } else if digit == 5 {
        "5"
    } else if digit == 6 {
        "6"
    } else if digit == 7 {
        "7"
    } else if digit == 8 {
        "8"
    } else {
        "9"
    };
    proof {
        reveal_strlit("0");
        reveal_strlit("1");
        reveal_strlit("2");
        reveal_strlit("3");
        reveal_strlit("4");
        reveal_strlit("5");
        reveal_strlit("6");
        reveal_strlit("7");
        reveal_strlit("8");
        reveal_strlit("9");
        assert(literal@ =~= seq![digit_char(digit as nat)]);
    }
    text.append(literal);
}

/// Appends the decimal notation of `value` to `text`.
pub fn push_decimal(text: &mut String, value: u128)
    ensures
        final(text)@ == old(text)@ + decimal(value as nat),
    decreases value,
{
    if value < 10 {
        push_digit(text, value);
    } else {
        push_decimal(text, value / 10);
        push_digit(text, value % 10);
        proof {
            assert(old(text)@ + decimal((value / 10) as nat) + seq![digit_char((value % 10) as nat)]
                =~= old(text)@ + decimal(value as nat));
        }
    }
}

/// The decimal notation of `value`.
pub fn decimal_string(value: u128) -> (text: String)
    ensures
        text@ == decimal(value as nat),
{
    let mut text = String::new();
    push_decimal(&mut text, value);
    proof {
        assert(Seq::<char>::empty() + decimal(value as nat) =~= decimal(value as nat));
    }
    text
}

/// A number from 0 to 99 written with two digits.
pub open spec fn two_digits(value: nat) -> Seq<char> {
    seq![digit_char(value / 10), digit_char(value % 10)]
}

/// The label of a pitch shift: octaves by name, other shifts in signed
/// semitones.
pub open spec fn pitch_label(semitones: int) -> Seq<char> {
    if semitones == -12 {
        "-1 oct"@
    } else if semitones == 12 {
        "+1 oct"@
    } else if semitones == 0 {
        "0 st"@
    } else if semitones > 0 {
        "+"@ + decimal(semitones as nat) + " st"@
    } else {
        "-"@ + decimal((-semitones) as nat) + " st"@
    }
}

pub fn format_pitch_label(semitones: i32) -> (label: String)
    ensures
        label@ == pitch_label(semitones as int),
{
    if semitones == -12 {
        String::from_str("-1 oct")
    } else if semitones == 12 {
        String::from_str("+1 oct")
    } else if semitones == 0 {
        String::from_str("0 st")
    } else {
        let mut label = if semitones > 0 {
            String::from_str("+")
        } else {
            String::from_str("-")
        };
        let magnitude: u128 = if semitones > 0 {
            semitones as u128
        } else {
            (-(semitones as i64)) as u128
        };
        push_decimal(&mut label, magnitude);
        label.append(" st");
        label
    }
}

/// A number written with at least two digits.
pub open spec fn at_least_two_digits(value: nat) -> Seq<char> {
    if value < 10 {
        "0"@ + decimal(value)
    } else {
        decimal(value)
    }
}

/// A time in whole seconds as minutes and seconds, "mm:ss"; minutes take
/// more digits when they need them.
pub open spec fn minutes_seconds_text(total_seconds: nat) -> Seq<char> {
    at_least_two_digits(total_seconds / 60) + ":"@ + two_digits(total_seconds % 60)
}

/// Writes a time in whole seconds as "mm:ss".
pub fn format_mm_ss(total_seconds: u64) -> (text: String)
    ensures
        text@ == minutes_seconds_text(total_seconds as nat),
{
    let minutes = total_seconds / 60;
    let seconds = total_seconds % 60;
    let mut text = if minutes < 10 {
        String::from_str("0")
    } else {
        String::new()
    };
    push_decimal(&mut text, minutes as u128);
    text.append(":");
    push_digit(&mut text, (seconds / 10) as u128);
    push_digit(&mut text, (seconds % 10) as u128);
    proof {
        assert(text@ =~= minutes_seconds_text(total_seconds as nat));
    }
    text
}

} // verus!
