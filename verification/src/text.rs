use vstd::prelude::*;

verus! {

/// The character of a decimal digit.
pub open spec fn digit_char(d: int) -> char {
    if d == 0 {
        '0'
    } else if d == 1 {
        '1'
    } else if d == 2 {
        '2'
    } else if d == 3 {
        '3'
    } else if d == 4 {
        '4'
    } else if d == 5 {
        '5'
    } else if d == 6 {
        '6'
    } else if d == 7 {
        '7'
    } else if d == 8 {
        '8'
    } else {
        '9'
    }
}

/// The decimal digits of `n`, most significant first, with no leading zero.
pub open spec fn decimal(n: nat) -> Seq<char>
    decreases n,
{
    if n < 10 {
        seq![digit_char(n as int)]
    } else {
        decimal(n / 10).push(digit_char((n % 10) as int))
    }
}

fn digit_string(d: u64) -> (s: String)
    requires
        d < 10,
    ensures
        s@ == seq![digit_char(d as int)],
{
    let text = match d {
        0 => "0",
        1 => "1",
        2 => "2",
        3 => "3",
        4 => "4",
        5 => "5",
        6 => "6",
        7 => "7",
        8 => "8",
        _ => "9",
    };
    proof {
        reveal_strlit("0");
        reveal_strlit("1");
        reveal_strlit("2");
        reveal_strlit("3");
        reveal_strlit("4");
        reveal_strlit("5");
        reveal_strlit("6");
        reveal_strlit("7");
        reveal_strlit("8");
        reveal_strlit("9");
    }
    String::from_str(text)
}

/// `n` written in decimal.
pub fn decimal_string(n: u64) -> (s: String)
    ensures
        s@ == decimal(n as nat),
    decreases n,
{
    if n < 10 {
        digit_string(n)
    } else {
        let mut s = decimal_string(n / 10);
        let last = digit_string(n % 10);
        s.append(last.as_str());
        s
    }
}


/// The text for a remaining time that has run out.
pub open spec fn expired_text() -> Seq<char> {
    seq!['e', 'x', 'p', 'i', 'r', 'e', 'd']
}

/// The text for a remaining time under a minute.
pub open spec fn under_a_minute_text() -> Seq<char> {
    seq!['<', '1', 'm']
}

/// `n` in decimal followed by the unit letter, or nothing when `n` is 0.
pub open spec fn unit_part(n: int, unit: char) -> Seq<char> {
    if n > 0 {
        decimal(n as nat).push(unit)
    } else {
        Seq::empty()
    }
}

/// How a remaining time of `total` whole seconds is shown: "expired" once it
/// has run out; days and hours ("3d4h") from one day on; hours and minutes
/// ("5h12m") below that; "<1m" below a minute.
pub open spec fn duration_text(total: int) -> Seq<char> {
    if total <= 0 {
        expired_text()
    } else {
        let days = total / 86400;
        let hours = (total % 86400) / 3600;
        let minutes = (total % 3600) / 60;
        let parts = if days > 0 {
            decimal(days as nat).push('d') + unit_part(hours, 'h')
        } else {
            unit_part(hours, 'h') + unit_part(minutes, 'm')
        };
        if parts.len() == 0 {
            under_a_minute_text()
        } else {
            parts
        }
    }
}

fn append_unit(parts: &mut String, n: u64, unit: &str, Ghost(c): Ghost<char>)
    requires
        unit@ == seq![c],
    ensures
        final(parts)@ == old(parts)@ + decimal(n as nat).push(c),
{
    let digits = decimal_string(n);
    parts.append(digits.as_str());
    parts.append(unit);
    assert(decimal(n as nat) + seq![c] =~= decimal(n as nat).push(c));
}

/// The text shown for the remaining time `duration`.
pub fn format_duration(duration: crate::span::Span) -> (text: String)
    ensures
        text@ == duration_text(duration.seconds as int),
{
    let total_seconds: i64 = duration.num_seconds();
    if total_seconds <= 0 {
        proof {
            reveal_strlit("expired");
            assert("expired"@ =~= expired_text());
        }
        return String::from_str("expired");
    }
    let total: u64 = total_seconds as u64;
    let days: u64 = total / (24 * 3600);
    let hours: u64 = (total % (24 * 3600)) / 3600;
    let minutes: u64 = (total % 3600) / 60;
    proof {
        reveal_strlit("d");
        reveal_strlit("h");
        reveal_strlit("m");
        assert("d"@ =~= seq!['d']);
        assert("h"@ =~= seq!['h']);
        assert("m"@ =~= seq!['m']);
    }
    let mut parts = String::new();
    let mut any_part = false;
    if days > 0 {
        append_unit(&mut parts, days, "d", Ghost('d'));
        any_part = true;
        if hours > 0 {
            append_unit(&mut parts, hours, "h", Ghost('h'));
        }
    } else {
        if hours > 0 {
            append_unit(&mut parts, hours, "h", Ghost('h'));
            any_part = true;
        }
        if minutes > 0 {
            append_unit(&mut parts, minutes, "m", Ghost('m'));
            any_part = true;
        }
    }
    let ghost t = total_seconds as int;
    assert(parts@ =~= (if t / 86400 > 0 {
        decimal((t / 86400) as nat).push('d') + unit_part((t % 86400) / 3600, 'h')
    } else {
        unit_part((t % 86400) / 3600, 'h') + unit_part((t % 3600) / 60, 'm')
    }));
    if any_part {
        parts
    } else {
        proof {
            reveal_strlit("<1m");
            assert("<1m"@ =~= under_a_minute_text());
        }
        String::from_str("<1m")
    }
}


/// One of the ten decimal digit characters.
pub open spec fn is_digit(c: char) -> bool {
    c == '0' || c == '1' || c == '2' || c == '3' || c == '4' || c == '5' || c == '6' || c == '7'
        || c == '8' || c == '9'
}

/// A decimal numeral is not empty and starts with a digit.
pub proof fn lemma_decimal_starts_with_digit(n: nat)
    ensures
        decimal(n).len() >= 1,
        is_digit(decimal(n)[0]),
    decreases n,
{
    if n >= 10 {
        lemma_decimal_starts_with_digit(n / 10);
    }
}

/// The text of a remaining time reads "expired" exactly when no whole
/// second is left.
pub proof fn lemma_expired_text_iff_run_out(total: int)
    ensures
        (duration_text(total) == expired_text()) <==> total <= 0,
{
    if total > 0 {
        let days = total / 86400;
        let hours = (total % 86400) / 3600;
        let minutes = (total % 3600) / 60;
        lemma_decimal_starts_with_digit(days as nat);
        lemma_decimal_starts_with_digit(hours as nat);
        lemma_decimal_starts_with_digit(minutes as nat);
        let text = duration_text(total);
        if days > 0 {
            assert(text[0] == decimal(days as nat)[0]);
        } else if hours > 0 {
            assert(text[0] == decimal(hours as nat)[0]);
        } else if minutes > 0 {
            assert(text[0] == decimal(minutes as nat)[0]);
        } else {
            assert(text == under_a_minute_text());
        }
        assert(text[0] != expired_text()[0]);
    }
}

/// Whether a remaining time is shown highlighted: it has not run out and
/// fewer than `highlight_days` whole days are left.
pub open spec fn highlighted(total: int, highlight_days: int) -> bool {
    total > 0 && total / 86400 < highlight_days
}

/// A remaining time is highlighted exactly when it has not run out and is
/// shorter than `highlight_days` whole days.
pub proof fn lemma_highlighted(total: int, highlight_days: int)
    ensures
        highlighted(total, highlight_days) <==> (total > 0 && total < highlight_days * 86400),
{
    if total > 0 {
        assert(total / 86400 < highlight_days <==> total < highlight_days * 86400) by (nonlinear_arith)
            requires
                total > 0,
        {
        }
    }
}

/// Whether the remaining time `duration` is to be highlighted.
pub fn highlight_duration(duration: crate::span::Span, highlight_days: i64) -> (h: bool)
    ensures
        h == highlighted(duration.seconds as int, highlight_days as int),
{
    let total_seconds = duration.num_seconds();
    if total_seconds <= 0 {
        return false;
    }
    let days: i64 = total_seconds / (24 * 3600);
    if days < highlight_days {
        return true;
    }
    return false;
}

/// How a cell shows `text` in at most `max_chars` characters: unchanged
/// when it fits, else its first `max_chars - 3` characters and "...".
pub open spec fn shortened(text: Seq<char>, max_chars: int) -> Seq<char> {
    if text.len() > max_chars {
        text.take(max_chars - 3) + seq!['.', '.', '.']
    } else {
        text
    }
}

/// The text that a cell shows for `text`.
pub fn display_text(text: &str, max_chars: usize) -> (shown: String)
    requires
        text@.len() > max_chars ==> max_chars >= 3,
    ensures
        shown@ == shortened(text@, max_chars as int),
        shown@.len() <= max_chars,
        text@.len() <= max_chars ==> shown@ == text@,
        text@.len() > max_chars ==> shown@ == text@.take(max_chars - 3) + seq!['.', '.', '.'],
{
    if text.unicode_len() > max_chars {
        let kept = text.substring_char(0, max_chars - 3);
        proof {
            reveal_strlit("...");
            assert("..."@ =~= seq!['.', '.', '.']);
        }
        String::from_str(kept).concat("...")
    } else {
        String::from_str(text)
    }
}


/// A text that fits is shown whole; a longer one is cut to exactly
/// `max_chars` characters: its first `max_chars - 3` characters and then
/// three dots.  The choice goes by the number of characters alone.
pub proof fn lemma_shortened(text: Seq<char>, max_chars: int)
    ensures
        text.len() <= max_chars ==> shortened(text, max_chars) == text,
        text.len() > max_chars && max_chars >= 3 ==> {
            let shown = shortened(text, max_chars);
            &&& shown.len() == max_chars
            &&& shown.take(max_chars - 3) == text.take(max_chars - 3)
            &&& shown.skip(max_chars - 3) == seq!['.', '.', '.']
        },
{
    if text.len() > max_chars && max_chars >= 3 {
        let shown = shortened(text, max_chars);
        assert(shown.take(max_chars - 3) =~= text.take(max_chars - 3));
        assert(shown.skip(max_chars - 3) =~= seq!['.', '.', '.']);
    }
}

/// The value of a decimal digit character.
pub open spec fn digit_value(c: char) -> int {
    if c == '0' {
        0
    } else if c == '1' {
        1
    } else if c == '2' {
        2
    } else if c == '3' {
        3
    } else if c == '4' {
        4
    } else if c == '5' {
        5
    } else if c == '6' {
        6
    } else if c == '7' {
        7
    } else if c == '8' {
        8
    } else if c == '9' {
        9
    } else {
        -1
    }
}

/// The number that a string of decimal digits reads as.
pub open spec fn numeral_value(s: Seq<char>) -> int
    decreases s.len(),
{
    if s.len() == 0 {
        0
    } else {
        numeral_value(s.drop_last()) * 10 + digit_value(s.last())
    }
}

/// `decimal(n)` is the usual numeral of `n`: digits only, reading back as
/// `n`, and with no leading zero.
pub proof fn lemma_decimal_numeral(n: nat)
    ensures
        decimal(n).len() >= 1,
        forall|i: int| 0 <= i < decimal(n).len() ==> is_digit(#[trigger] decimal(n)[i]),
        numeral_value(decimal(n)) == n,
        decimal(n)[0] == '0' ==> n == 0,
    decreases n,
{
    let d = (n % 10) as int;
    assert(digit_value(digit_char(d)) == d);
    assert(is_digit(digit_char(d)));
    let s = decimal(n);
    if n < 10 {
        assert(s.drop_last() =~= Seq::<char>::empty());
        assert(numeral_value(s.drop_last()) == 0);
        assert(s.last() == digit_char(n as int));
    }
    if n >= 10 {
        lemma_decimal_numeral(n / 10);
        assert(s.drop_last() =~= decimal(n / 10));
        assert(s.last() == digit_char(d));
        assert(numeral_value(s) == numeral_value(decimal(n / 10)) * 10 + d);
        assert((n / 10) * 10 + n % 10 == n);
        assert forall|i: int| 0 <= i < s.len() implies is_digit(#[trigger] s[i]) by {
            if i < s.len() - 1 {
                assert(s[i] == decimal(n / 10)[i]);
            }
        }
        assert(s[0] == decimal(n / 10)[0]);
    }
}

/// From one day on, the text is the days and a "d", then the hours and an
/// "h" when some are left over: for `total = days * 86400 + hours * 3600 + rest`.
pub proof fn lemma_duration_text_days(total: int, days: int, hours: int, rest: int)
    requires
        days >= 1,
        0 <= hours < 24,
        0 <= rest < 3600,
        total == days * 86400 + hours * 3600 + rest,
    ensures
        duration_text(total) == decimal(days as nat) + seq!['d'] + (if hours > 0 {
            decimal(hours as nat) + seq!['h']
        } else {
            Seq::empty()
        }),
{
    assert(total / 86400 == days);
    assert(total % 86400 == hours * 3600 + rest);
    assert((total % 86400) / 3600 == hours);
    lemma_decimal_numeral(days as nat);
    let text = duration_text(total);
    assert(text =~= decimal(days as nat) + seq!['d'] + (if hours > 0 {
        decimal(hours as nat) + seq!['h']
    } else {
        Seq::empty()
    }));
}

/// Under a day, the text is the hours and an "h" when there are some, then
/// the minutes and an "m" when there are some, or "<1m" when there are
/// neither: for `total = hours * 3600 + minutes * 60 + secs > 0`.
pub proof fn lemma_duration_text_under_a_day(total: int, hours: int, minutes: int, secs: int)
    requires
        0 <= hours < 24,
        0 <= minutes < 60,
        0 <= secs < 60,
        total == hours * 3600 + minutes * 60 + secs,
        total > 0,
    ensures
        duration_text(total) == (if hours == 0 && minutes == 0 {
            seq!['<', '1', 'm']
        } else {
            (if hours > 0 {
                decimal(hours as nat) + seq!['h']
            } else {
                Seq::empty()
            }) + (if minutes > 0 {
                decimal(minutes as nat) + seq!['m']
            } else {
                Seq::empty()
            })
        }),
{
    assert(total / 86400 == 0);
    assert(total % 86400 == total);
    assert(total / 3600 == hours);
    assert(total % 3600 == minutes * 60 + secs);
    assert((total % 3600) / 60 == minutes);
    lemma_decimal_numeral(hours as nat);
    lemma_decimal_numeral(minutes as nat);
    let text = duration_text(total);
    if hours == 0 && minutes == 0 {
        assert(text =~= seq!['<', '1', 'm']);
    } else {
        assert(text =~= (if hours > 0 {
            decimal(hours as nat) + seq!['h']
        } else {
            Seq::empty()
        }) + (if minutes > 0 {
            decimal(minutes as nat) + seq!['m']
        } else {
            Seq::empty()
        }));
    }
}

/// With no whole second left the text is "expired".
pub proof fn lemma_duration_text_run_out(total: int)
    requires
        total <= 0,
    ensures
        duration_text(total) == seq!['e', 'x', 'p', 'i', 'r', 'e', 'd'],
{
    assert(duration_text(total) =~= seq!['e', 'x', 'p', 'i', 'r', 'e', 'd']);
}

} // verus!
