//! Dates of the export: reading `M/D/Y h:m:s AM|PM` and writing
//! `YYYY-MM-DD hh:mm:ss.000`.
//!
//! Numbers are read as the standard library's `i32::from_str` reads them
//! (an optional `+` or `-`, then one or more ASCII digits, the value within
//! the range of `i32`), and written as `format!("{:0w}", n)` writes them
//! (at least `w` characters, zeros placed after the sign).
use vstd::prelude::*;
use crate::text::{chars_of, lemma_split_first_piece, lemma_split_without_sep, lit, split, split_bytes, views, bytes_eq, ascii_bytes, append_bytes};

verus! {

/// An ASCII decimal digit.
pub open spec fn is_digit(b: u8) -> bool {
    48 <= b <= 57
}

/// Every byte of `s` is a decimal digit.
pub open spec fn all_digits(s: Seq<u8>) -> bool {
    forall|i: int| 0 <= i < s.len() ==> is_digit(s[i])
}

/// The number that the decimal digits `s` denote.
pub open spec fn digits_value(s: Seq<u8>) -> nat
    decreases s.len(),
{
    if s.len() == 0 {
        0
    } else {
        digits_value(s.drop_last()) * 10 + (s.last() - 48) as nat
    }
}

/// What `i32::from_str` gives for `s`: an optional sign, one or more
/// digits, and a value that fits in an `i32`.
pub open spec fn parse_i32(s: Seq<u8>) -> Option<int> {
    if s.len() > 0 && s[0] == 45 {
        // '-'
        let d = s.drop_first();
        if d.len() > 0 && all_digits(d) && digits_value(d) <= 2147483648 {
            Some(-(digits_value(d) as int))
        } else {
            None
        }
    } else {
        // '+' or no sign
        let d = if s.len() > 0 && s[0] == 43 {
            s.drop_first()
        } else {
            s
        };
        if d.len() > 0 && all_digits(d) && digits_value(d) <= 2147483647 {
            Some(digits_value(d) as int)
        } else {
            None
        }
    }
}

/// A prefix of a digit string never denotes more than the whole string.
pub proof fn lemma_digits_prefix(s: Seq<u8>, j: int)
    requires
        0 <= j <= s.len(),
    ensures
        digits_value(s.take(j)) <= digits_value(s),
    decreases s.len(),
{
    if j < s.len() {
        assert(s.drop_last().take(j) =~= s.take(j));
        lemma_digits_prefix(s.drop_last(), j);
    } else {
        assert(s.take(j) =~= s);
    }
}

/// Reads an `i32` as `i32::from_str` does.
pub fn parse_i32_bytes(s: &[u8]) -> (r: Option<i32>)
    ensures
        match r {
            Some(v) => parse_i32(s@) == Some(v as int),
            None => parse_i32(s@) is None,
        },
{
    let neg = s.len() > 0 && s[0] == 45;
    let start: usize = if s.len() > 0 && (s[0] == 45 || s[0] == 43) {
        1
    } else {
        0
    };
    let ghost d = s@.subrange(start as int, s@.len() as int);
    assert(start == 1 ==> d =~= s@.drop_first());
    assert(start == 0 ==> d =~= s@);
    if start == s.len() {
        return None;
    }
    let mut acc: u64 = 0;
    let mut k: usize = start;
    assert(s@.subrange(start as int, start as int) =~= Seq::<u8>::empty());
    while k < s.len()
        invariant
            start <= k <= s@.len(),
            start < s@.len(),
            neg == (s@.len() > 0 && s@[0] == 45),
            start as int == (if s@.len() > 0 && (s@[0] == 45 || s@[0] == 43) {
                1int
            } else {
                0int
            }),
            start == 1 ==> d == s@.drop_first(),
            start == 0 ==> d == s@,
            d == s@.subrange(start as int, s@.len() as int),
            acc == digits_value(s@.subrange(start as int, k as int)),
            acc <= 2147483648,
            all_digits(s@.subrange(start as int, k as int)),
        decreases s@.len() - k,
    {
        let b = s[k];
        if b < 48 || b > 57 {
            assert(!is_digit(d[k - start]));
            return None;
        }
        let ghost prefix = s@.subrange(start as int, k + 1);
        assert(prefix.drop_last() =~= s@.subrange(start as int, k as int));
        acc = acc * 10 + (b - 48) as u64;
        k = k + 1;
        assert(all_digits(prefix));
        if acc > 2147483648 {
            proof {
                assert(d.take(k - start) =~= prefix);
                lemma_digits_prefix(d, k - start);
            }
            return None;
        }
    }
    assert(s@.subrange(start as int, k as int) =~= d);
    if neg {
        proof {
            assert(s@[0] == 45);
        }
        Some((0 - (acc as i64)) as i32)
    } else if acc <= 2147483647 {
        Some(acc as i32)
    } else {
        None
    }
}

/// The decimal digits of `n`, without leading zeros.
pub open spec fn decimal(n: nat) -> Seq<u8>
    decreases n,
{
    if n < 10 {
        seq![(48 + n) as u8]
    } else {
        decimal(n / 10).push((48 + n % 10) as u8)
    }
}

/// `k` zero digits (none when `k` is not positive).
pub open spec fn zeros(k: int) -> Seq<u8> {
    Seq::new(
        if k > 0 {
            k as nat
        } else {
            0
        },
        |i: int| 48u8,
    )
}

/// `n` written as `format!("{:0w}", n)` writes it: a `-` for a negative
/// number, then zeros until the whole is `w` characters long, then the
/// digits of the magnitude.
pub open spec fn padded(n: int, w: int) -> Seq<u8> {
    if n < 0 {
        let d = decimal((-n) as nat);
        seq![45u8] + zeros(w - 1 - d.len()) + d
    } else {
        let d = decimal(n as nat);
        zeros(w - d.len()) + d
    }
}

/// Appends the decimal digits of `n`.
pub fn push_decimal(out: &mut Vec<u8>, n: u64)
    ensures
        final(out)@ == old(out)@ + decimal(n as nat),
    decreases n,
{
    if n >= 10 {
        push_decimal(out, n / 10);
    }
    out.push((48 + n % 10) as u8);
    assert(out@ =~= old(out)@ + decimal(n as nat));
}

/// A decimal digit as a one-character string.
fn digit_str(d: u64) -> (r: &'static str)
    requires
        d < 10,
    ensures
        r@ == seq![(48 + d) as char],
{
    proof {
        reveal_strlit("0");
        reveal_strlit("1");
        reveal_strlit("2");
        reveal_strlit("3");
        reveal_strlit("4");
        reveal_strlit("5");
        reveal_strlit("6");
        reveal_strlit("7");
        reveal_strlit("8");
        reveal_strlit("9");
    }
    match d {
        0 => "0",
        1 => "1",
        2 => "2",
        3 => "3",
        4 => "4",
        5 => "5",
        6 => "6",
        7 => "7",
        8 => "8",
        _ => "9",
    }
}

/// Appends the decimal digits of `n` to a string.
pub fn append_decimal(s: &mut String, n: u64)
    ensures
        final(s)@ == old(s)@ + chars_of(decimal(n as nat)),
    decreases n,
{
    if n >= 10 {
        append_decimal(s, n / 10);
    }
    s.append(digit_str(n % 10));
    assert(s@ =~= old(s)@ + chars_of(decimal(n as nat)));
}

/// The number of decimal digits of `n`.
pub fn decimal_len(n: u64) -> (r: usize)
    ensures
        r as int == decimal(n as nat).len(),
        1 <= r <= 20,
    decreases n,
{
    if n >= 10 {
        let k = decimal_len(n / 10);
        assert(n / 10 < 10 ==> k == 1);
        if k == 20 {
            proof {
                lemma_decimal_len_bound(n as nat);
            }
        }
        k + 1
    } else {
        1
    }
}

/// A number below 10^k has at most k digits.
proof fn lemma_decimal_len_bound(n: nat)
    requires
        n <= 18446744073709551615,
    ensures
        decimal(n).len() <= 20,
{
    reveal_with_fuel(pow10, 21);
    lemma_decimal_len_pow(n, 18446744073709551615, 20);
}

proof fn lemma_decimal_len_pow(n: nat, bound: nat, k: nat)
    requires
        n <= bound,
        k >= 1,
        bound < pow10(k),
    ensures
        decimal(n).len() <= k,
    decreases k,
{
    if n >= 10 {
        assert(k >= 2) by {
            if k == 1 {
                assert(pow10(1) == 10) by {
                    reveal_with_fuel(pow10, 2);
                }
            }
        }
        assert(pow10(k) == 10 * pow10((k - 1) as nat));
        assert(n / 10 < pow10((k - 1) as nat));
        lemma_decimal_len_pow(n / 10, (pow10((k - 1) as nat) - 1) as nat, (k - 1) as nat);
    }
}

/// Ten to the power `k`.
pub open spec fn pow10(k: nat) -> nat
    decreases k,
{
    if k == 0 {
        1
    } else {
        10 * pow10((k - 1) as nat)
    }
}

/// Appends `n` as `format!("{:0w}", n)` writes it, `w` being `width`.
pub fn push_padded(out: &mut Vec<u8>, n: i32, width: usize)
    ensures
        final(out)@ == old(out)@ + padded(n as int, width as int),
{
    let neg = n < 0;
    let m: u64 = if neg {
        (0 - (n as i64)) as u64
    } else {
        n as u64
    };
    let len = decimal_len(m);
    let ghost head = if neg {
        seq![45u8]
    } else {
        Seq::<u8>::empty()
    };
    if neg {
        out.push(45);
    }
    let used: usize = if neg {
        len + 1
    } else {
        len
    };
    let count: usize = if width > used {
        width - used
    } else {
        0
    };
    let ghost zero_count: int = if neg {
        width - 1 - len
    } else {
        width - len
    };
    assert(zeros(zero_count) =~= zeros(count as int));
    let mut z: usize = 0;
    assert(out@ =~= old(out)@ + head + zeros(0));
    while z < count
        invariant
            z <= count,
            out@ == old(out)@ + head + zeros(z as int),
        decreases count - z,
    {
        out.push(48);
        z = z + 1;
        assert(out@ =~= old(out)@ + head + zeros(z as int));
    }
    push_decimal(out, m);
    assert(out@ =~= old(out)@ + padded(n as int, width as int));
}

/// The `i32` of a date or time field, as the export is read: a value
/// that does not parse counts as missing, and so does -9999.
pub open spec fn field(s: Seq<u8>) -> Option<int> {
    match parse_i32(s) {
        Some(v) => if v != -9999 {
            Some(v)
        } else {
            None
        },
        None => None,
    }
}

/// The hour of a 12-hour clock reading on the 24-hour clock: 12 AM is hour
/// 0, and an afternoon hour below 12 gains 12.
pub open spec fn clock24(hour: int, pm: bool) -> int {
    if pm {
        if hour < 12 {
            hour + 12
        } else {
            hour
        }
    } else {
        if hour == 12 {
            0
        } else {
            hour
        }
    }
}

/// A 12-hour clock hour (1 to 12) lands in the morning half of the day
/// (0 to 11) before noon and in the afternoon half (12 to 23) after.
pub proof fn lemma_clock24_range(hour: int, pm: bool)
    requires
        1 <= hour <= 12,
    ensures
        pm ==> 12 <= clock24(hour, pm) <= 23,
        !pm ==> 0 <= clock24(hour, pm) <= 11,
{
}

/// A number of at most `w` digits is written with exactly `w` characters.
pub proof fn lemma_padded_len(n: int, w: nat)
    requires
        1 <= w,
        0 <= n < pow10(w),
    ensures
        padded(n, w as int).len() == w,
{
    lemma_decimal_len_pow(n as nat, (pow10(w) - 1) as nat, w);
}

/// The digits of `n` are decimal digits, read back as `n`, with no leading
/// zero.
pub proof fn lemma_decimal_reads_back(n: nat)
    ensures
        all_digits(decimal(n)),
        digits_value(decimal(n)) == n,
        decimal(n).len() >= 1,
        n > 0 ==> decimal(n)[0] != 48,
    decreases n,
{
    if n < 10 {
        let d = decimal(n);
        assert(d.drop_last() =~= Seq::<u8>::empty());
        assert(d.last() == 48 + n);
        assert(digits_value(d.drop_last()) == 0);
        assert(digits_value(d) == digits_value(d.drop_last()) * 10 + (d.last() - 48) as nat);
    } else {
        lemma_decimal_reads_back(n / 10);
        assert(decimal(n).drop_last() =~= decimal(n / 10));
        assert(decimal(n).last() == 48 + n % 10);
        assert(n == (n / 10) * 10 + n % 10);
        assert(decimal(n)[0] == decimal(n / 10)[0]);
        let d = decimal(n);
        assert(digits_value(d) == digits_value(d.drop_last()) * 10 + (d.last() - 48) as nat);
    }
}

/// Leading zeros change neither what digits are read as nor that they are
/// digits.
pub proof fn lemma_zeros_read_as_nothing(k: int, d: Seq<u8>)
    ensures
        digits_value(zeros(k) + d) == digits_value(d),
        all_digits(d) ==> all_digits(zeros(k) + d),
    decreases d.len(), if k > 0 {
        k
    } else {
        0
    },
{
    if d.len() > 0 {
        assert((zeros(k) + d).drop_last() =~= zeros(k) + d.drop_last());
        lemma_zeros_read_as_nothing(k, d.drop_last());
    } else if k > 0 {
        assert((zeros(k) + d).drop_last() =~= zeros(k - 1) + d);
        lemma_zeros_read_as_nothing(k - 1, d);
        assert(zeros(k) + d =~= zeros(k));
    } else {
        assert(zeros(k) + d =~= Seq::<u8>::empty());
    }
}

/// A number of at most `w` digits is written as exactly `w` decimal digits
/// that read back as the number.
pub proof fn lemma_padded_reads_back(n: int, w: nat)
    requires
        1 <= w,
        0 <= n < pow10(w),
    ensures
        padded(n, w as int).len() == w,
        all_digits(padded(n, w as int)),
        digits_value(padded(n, w as int)) == n,
{
    lemma_padded_len(n, w);
    lemma_decimal_reads_back(n as nat);
    lemma_zeros_read_as_nothing(w - decimal(n as nat).len(), decimal(n as nat));
}

/// One or more digits whose value fits in an `i32` are a field of that value:
/// leading zeros (as in `08`) are read as `i32::from_str` reads them.
pub proof fn lemma_field_of_digits(d: Seq<u8>)
    requires
        d.len() > 0,
        all_digits(d),
        digits_value(d) <= 2147483647,
    ensures
        parse_i32(d) == Some(digits_value(d) as int),
        field(d) == Some(digits_value(d) as int),
{
    assert(is_digit(d[0]));
}

/// A date `M/D/Y h:m:s AM` or `... PM` whose six fields are digits with
/// values that fit in an `i32` is always converted, to the timestamp of
/// those values with the hour taken to the 24-hour clock.
pub proof fn lemma_convert_date_of_digits(
    mo: Seq<u8>,
    da: Seq<u8>,
    yr: Seq<u8>,
    hr: Seq<u8>,
    mi: Seq<u8>,
    se: Seq<u8>,
    half: Seq<u8>,
)
    requires
        mo.len() > 0 && all_digits(mo) && digits_value(mo) <= 2147483647,
        da.len() > 0 && all_digits(da) && digits_value(da) <= 2147483647,
        yr.len() > 0 && all_digits(yr) && digits_value(yr) <= 2147483647,
        hr.len() > 0 && all_digits(hr) && digits_value(hr) <= 2147483647,
        mi.len() > 0 && all_digits(mi) && digits_value(mi) <= 2147483647,
        se.len() > 0 && all_digits(se) && digits_value(se) <= 2147483647,
        half == lit("AM") || half == lit("PM"),
    ensures
        convert_date(
            mo + seq![47u8] + da + seq![47u8] + yr + seq![32u8] + hr + seq![58u8] + mi + seq![58u8]
                + se + seq![32u8] + half,
        ) == Some(
            timestamp(
                digits_value(yr) as int,
                digits_value(mo) as int,
                digits_value(da) as int,
                clock24(digits_value(hr) as int, half == lit("PM")),
                digits_value(mi) as int,
                digits_value(se) as int,
            ),
        ),
{
    reveal_strlit("AM");
    reveal_strlit("PM");
    let date_part = mo + seq![47u8] + da + seq![47u8] + yr;
    let time_part = hr + seq![58u8] + mi + seq![58u8] + se;
    let d = mo + seq![47u8] + da + seq![47u8] + yr + seq![32u8] + hr + seq![58u8] + mi + seq![
        58u8,
    ] + se + seq![32u8] + half;
    assert(d =~= date_part + seq![32u8] + (time_part + seq![32u8] + half));
    assert forall|i: int| 0 <= i < date_part.len() implies date_part[i] != 32u8 by {
        if i < mo.len() {
            assert(is_digit(mo[i]));
        } else if i == mo.len() {
        } else if i < mo.len() + 1 + da.len() {
            assert(is_digit(da[i - mo.len() - 1]));
        } else if i == mo.len() + 1 + da.len() {
        } else {
            assert(is_digit(yr[i - mo.len() - 2 - da.len()]));
        }
    }
    assert forall|i: int| 0 <= i < time_part.len() implies time_part[i] != 32u8 by {
        if i < hr.len() {
            assert(is_digit(hr[i]));
        } else if i == hr.len() {
        } else if i < hr.len() + 1 + mi.len() {
            assert(is_digit(mi[i - hr.len() - 1]));
        } else if i == hr.len() + 1 + mi.len() {
        } else {
            assert(is_digit(se[i - hr.len() - 2 - mi.len()]));
        }
    }
    assert forall|i: int| 0 <= i < half.len() implies half[i] != 32u8 by {}
    lemma_split_first_piece(date_part, 32u8, time_part + seq![32u8] + half);
    lemma_split_first_piece(time_part, 32u8, half);
    lemma_split_without_sep(half, 32u8);
    let parts = split(d, 32u8);
    assert(parts =~= seq![date_part, time_part, half]);
    // The date: month / day / year.
    assert forall|i: int| 0 <= i < mo.len() implies mo[i] != 47u8 by {
        assert(is_digit(mo[i]));
    }
    assert forall|i: int| 0 <= i < da.len() implies da[i] != 47u8 by {
        assert(is_digit(da[i]));
    }
    assert forall|i: int| 0 <= i < yr.len() implies yr[i] != 47u8 by {
        assert(is_digit(yr[i]));
    }
    assert(date_part =~= mo + seq![47u8] + (da + seq![47u8] + yr));
    lemma_split_first_piece(mo, 47u8, da + seq![47u8] + yr);
    lemma_split_first_piece(da, 47u8, yr);
    lemma_split_without_sep(yr, 47u8);
    assert(split(date_part, 47u8) =~= seq![mo, da, yr]);
    // The time: hour : minute : second.
    assert forall|i: int| 0 <= i < hr.len() implies hr[i] != 58u8 by {
        assert(is_digit(hr[i]));
    }
    assert forall|i: int| 0 <= i < mi.len() implies mi[i] != 58u8 by {
        assert(is_digit(mi[i]));
    }
    assert forall|i: int| 0 <= i < se.len() implies se[i] != 58u8 by {
        assert(is_digit(se[i]));
    }
    assert(time_part =~= hr + seq![58u8] + (mi + seq![58u8] + se));
    lemma_split_first_piece(hr, 58u8, mi + seq![58u8] + se);
    lemma_split_first_piece(mi, 58u8, se);
    lemma_split_without_sep(se, 58u8);
    assert(split(time_part, 58u8) =~= seq![hr, mi, se]);
    lemma_field_of_digits(mo);
    lemma_field_of_digits(da);
    lemma_field_of_digits(yr);
    lemma_field_of_digits(hr);
    lemma_field_of_digits(mi);
    lemma_field_of_digits(se);
}

/// The written form of a timestamp: `YYYY-MM-DD hh:mm:ss.000`, each field
/// zero-padded to its width.
pub open spec fn timestamp(yr: int, mo: int, da: int, hr: int, mi: int, se: int) -> Seq<u8> {
    padded(yr, 4) + lit("-") + padded(mo, 2) + lit("-") + padded(da, 2) + lit(" ") + padded(hr, 2)
        + lit(":") + padded(mi, 2) + lit(":") + padded(se, 2) + lit(".000")
}

/// A timestamp whose year has at most four digits and whose other fields
/// at most two is written in the 23 characters of `YYYY-MM-DD hh:mm:ss.000`.
pub proof fn lemma_timestamp_len(yr: int, mo: int, da: int, hr: int, mi: int, se: int)
    requires
        0 <= yr <= 9999,
        0 <= mo <= 99,
        0 <= da <= 99,
        0 <= hr <= 99,
        0 <= mi <= 99,
        0 <= se <= 99,
    ensures
        timestamp(yr, mo, da, hr, mi, se).len() == 23,
{
    reveal_with_fuel(pow10, 5);
    lemma_padded_len(yr, 4);
    lemma_padded_len(mo, 2);
    lemma_padded_len(da, 2);
    lemma_padded_len(hr, 2);
    lemma_padded_len(mi, 2);
    lemma_padded_len(se, 2);
    reveal_strlit("-");
    reveal_strlit(" ");
    reveal_strlit(":");
    reveal_strlit(".000");
}

/// The date `d` of the export (`M/D/Y h:m:s AM` or `... PM`) in the form
/// `YYYY-MM-DD hh:mm:ss.000`, when it can be read.
///
/// It can be read when it is longer than 8 bytes, splits on spaces into
/// three pieces, the first splits on `/` into month, day and year, the
/// second on `:` into hour, minute and second, each of these six is a
/// field (see `field`), and the third piece is `AM` or `PM`.
pub open spec fn convert_date(d: Seq<u8>) -> Option<Seq<u8>> {
    let parts = split(d, 32);  // ' '
    let date = split(parts[0], 47);  // '/'
    let time = split(parts[1], 58);  // ':'
    if d.len() > 8 && parts.len() == 3 && date.len() == 3 && time.len() == 3 && field(
        date[0],
    ) is Some && field(date[1]) is Some && field(date[2]) is Some && field(time[0]) is Some
        && field(time[1]) is Some && field(time[2]) is Some && (parts[2] == lit("PM") || parts[2]
        == lit("AM")) {
        Some(
            timestamp(
                field(date[2])->0,
                field(date[0])->0,
                field(date[1])->0,
                clock24(field(time[0])->0, parts[2] == lit("PM")),
                field(time[1])->0,
                field(time[2])->0,
            ),
        )
    } else {
        None
    }
}

/// Reads a field of a date or time (see `field`).
fn field_bytes(s: &[u8]) -> (r: Option<i32>)
    ensures
        match r {
            Some(v) => field(s@) == Some(v as int),
            None => field(s@) is None,
        },
{
    match parse_i32_bytes(s) {
        Some(v) => if v != -9999 {
            Some(v)
        } else {
            None
        },
        None => None,
    }
}

/// Writes a timestamp (see `timestamp`).
pub fn write_timestamp(yr: i32, mo: i32, da: i32, hr: i32, mi: i32, se: i32) -> (r: Vec<u8>)
    ensures
        r@ == timestamp(yr as int, mo as int, da as int, hr as int, mi as int, se as int),
{
    proof {
        reveal_strlit("-");
        reveal_strlit(" ");
        reveal_strlit(":");
        reveal_strlit(".000");
    }
    let mut out: Vec<u8> = Vec::new();
    push_padded(&mut out, yr, 4);
    append_bytes(&mut out, ascii_bytes("-"));
    push_padded(&mut out, mo, 2);
    append_bytes(&mut out, ascii_bytes("-"));
    push_padded(&mut out, da, 2);
    append_bytes(&mut out, ascii_bytes(" "));
    push_padded(&mut out, hr, 2);
    append_bytes(&mut out, ascii_bytes(":"));
    push_padded(&mut out, mi, 2);
    append_bytes(&mut out, ascii_bytes(":"));
    push_padded(&mut out, se, 2);
    append_bytes(&mut out, ascii_bytes(".000"));
    assert(out@ =~= timestamp(yr as int, mo as int, da as int, hr as int, mi as int, se as int));
    out
}

/// The date `d` in the form `YYYY-MM-DD hh:mm:ss.000`, when it can be read
/// (see `convert_date`).
pub fn convert_date_bytes(d: &[u8]) -> (r: Option<Vec<u8>>)
    ensures
        match r {
            Some(v) => convert_date(d@) == Some(v@),
            None => convert_date(d@) is None,
        },
{
    if d.len() <= 8 {
        return None;
    }
    let parts = split_bytes(d, 32);
    if parts.len() != 3 {
        return None;
    }
    let date = split_bytes(parts[0].as_slice(), 47);
    let time = split_bytes(parts[1].as_slice(), 58);
    assert(views(parts@)[0] == parts@[0]@);
    assert(views(parts@)[1] == parts@[1]@);
    assert(views(parts@)[2] == parts@[2]@);
    if date.len() != 3 || time.len() != 3 {
        return None;
    }
    assert(views(date@)[0] == date@[0]@);
    assert(views(date@)[1] == date@[1]@);
    assert(views(date@)[2] == date@[2]@);
    assert(views(time@)[0] == time@[0]@);
    assert(views(time@)[1] == time@[1]@);
    assert(views(time@)[2] == time@[2]@);
    let mo = match field_bytes(date[0].as_slice()) {
        Some(v) => v,
        None => return None,
    };
    let da = match field_bytes(date[1].as_slice()) {
        Some(v) => v,
        None => return None,
    };
    let yr = match field_bytes(date[2].as_slice()) {
        Some(v) => v,
        None => return None,
    };
    let hr = match field_bytes(time[0].as_slice()) {
        Some(v) => v,
        None => return None,
    };
    let mi = match field_bytes(time[1].as_slice()) {
        Some(v) => v,
        None => return None,
    };
    let se = match field_bytes(time[2].as_slice()) {
        Some(v) => v,
        None => return None,
    };
    proof {
        reveal_strlit("PM");
        reveal_strlit("AM");
    }
    let pm = bytes_eq(parts[2].as_slice(), ascii_bytes("PM"));
    let am = bytes_eq(parts[2].as_slice(), ascii_bytes("AM"));
    let hour = if pm {
        if hr < 12 {
            hr + 12
        } else {
            hr
        }
    } else if am {
        if hr == 12 {
            0
        } else {
            hr
        }
    } else {
        return None;
    };
    Some(write_timestamp(yr, mo, da, hour, mi, se))
}

} // verus!
