use vstd::prelude::*;

verus! {

pub open spec fn is_leap(y: int) -> bool {
    (y % 4 == 0 && y % 100 != 0) || y % 400 == 0
}

pub open spec fn year_days(y: int) -> int {
    if is_leap(y) {
        366
    } else {
        365
    }
}

/// Length of month `m` (1 to 12) of year `y`.
pub open spec fn month_days(y: int, m: int) -> int {
    if m == 2 {
        if is_leap(y) {
            29
        } else {
            28
        }
    } else if m == 4 || m == 6 || m == 9 || m == 11 {
        30
    } else {
        31
    }
}

/// Days from 1970-01-01 to the first day of year `y`.
pub open spec fn days_before_year(y: int) -> int
    decreases y - 1970,
{
    if y <= 1970 {
        0
    } else {
        days_before_year(y - 1) + year_days(y - 1)
    }
}

/// Days from the first of the year to the first of month `m`.
pub open spec fn days_before_month(y: int, m: int) -> int
    decreases m,
{
    if m <= 1 {
        0
    } else {
        days_before_month(y, m - 1) + month_days(y, m - 1)
    }
}

/// The decimal digit `k` places from the right of `x`, as an ASCII byte.
pub open spec fn digit(x: int, k: nat) -> u8 {
    ((x / pow10(k)) % 10 + 0x30) as u8
}

pub open spec fn pow10(k: nat) -> int
    decreases k,
{
    if k == 0 {
        1
    } else {
        10 * pow10((k - 1) as nat)
    }
}

/// The `width` digits of `x`, most significant first.
pub open spec fn digits(x: int, width: nat) -> Seq<u8>
    decreases width,
{
    if width == 0 {
        Seq::empty()
    } else {
        seq![digit(x, (width - 1) as nat)] + digits(x, (width - 1) as nat)
    }
}

/// `s` is the timestamp `YYYYMMDDHHmmssSSS` of the instant `millis` milliseconds after
/// 1970-01-01T00:00:00Z.
pub open spec fn is_timestamp_of(s: Seq<u8>, millis: u64) -> bool {
    exists|y: int, mo: int, d: int, rest: int|
        1970 <= y <= 9999 && 1 <= mo <= 12 && 1 <= d <= month_days(y, mo) && 0 <= rest < 86_400_000
            && millis == (days_before_year(y) + days_before_month(y, mo) + d - 1) * 86_400_000
            + rest && s == #[trigger] timestamp_digits(y, mo, d, rest)
}

pub open spec fn timestamp_digits(y: int, mo: int, d: int, rest: int) -> Seq<u8> {
    digits(y, 4) + digits(mo, 2) + digits(d, 2) + digits(rest / 3_600_000, 2) + digits(
        (rest / 60_000) % 60,
        2,
    ) + digits((rest / 1000) % 60, 2) + digits(rest % 1000, 3)
}

/// Latest instant accepted, 9994-09-01T23:59:59.999Z, which keeps every year four digits long.
pub const MAX_TIMESTAMP_MILLIS: u64 = 253_234_079_999_999;

fn month_len(y: u64, m: u64) -> (r: u64)
    ensures
        r == month_days(y as int, m as int),
{
    if m == 2 {
        if (y % 4 == 0 && y % 100 != 0) || y % 400 == 0 {
            29
        } else {
            28
        }
    } else if m == 4 || m == 6 || m == 9 || m == 11 {
        30
    } else {
        31
    }
}

fn push_digits(out: &mut Vec<u8>, x: u64, width: u32)
    requires
        width <= 4,
        x < 10000,
    ensures
        final(out)@ == old(out)@ + digits(x as int, width as nat),
        final(out)@.len() == old(out)@.len() + width,
    decreases width,
{
    if width == 0 {
        assert(final(out)@ =~= old(out)@ + digits(x as int, 0));
        return;
    }
    let mut p: u64 = 1;
    let mut i: u32 = 1;
    while i < width
        invariant
            1 <= i <= width,
            width <= 4,
            p == pow10((i - 1) as nat),
            i == 1 ==> p == 1,
            i == 2 ==> p == 10,
            i == 3 ==> p == 100,
            i == 4 ==> p == 1000,
        decreases width - i,
    {
        p = p * 10;
        i = i + 1;
        assert(pow10((i - 1) as nat) == 10 * pow10((i - 2) as nat));
    }
    assert(p > 0) by {
        reveal_with_fuel(pow10, 5);
    }
    out.push(((x / p) % 10 + 0x30) as u8);
    push_digits(out, x, width - 1);
    assert(final(out)@ =~= old(out)@ + digits(x as int, width as nat));
}

/// Formats an instant, in milliseconds since 1970-01-01T00:00:00Z, as `YYYYMMDDHHmmssSSS`.
pub fn format_timestamp(millis: u64) -> (r: Vec<u8>)
    requires
        millis <= MAX_TIMESTAMP_MILLIS,
    ensures
        r@.len() == 17,
        is_timestamp_of(r@, millis),
{
    let total: u64 = millis / 86_400_000;
    let rest: u64 = millis % 86_400_000;
    let mut days: u64 = total;
    let mut y: u64 = 1970;
    loop
        invariant
            1970 <= y <= 9999,
            days_before_year(y as int) + days == total,
            days_before_year(y as int) >= 365 * (y - 1970),
            total < 365 * 8030,
        ensures
            1970 <= y <= 9999,
            days_before_year(y as int) + days == total,
            days < year_days(y as int),
        decreases days,
    {
        let len: u64 = if (y % 4 == 0 && y % 100 != 0) || y % 400 == 0 {
            366
        } else {
            365
        };
        assert(len == year_days(y as int));
        if days < len {
            break;
        }
        days = days - len;
        y = y + 1;
    }
    proof {
        reveal_with_fuel(days_before_month, 13);
    }
    let ghost year_rest = days;
    let mut m: u64 = 1;
    loop
        invariant
            1 <= m <= 12,
            days_before_month(y as int, m as int) + days == year_rest,
            year_rest < year_days(y as int),
            days_before_month(y as int, 12) + 31 == year_days(y as int),
            month_days(y as int, 12) == 31,
        ensures
            1 <= m <= 12,
            days_before_month(y as int, m as int) + days == year_rest,
            days < month_days(y as int, m as int),
        decreases 12 - m,
    {
        let len: u64 = month_len(y, m);
        if days < len {
            break;
        }
        days = days - len;
        m = m + 1;
        assert(days_before_month(y as int, m as int) == days_before_month(y as int, m - 1)
            + month_days(y as int, m - 1));
    }
    assert(millis == (days_before_year(y as int) + days_before_month(y as int, m as int) + (days
        + 1) - 1) * 86_400_000 + rest);
    let mut r: Vec<u8> = Vec::new();
    push_digits(&mut r, y, 4);
    push_digits(&mut r, m, 2);
    push_digits(&mut r, days + 1, 2);
    push_digits(&mut r, rest / 3_600_000, 2);
    push_digits(&mut r, (rest / 60_000) % 60, 2);
    push_digits(&mut r, (rest / 1000) % 60, 2);
    push_digits(&mut r, rest % 1000, 3);
    assert(r@ == timestamp_digits(y as int, m as int, (days + 1) as int, rest as int));
    r
}

/// How long an outgoing Prepare stays valid.
pub const PACKET_TIMEOUT_MS: u64 = 30_000;

/// The expiry of a Prepare sent at `now_millis`: the timestamp `PACKET_TIMEOUT_MS` later,
/// or `None` past the latest timestamp accepted.
pub fn expiry_after(now_millis: u64) -> (r: Option<Vec<u8>>)
    ensures
        r is Some <==> now_millis as int + PACKET_TIMEOUT_MS <= MAX_TIMESTAMP_MILLIS,
        r matches Some(t) ==> t@.len() == 17 && is_timestamp_of(
            t@,
            (now_millis + PACKET_TIMEOUT_MS) as u64,
        ),
{
    if now_millis > MAX_TIMESTAMP_MILLIS - PACKET_TIMEOUT_MS {
        return None;
    }
    Some(format_timestamp(now_millis + PACKET_TIMEOUT_MS))
}

} // verus!
