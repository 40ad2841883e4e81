//! Decoding of the calendar registers to Unix time.
use vstd::prelude::*;

verus! {

/// The number in a register: binary, or two decimal digits.
pub open spec fn number_spec(value: u8, binary: bool) -> Option<int> {
    if binary {
        Some(value as int)
    } else if value as int % 16 > 9 || value as int / 16 > 9 {
        None
    } else {
        Some((value as int / 16) * 10 + value as int % 16)
    }
}

fn number(value: u8, binary: bool) -> (r: Result<u32, &'static str>)
    ensures
        match number_spec(value, binary) {
            Some(n) => r matches Ok(v) && v == n && v <= 255,
            None => r == Err::<u32, &'static str>("invalid RTC BCD digit"),
        },
{
    if binary {
        return Ok(value as u32);
    }
    if value % 16 > 9 || value / 16 > 9 {
        return Err("invalid RTC BCD digit");
    }
    Ok((value / 16) as u32 * 10 + (value % 16) as u32)
}

pub open spec fn is_leap(year: int) -> bool {
    year % 4 == 0 && (year % 100 != 0 || year % 400 == 0)
}

fn leap(year: u32) -> (r: bool)
    ensures
        r == is_leap(year as int),
{
    year % 4 == 0 && (year % 100 != 0 || year % 400 == 0)
}

pub open spec fn days_in_month(year: int, month: int) -> int {
    if month == 2 {
        if is_leap(year) {
            29
        } else {
            28
        }
    } else if month == 4 || month == 6 || month == 9 || month == 11 {
        30
    } else {
        31
    }
}

fn month_days(year: u32, month: u32) -> (r: u32)
    ensures
        r == days_in_month(year as int, month as int),
{
    match month {
        2 => {
            if leap(year) {
                29
            } else {
                28
            }
        },
        4 | 6 | 9 | 11 => 30,
        _ => 31,
    }
}

pub open spec fn days_in_year(year: int) -> int {
    if is_leap(year) {
        366
    } else {
        365
    }
}

/// Days from the first of January 1970 to that of `year`.
pub open spec fn days_before_year(year: int) -> int
    decreases year,
{
    if year <= 1970 {
        0
    } else {
        days_before_year(year - 1) + days_in_year(year - 1)
    }
}

/// Days from the first of January to the first of `month`.
pub open spec fn days_before_month(year: int, month: int) -> int
    decreases month,
{
    if month <= 1 {
        0
    } else {
        days_before_month(year, month - 1) + days_in_month(year, month - 1)
    }
}

/// A date and time of day.
pub struct Moment {
    pub year: int,
    pub month: int,
    pub day: int,
    pub hours: int,
    pub minutes: int,
    pub seconds: int,
}

impl Moment {
    pub open spec fn valid(self) -> bool {
        &&& 0 <= self.seconds <= 59
        &&& 0 <= self.minutes <= 59
        &&& 0 <= self.hours <= 23
        &&& 1 <= self.month <= 12
        &&& 1 <= self.day <= days_in_month(self.year, self.month)
    }

    /// Whole days since 1970.
    pub open spec fn date(self) -> int {
        days_before_year(self.year) + days_before_month(self.year, self.month) + self.day - 1
    }

    /// Seconds since 1970, in Coordinated Universal Time.
    pub open spec fn epoch(self) -> int {
        self.date() * 86400 + self.hours * 3600 + self.minutes * 60 + self.seconds
    }

    pub open spec fn date_before(self, other: Moment) -> bool {
        ||| self.year < other.year
        ||| self.year == other.year && self.month < other.month
        ||| self.year == other.year && self.month == other.month && self.day < other.day
    }

    pub open spec fn before(self, other: Moment) -> bool {
        ||| self.date_before(other)
        ||| (self.year == other.year && self.month == other.month && self.day == other.day
            && self.hours * 3600 + self.minutes * 60 + self.seconds < other.hours * 3600
            + other.minutes * 60 + other.seconds)
    }
}

/// What the registers hold. The low bit of the control register selects decimal
/// digits, the next one a day of 24 hours.
pub open spec fn fields(control: u8, regs: Seq<u8>) -> Option<
    (int, int, int, int, int, int),
> {
    let binary = control % 2 == 0;
    let seconds = number_spec(regs[0] % 128, binary);
    let minutes = number_spec(regs[1] % 128, binary);
    let hours = number_spec(
        if binary {
            regs[2] % 32
        } else {
            regs[2] % 64
        },
        binary,
    );
    let month = number_spec(
        if binary {
            regs[4] % 16
        } else {
            regs[4] % 32
        },
        binary,
    );
    let year = number_spec(
        if binary {
            regs[5] % 128
        } else {
            regs[5]
        },
        binary,
    );
    let day = number_spec(
        if binary {
            regs[6] % 32
        } else {
            regs[6] % 64
        },
        binary,
    );
    if seconds is Some && minutes is Some && hours is Some && month is Some && year is Some && day is Some {
        Some(
            (
                seconds->Some_0,
                minutes->Some_0,
                hours->Some_0,
                month->Some_0,
                2000 + year->Some_0,
                day->Some_0,
            ),
        )
    } else {
        None
    }
}

pub open spec fn twelve_hour(control: u8) -> bool {
    (control / 2) % 2 == 0
}

/// The hour of the day: 12 is the first hour of each half day.
pub open spec fn hour_of_day(hours: int, afternoon: bool) -> int {
    hours % 12 + if afternoon {
        12int
    } else {
        0
    }
}

/// Whether the registers hold a bad digit before the hour is judged.
pub open spec fn early_digit_error(control: u8, regs: Seq<u8>) -> bool {
    let binary = control % 2 == 0;
    number_spec(regs[0] % 128, binary) is None || number_spec(regs[1] % 128, binary) is None
        || number_spec(
        if binary {
            regs[2] % 32
        } else {
            regs[2] % 64
        },
        binary,
    ) is None
}

/// The hour as the register holds it.
pub open spec fn raw_hour(control: u8, regs: Seq<u8>) -> int {
    let binary = control % 2 == 0;
    number_spec(
        if binary {
            regs[2] % 32
        } else {
            regs[2] % 64
        },
        binary,
    )->Some_0
}

/// What a snapshot of the registers is answered.
pub open spec fn decode_spec(control: u8, regs: Seq<u8>) -> Result<u64, &'static str> {
    if early_digit_error(control, regs) {
        Err("invalid RTC BCD digit")
    } else if twelve_hour(control) && !(1 <= raw_hour(control, regs) <= 12) {
        Err("invalid 12-hour RTC time")
    } else {
        match fields(control, regs) {
            None => Err("invalid RTC BCD digit"),
            Some((seconds, minutes, hours, month, year, day)) => {
                let m = Moment {
                    year,
                    month,
                    day,
                    hours: if twelve_hour(control) {
                        hour_of_day(hours, (regs[2] / 64) % 2 == 1)
                    } else {
                        hours
                    },
                    minutes,
                    seconds,
                };
                if m.valid() {
                    Ok(m.epoch() as u64)
                } else {
                    Err("invalid RTC calendar")
                }
            },
        }
    }
}

proof fn lemma_years(a: int, b: int)
    requires
        1970 <= a <= b,
    ensures
        days_before_year(a) + 365 * (b - a) <= days_before_year(b) <= days_before_year(a) + 366 * (b
            - a),
        0 <= days_before_year(a),
    decreases b,
{
    lemma_year_start(a);
    if a < b {
        lemma_years(a, b - 1);
    }
}

proof fn lemma_year_start(year: int)
    ensures
        0 <= days_before_year(year),
    decreases year,
{
    if year > 1970 {
        lemma_year_start(year - 1);
    }
}

proof fn lemma_month_start(year: int, month: int)
    ensures
        0 <= days_before_month(year, month),
    decreases month,
{
    if month > 1 {
        lemma_month_start(year, month - 1);
    }
}

proof fn lemma_months(year: int, a: int, b: int)
    requires
        1 <= a <= b <= 13,
    ensures
        0 <= days_before_month(year, a),
        a < b ==> days_before_month(year, a) + days_in_month(year, a) <= days_before_month(year, b),
        days_before_month(year, a) <= days_before_month(year, b),
    decreases b,
{
    lemma_month_start(year, a);
    if a + 1 < b {
        lemma_months(year, a, b - 1);
    }
}

proof fn lemma_year_is_its_months(year: int)
    ensures
        days_before_month(year, 13) == days_in_year(year),
{
    reveal_with_fuel(days_before_month, 13);
}

proof fn lemma_date_order(a: Moment, b: Moment)
    requires
        a.valid(),
        b.valid(),
        1970 <= a.year,
        1970 <= b.year,
        a.date_before(b),
    ensures
        a.date() < b.date(),
{
    lemma_months(a.year, a.month, 13);
    lemma_months(b.year, 1, b.month);
    lemma_year_is_its_months(a.year);
    if a.year < b.year {
        lemma_years(a.year + 1, b.year);
    } else if a.month < b.month {
        lemma_months(a.year, a.month, b.month);
    }
}

/// The clock never runs backwards: a later moment has a greater number of
/// seconds, so that different moments have different numbers.
pub proof fn later_moments_are_greater(a: Moment, b: Moment)
    requires
        a.valid(),
        b.valid(),
        1970 <= a.year,
        1970 <= b.year,
        a.before(b),
    ensures
        a.epoch() < b.epoch(),
{
    if a.date_before(b) {
        lemma_date_order(a, b);
        assert(a.date() + 1 <= b.date());
    }
}

/// Digits of a number up to 99.
pub open spec fn digits(n: int) -> u8 {
    (16 * (n / 10) + n % 10) as u8
}

/// The same moment reads the same in both register modes.
pub proof fn decimal_and_binary_agree(n: int)
    requires
        0 <= n <= 99,
    ensures
        number_spec(digits(n), false) == Some(n),
        number_spec(n as u8, true) == Some(n),
{
    let (t, u) = (n / 10, n % 10);
    assert(digits(n) as int == 16 * t + u);
}

fn days_since_epoch(year: u32, month: u32, day: u32) -> (r: u64)
    requires
        2000 <= year <= 2300,
        1 <= month <= 12,
        1 <= day <= 31,
    ensures
        r == days_before_year(year as int) + days_before_month(year as int, month as int) + day - 1,
        r <= 0x4_0000,
{
    let mut days: u64 = 0;
    let mut y: u32 = 1970;
    while y < year
        invariant
            1970 <= y <= year <= 2300,
            days == days_before_year(y as int),
            days <= 366 * (y - 1970),
        decreases year - y,
    {
        days += if leap(y) {
            366
        } else {
            365
        };
        y += 1;
    }
    let ghost whole = days;
    let mut m: u32 = 1;
    while m < month
        invariant
            1 <= m <= month <= 12,
            days == whole + days_before_month(year as int, m as int),
            whole <= 366 * 330,
            days <= whole + 31 * (m - 1),
        decreases month - m,
    {
        days += month_days(year, m) as u64;
        m += 1;
    }
    days + (day - 1) as u64
}

/// Decodes a coherent snapshot of the seven calendar registers to Unix time. The
/// date is taken as Coordinated Universal Time.
pub fn decode_epoch_seconds(control: u8, regs: [u8; 7]) -> (r: Result<u64, &'static str>)
    ensures
        r == decode_spec(control, regs@),
{
    let binary = control % 2 == 0;
    let seconds: u32 = number(regs[0] % 128, binary)?;
    let minutes: u32 = number(regs[1] % 128, binary)?;
    let hour_bits: u8 = if binary {
        regs[2] % 32
    } else {
        regs[2] % 64
    };
    let mut hours: u32 = number(hour_bits, binary)?;
    if (control / 2) % 2 == 0 {
        if hours < 1 || hours > 12 {
            return Err("invalid 12-hour RTC time");
        }
        hours = hours % 12 + if (regs[2] / 64) % 2 == 1 {
            12
        } else {
            0
        };
    }
    let month_bits: u8 = if binary {
        regs[4] % 16
    } else {
        regs[4] % 32
    };
    let year_bits: u8 = if binary {
        regs[5] % 128
    } else {
        regs[5]
    };
    let day_bits: u8 = if binary {
        regs[6] % 32
    } else {
        regs[6] % 64
    };
    let month: u32 = number(month_bits, binary)?;
    let year: u32 = 2000 + number(year_bits, binary)?;
    let day: u32 = number(day_bits, binary)?;
    if seconds > 59 || minutes > 59 || hours > 23 || month < 1 || month > 12 || day == 0 || day
        > month_days(year, month) {
        return Err("invalid RTC calendar");
    }
    let days: u64 = days_since_epoch(year, month, day);
    Ok(days * 86400 + hours as u64 * 3600 + minutes as u64 * 60 + seconds as u64)
}

/// The moment a day later at the same time: behind the last day of a month comes the first
/// of the next, and behind December January.
pub open spec fn tomorrow(m: Moment) -> Moment {
    let last = if m.month == 2 {
        if (m.year % 4 == 0 && m.year % 100 != 0) || m.year % 400 == 0 {
            29int
        } else {
            28
        }
    } else if m.month == 4 || m.month == 6 || m.month == 9 || m.month == 11 {
        30
    } else {
        31
    };
    if m.day < last {
        Moment { day: m.day + 1, ..m }
    } else if m.month < 12 {
        Moment { day: 1, month: m.month + 1, ..m }
    } else {
        Moment { day: 1, month: 1, year: m.year + 1, ..m }
    }
}

/// Every day has 86400 seconds, over the ends of months and years too, counted from the
/// first of January 1970.
pub proof fn days_follow_each_other(m: Moment)
    requires
        m.valid(),
        1970 <= m.year,
    ensures
        tomorrow(m).valid(),
        tomorrow(m).epoch() == m.epoch() + 24 * 60 * 60,
        m.year == 1970 && m.month == 1 && m.day == 1 ==> m.epoch() == 3600 * m.hours + 60
            * m.minutes + m.seconds,
{
    lemma_year_is_its_months(m.year);
    reveal_with_fuel(days_before_month, 13);
    reveal_with_fuel(days_before_year, 2);
}

/// A number in a register: as it is, or as two decimal digits of four bits.
pub open spec fn put(decimal: bool, n: int) -> int {
    if decimal {
        16 * (n / 10) + n % 10
    } else {
        n
    }
}

/// The registers hold a moment of this century, in binary or in decimal digits, with a day
/// of 24 hours, or of twice twelve with the second half marked.
pub open spec fn hold(control: u8, regs: Seq<u8>, m: Moment) -> bool {
    let decimal = control % 2 == 1;
    &&& regs.len() == 7
    &&& regs[0] as int % 128 == put(decimal, m.seconds)
    &&& regs[1] as int % 128 == put(decimal, m.minutes)
    &&& if control as int / 2 % 2 == 1 {
        regs[2] == put(decimal, m.hours)
    } else {
        &&& regs[2] as int % 64 == put(decimal, half_day(m.hours))
        &&& regs[2] as int / 64 % 2 == if m.hours >= 12 {
            1int
        } else {
            0
        }
    }
    &&& regs[4] == put(decimal, m.month)
    &&& regs[5] == put(decimal, m.year - 2000)
    &&& regs[6] == put(decimal, m.day)
}

/// The hour of the half day, of which the first is called the twelfth.
pub open spec fn half_day(hours: int) -> int {
    if hours % 12 == 0 {
        12
    } else {
        hours % 12
    }
}

proof fn lemma_put(value: u8, decimal: bool, n: int)
    requires
        0 <= n <= 99,
        value == put(decimal, n),
    ensures
        number_spec(value, !decimal) == Some(n),
        decimal ==> value <= 0x99,
        n <= 59 ==> value < 0x60,
        n <= 31 ==> value < 0x32,
        n <= 23 ==> value < 0x24,
        n <= 12 ==> value < 0x13,
{
}

proof fn lemma_month(value: u8, decimal: bool, n: int)
    requires
        1 <= n <= 12,
        value == put(decimal, n),
    ensures
        number_spec(
            if !decimal {
                value % 16
            } else {
                value % 32
            },
            !decimal,
        ) == Some(n),
{
    lemma_put(value, decimal, n);
    assert(value < 0x13);
    if !decimal {
        assert(value < 16);
    }
}

proof fn lemma_year(value: u8, decimal: bool, n: int)
    requires
        0 <= n <= 99,
        value == put(decimal, n),
    ensures
        number_spec(
            if !decimal {
                value % 128
            } else {
                value
            },
            !decimal,
        ) == Some(n),
{
    lemma_put(value, decimal, n);
}

proof fn lemma_day(value: u8, decimal: bool, n: int)
    requires
        1 <= n <= 31,
        value == put(decimal, n),
    ensures
        number_spec(
            if !decimal {
                value % 32
            } else {
                value % 64
            },
            !decimal,
        ) == Some(n),
{
    lemma_put(value, decimal, n);
    assert(value < 0x32);
}

proof fn lemma_hours(control: u8, value: u8, decimal: bool, hours: int, h: int)
    requires
        0 <= hours <= 23,
        control as int / 2 % 2 == 1 ==> h == hours && value == put(decimal, hours),
        control as int / 2 % 2 == 0 ==> h == half_day(hours) && value as int % 64 == put(decimal, h),
    ensures
        number_spec(
            if !decimal {
                value % 32
            } else {
                value % 64
            },
            !decimal,
        ) == Some(h),
{
    if control as int / 2 % 2 == 1 {
        lemma_put(value, decimal, h);
        assert(value < 0x24);
        if !decimal {
            assert(value < 32);
        }
    } else {
        let low = value % 64;
        lemma_put(low, decimal, h);
        assert(low < 0x13);
        assert(value % 32 == low % 32);
    }
}

proof fn lemma_low(value: u8, decimal: bool, n: int)
    requires
        0 <= n <= 59,
        value as int % 128 == put(decimal, n),
    ensures
        number_spec(value % 128, !decimal) == Some(n),
{
    lemma_put(value % 128, decimal, n);
}

/// The numbers that are read of registers that hold a moment.
#[verifier::spinoff_prover]
#[verifier::rlimit(60)]
proof fn lemma_held(control: u8, regs: Seq<u8>, m: Moment, h: int)
    requires
        m.valid(),
        2000 <= m.year < 2100,
        hold(control, regs, m),
        h == if control as int / 2 % 2 == 1 {
            m.hours
        } else {
            half_day(m.hours)
        },
    ensures
        fields(control, regs) == Some((m.seconds, m.minutes, h, m.month, m.year, m.day)),
{
    let decimal = control % 2 == 1;
    assert(1 <= m.day <= 31);
    lemma_low(regs[0], decimal, m.seconds);
    lemma_low(regs[1], decimal, m.minutes);
    lemma_hours(control, regs[2], decimal, m.hours, h);
    lemma_month(regs[4], decimal, m.month);
    lemma_year(regs[5], decimal, m.year - 2000);
    lemma_day(regs[6], decimal, m.day);
}

/// Whatever form the registers have a moment in, it is read as that moment.
#[verifier::spinoff_prover]
#[verifier::rlimit(80)]
pub proof fn moments_are_read_back(control: u8, regs: Seq<u8>, m: Moment)
    requires
        m.valid(),
        2000 <= m.year < 2100,
        hold(control, regs, m),
    ensures
        decode_spec(control, regs) == Ok::<u64, &'static str>(m.epoch() as u64),
{
    let h = if control as int / 2 % 2 == 1 {
        m.hours
    } else {
        half_day(m.hours)
    };
    lemma_held(control, regs, m, h);
    lemma_hours(control, regs[2], control % 2 == 1, m.hours, h);
    assert(raw_hour(control, regs) == h);
    if control as int / 2 % 2 == 0 {
        assert(hour_of_day(h, (regs[2] / 64) % 2 == 1) == m.hours);
    }
}

} // verus!
