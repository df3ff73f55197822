use vstd::prelude::*;

verus! {

/// A calendar timestamp with second precision, the in-memory form of the
/// stored `YYYY-MM-DD HH:MM:SS` text (interpreted as UTC).
#[derive(Clone, Copy, PartialEq, Eq, Structural, Debug)]
pub struct Timestamp {
    pub year: u32,
    pub month: u32,
    pub day: u32,
    pub hour: u32,
    pub minute: u32,
    pub second: u32,
}

/// Leap years get a 29th of February.
pub open spec fn leap_year(y: u32) -> bool {
    (y % 4 == 0 && y % 100 != 0) || y % 400 == 0
}

/// How many days the given month of the given year has.
pub open spec fn days_in_month(y: u32, m: u32) -> u32 {
    if m == 2 {
        if leap_year(y) {
            29
        } else {
            28
        }
    } else if m == 4 || m == 6 || m == 9 || m == 11 {
        30
    } else {
        31
    }
}

/// Executable twin of `days_in_month`.
pub fn days_in_month_of(y: u32, m: u32) -> (r: u32)
    ensures
        r == days_in_month(y, m),
{
    if m == 2 {
        if (y % 4 == 0 && y % 100 != 0) || y % 400 == 0 {
            29
        } else {
            28
        }
    } else if m == 4 || m == 6 || m == 9 || m == 11 {
        30
    } else {
        31
    }
}

impl Timestamp {
    /// A real calendar date and time, with a four-digit year.
    pub open spec fn valid(self) -> bool {
        &&& self.year <= 9999
        &&& 1 <= self.month <= 12
        &&& 1 <= self.day <= days_in_month(self.year, self.month)
        &&& self.hour <= 23
        &&& self.minute <= 59
        &&& self.second <= 59
    }

    /// Chronological position: for valid timestamps, `a` is no later than `b`
    /// exactly when `a.key() <= b.key()`.
    pub open spec fn key(self) -> int {
        (self.second as int) + 100 * (self.minute as int) + 10_000 * (self.hour as int)
            + 1_000_000 * (self.day as int) + 100_000_000 * (self.month as int)
            + 10_000_000_000 * (self.year as int)
    }

    /// Executable twin of `valid`.
    pub fn is_valid(&self) -> (r: bool)
        ensures
            r == self.valid(),
    {
        self.year <= 9999 && 1 <= self.month && self.month <= 12 && 1 <= self.day && self.day
            <= days_in_month_of(self.year, self.month) && self.hour <= 23 && self.minute <= 59
            && self.second <= 59
    }

    /// Chronological comparison of two valid timestamps.
    pub open spec fn cmp_spec(self, other: Timestamp) -> core::cmp::Ordering {
        if self.key() < other.key() {
            core::cmp::Ordering::Less
        } else if self.key() > other.key() {
            core::cmp::Ordering::Greater
        } else {
            core::cmp::Ordering::Equal
        }
    }

    /// Executable twin of `cmp_spec`.
    pub fn compare(&self, other: &Timestamp) -> (r: core::cmp::Ordering)
        requires
            self.valid(),
            other.valid(),
        ensures
            r == self.cmp_spec(*other),
    {
        let a = self.key_u64();
        let b = other.key_u64();
        if a < b {
            core::cmp::Ordering::Less
        } else if a > b {
            core::cmp::Ordering::Greater
        } else {
            core::cmp::Ordering::Equal
        }
    }

    /// Executable twin of `key`.
    pub fn key_u64(&self) -> (r: u64)
        requires
            self.valid(),
        ensures
            r == self.key(),
    {
        self.second as u64 + 100 * self.minute as u64 + 10_000 * self.hour as u64 + 1_000_000
            * self.day as u64 + 100_000_000 * self.month as u64 + 10_000_000_000 * self.year as u64
    }
}

/// The decimal digit character for a value between 0 and 9.
pub open spec fn digit(d: int) -> char {
    if d == 0 {
        '0'
    } else if d == 1 {
        '1'
    } else if d == 2 {
        '2'
    } else if d == 3 {
        '3'
    } else if d == 4 {
        '4'
    } else if d == 5 {
        '5'
    } else if d == 6 {
        '6'
    } else if d == 7 {
        '7'
    } else if d == 8 {
        '8'
    } else {
        '9'
    }
}

/// The value of a decimal digit character; 10 for anything else.
pub open spec fn digit_val(c: char) -> int {
    if c == '0' {
        0
    } else if c == '1' {
        1
    } else if c == '2' {
        2
    } else if c == '3' {
        3
    } else if c == '4' {
        4
    } else if c == '5' {
        5
    } else if c == '6' {
        6
    } else if c == '7' {
        7
    } else if c == '8' {
        8
    } else if c == '9' {
        9
    } else {
        10
    }
}

pub open spec fn is_digit(c: char) -> bool {
    digit_val(c) <= 9
}

/// Two zero-padded decimal digits of a value below 100.
pub open spec fn two_digits(v: int) -> Seq<char> {
    seq![digit(v / 10), digit(v % 10)]
}

/// Four zero-padded decimal digits of a value below 10000.
pub open spec fn four_digits(v: int) -> Seq<char> {
    two_digits(v / 100) + two_digits(v % 100)
}

impl Timestamp {
    /// The canonical stored text form `YYYY-MM-DD HH:MM:SS`.
    pub open spec fn text_spec(self) -> Seq<char> {
        four_digits(self.year as int) + seq!['-'] + two_digits(self.month as int) + seq!['-']
            + two_digits(self.day as int) + seq![' '] + two_digits(self.hour as int) + seq![':']
            + two_digits(self.minute as int) + seq![':'] + two_digits(self.second as int)
    }

    /// The `YYYYMMDD` date form used for export.
    pub open spec fn date_digits_spec(self) -> Seq<char> {
        four_digits(self.year as int) + two_digits(self.month as int) + two_digits(self.day as int)
    }

    /// The `HHMMSS` time form used for export.
    pub open spec fn time_digits_spec(self) -> Seq<char> {
        two_digits(self.hour as int) + two_digits(self.minute as int) + two_digits(
            self.second as int,
        )
    }
}

/// What parsing timestamp text yields: `Some` exactly for 19 characters in
/// the shape `YYYY-MM-DD HH:MM:SS` that name a real calendar date and time.
pub open spec fn parse_spec(s: Seq<char>) -> Option<Timestamp> {
    if s.len() == 19 && s[4] == '-' && s[7] == '-' && s[10] == ' ' && s[13] == ':' && s[16] == ':'
        && is_digit(s[0]) && is_digit(s[1]) && is_digit(s[2]) && is_digit(s[3]) && is_digit(s[5])
        && is_digit(s[6]) && is_digit(s[8]) && is_digit(s[9]) && is_digit(s[11]) && is_digit(s[12])
        && is_digit(s[14]) && is_digit(s[15]) && is_digit(s[17]) && is_digit(s[18]) {
        let t = Timestamp {
            year: (1000 * digit_val(s[0]) + 100 * digit_val(s[1]) + 10 * digit_val(s[2])
                + digit_val(s[3])) as u32,
            month: (10 * digit_val(s[5]) + digit_val(s[6])) as u32,
            day: (10 * digit_val(s[8]) + digit_val(s[9])) as u32,
            hour: (10 * digit_val(s[11]) + digit_val(s[12])) as u32,
            minute: (10 * digit_val(s[14]) + digit_val(s[15])) as u32,
            second: (10 * digit_val(s[17]) + digit_val(s[18])) as u32,
        };
        if t.valid() {
            Some(t)
        } else {
            None
        }
    } else {
        None
    }
}

/// The value of a decimal digit character, executable twin of `digit_val`.
fn digit_val_of(c: char) -> (r: u32)
    ensures
        r == digit_val(c),
{
    match c {
        '0' => 0,
        '1' => 1,
        '2' => 2,
        '3' => 3,
        '4' => 4,
        '5' => 5,
        '6' => 6,
        '7' => 7,
        '8' => 8,
        '9' => 9,
        _ => 10,
    }
}

/// Parse the stored text form `YYYY-MM-DD HH:MM:SS`; `None` for anything
/// that is not the canonical rendering of a real date and time.
pub fn parse_timestamp(s: &str) -> (r: Option<Timestamp>)
    ensures
        r == parse_spec(s@),
{
    if s.unicode_len() != 19 {
        return None;
    }
    if !(s.get_char(4) == '-' && s.get_char(7) == '-' && s.get_char(10) == ' ' && s.get_char(13)
        == ':' && s.get_char(16) == ':') {
        return None;
    }
    let d0 = digit_val_of(s.get_char(0));
    let d1 = digit_val_of(s.get_char(1));
    let d2 = digit_val_of(s.get_char(2));
    let d3 = digit_val_of(s.get_char(3));
    let d5 = digit_val_of(s.get_char(5));
    let d6 = digit_val_of(s.get_char(6));
    let d8 = digit_val_of(s.get_char(8));
    let d9 = digit_val_of(s.get_char(9));
    let d11 = digit_val_of(s.get_char(11));
    let d12 = digit_val_of(s.get_char(12));
    let d14 = digit_val_of(s.get_char(14));
    let d15 = digit_val_of(s.get_char(15));
    let d17 = digit_val_of(s.get_char(17));
    let d18 = digit_val_of(s.get_char(18));
    if d0 > 9 || d1 > 9 || d2 > 9 || d3 > 9 || d5 > 9 || d6 > 9 || d8 > 9 || d9 > 9 || d11 > 9
        || d12 > 9 || d14 > 9 || d15 > 9 || d17 > 9 || d18 > 9 {
        return None;
    }
    let t = Timestamp {
        year: 1000 * d0 + 100 * d1 + 10 * d2 + d3,
        month: 10 * d5 + d6,
        day: 10 * d8 + d9,
        hour: 10 * d11 + d12,
        minute: 10 * d14 + d15,
        second: 10 * d17 + d18,
    };
    if t.is_valid() {
        Some(t)
    } else {
        None
    }
}

/// The one-character string for a decimal digit value.
fn digit_str(d: u32) -> (r: &'static str)
    requires
        d <= 9,
    ensures
        r@ == seq![digit(d as int)],
{
    match d {
        0 => {
            proof {
                reveal_strlit("0");
            }
            let r = "0";
            proof {
                assert(r@ =~= seq![digit(0)]);
            }
            r
        },
        1 => {
            proof {
                reveal_strlit("1");
            }
            let r = "1";
            proof {
                assert(r@ =~= seq![digit(1)]);
            }
            r
        },
        2 => {
            proof {
                reveal_strlit("2");
            }
            let r = "2";
            proof {
                assert(r@ =~= seq![digit(2)]);
            }
            r
        },
        3 => {
            proof {
                reveal_strlit("3");
            }
            let r = "3";
            proof {
                assert(r@ =~= seq![digit(3)]);
            }
            r
        },
        4 => {
            proof {
                reveal_strlit("4");
            }
            let r = "4";
            proof {
                assert(r@ =~= seq![digit(4)]);
            }
            r
        },
        5 => {
            proof {
                reveal_strlit("5");
            }
            let r = "5";
            proof {
                assert(r@ =~= seq![digit(5)]);
            }
            r
        },
        6 => {
            proof {
                reveal_strlit("6");
            }
            let r = "6";
            proof {
                assert(r@ =~= seq![digit(6)]);
            }
            r
        },
        7 => {
            proof {
                reveal_strlit("7");
            }
            let r = "7";
            proof {
                assert(r@ =~= seq![digit(7)]);
            }
            r
        },
        8 => {
            proof {
                reveal_strlit("8");
            }
            let r = "8";
            proof {
                assert(r@ =~= seq![digit(8)]);
            }
            r
        },
        _ => {
            proof {
                reveal_strlit("9");
            }
            let r = "9";
            proof {
                assert(r@ =~= seq![digit(9)]);
            }
            r
        },
    }
}

/// Append two zero-padded decimal digits of `v` to `out`.
fn push_two(out: &mut String, v: u32)
    requires
        v <= 99,
    ensures
        final(out)@ == old(out)@ + two_digits(v as int),
{
    out.append(digit_str(v / 10));
    out.append(digit_str(v % 10));
    proof {
        assert(final(out)@ =~= old(out)@ + two_digits(v as int));
    }
}

/// Append four zero-padded decimal digits of `v` to `out`.
fn push_four(out: &mut String, v: u32)
    requires
        v <= 9999,
    ensures
        final(out)@ == old(out)@ + four_digits(v as int),
{
    push_two(out, v / 100);
    push_two(out, v % 100);
    proof {
        assert(final(out)@ =~= old(out)@ + four_digits(v as int));
    }
}

impl Timestamp {
    /// Render the canonical stored text form `YYYY-MM-DD HH:MM:SS`.
    pub fn to_text(&self) -> (r: String)
        requires
            self.valid(),
        ensures
            r@ == self.text_spec(),
    {
        proof {
            reveal_strlit("-");
            reveal_strlit(" ");
            reveal_strlit(":");
        }
        let mut out = String::new();
        push_four(&mut out, self.year);
        out.append("-");
        push_two(&mut out, self.month);
        out.append("-");
        push_two(&mut out, self.day);
        out.append(" ");
        push_two(&mut out, self.hour);
        out.append(":");
        push_two(&mut out, self.minute);
        out.append(":");
        push_two(&mut out, self.second);
        proof {
            assert(out@ =~= self.text_spec());
        }
        out
    }

    /// Render the `YYYYMMDD` date form used for export.
    pub fn date_digits(&self) -> (r: String)
        requires
            self.valid(),
        ensures
            r@ == self.date_digits_spec(),
    {
        let mut out = String::new();
        push_four(&mut out, self.year);
        push_two(&mut out, self.month);
        push_two(&mut out, self.day);
        proof {
            assert(out@ =~= self.date_digits_spec());
        }
        out
    }

    /// Render the `HHMMSS` time form used for export.
    pub fn time_digits(&self) -> (r: String)
        requires
            self.valid(),
        ensures
            r@ == self.time_digits_spec(),
    {
        let mut out = String::new();
        push_two(&mut out, self.hour);
        push_two(&mut out, self.minute);
        push_two(&mut out, self.second);
        proof {
            assert(out@ =~= self.time_digits_spec());
        }
        out
    }
}

/// A digit character carries its value: `digit` and `digit_val` invert.
proof fn lemma_digit_value(d: int)
    requires
        0 <= d <= 9,
    ensures
        digit_val(digit(d)) == d,
        is_digit(digit(d)),
{
}

/// A digit value names its character: `digit_val` and `digit` invert.
proof fn lemma_digit_char(c: char)
    requires
        is_digit(c),
    ensures
        digit(digit_val(c)) == c,
{
}

/// The two zero-padded digits of `v` recombine to `v`.
proof fn lemma_two_digits_value(v: int)
    requires
        0 <= v <= 99,
    ensures
        0 <= v / 10 <= 9,
        0 <= v % 10 <= 9,
        10 * digit_val(two_digits(v)[0]) + digit_val(two_digits(v)[1]) == v,
        is_digit(two_digits(v)[0]),
        is_digit(two_digits(v)[1]),
{
    lemma_digit_value(v / 10);
    lemma_digit_value(v % 10);
}

/// The four zero-padded digits of `v` recombine to `v`.
proof fn lemma_four_digits_value(v: int)
    requires
        0 <= v <= 9999,
    ensures
        1000 * digit_val(four_digits(v)[0]) + 100 * digit_val(four_digits(v)[1]) + 10 * digit_val(
            four_digits(v)[2],
        ) + digit_val(four_digits(v)[3]) == v,
        is_digit(four_digits(v)[0]),
        is_digit(four_digits(v)[1]),
        is_digit(four_digits(v)[2]),
        is_digit(four_digits(v)[3]),
{
    lemma_two_digits_value(v / 100);
    lemma_two_digits_value(v % 100);
    assert(four_digits(v)[0] == two_digits(v / 100)[0]);
    assert(four_digits(v)[1] == two_digits(v / 100)[1]);
    assert(four_digits(v)[2] == two_digits(v % 100)[0]);
    assert(four_digits(v)[3] == two_digits(v % 100)[1]);
}

/// Rendering a valid timestamp and parsing the text gives the timestamp back:
/// the text form loses nothing.
#[verifier::rlimit(50)]
pub proof fn lemma_text_roundtrip(t: Timestamp)
    requires
        t.valid(),
    ensures
        parse_spec(t.text_spec()) == Some(t),
{
    let s = t.text_spec();
    let y = t.year as int;
    let mo = t.month as int;
    let d = t.day as int;
    let h = t.hour as int;
    let mi = t.minute as int;
    let sec = t.second as int;
    lemma_four_digits_value(y);
    lemma_two_digits_value(mo);
    lemma_two_digits_value(d);
    lemma_two_digits_value(h);
    lemma_two_digits_value(mi);
    lemma_two_digits_value(sec);
    assert(s =~= four_digits(y) + seq!['-'] + two_digits(mo) + seq!['-'] + two_digits(d)
        + seq![' '] + two_digits(h) + seq![':'] + two_digits(mi) + seq![':'] + two_digits(sec));
    assert(s[0] == four_digits(y)[0] && s[1] == four_digits(y)[1] && s[2] == four_digits(y)[2]
        && s[3] == four_digits(y)[3]);
    assert(s[5] == two_digits(mo)[0] && s[6] == two_digits(mo)[1]);
    assert(s[8] == two_digits(d)[0] && s[9] == two_digits(d)[1]);
    assert(s[11] == two_digits(h)[0] && s[12] == two_digits(h)[1]);
    assert(s[14] == two_digits(mi)[0] && s[15] == two_digits(mi)[1]);
    assert(s[17] == two_digits(sec)[0] && s[18] == two_digits(sec)[1]);
    assert(s[4] == '-' && s[7] == '-' && s[10] == ' ' && s[13] == ':' && s[16] == ':');
    assert(parse_spec(s) == Some(t));
}

/// Parsing succeeds only on the canonical rendering: whenever `parse_spec`
/// accepts some text, the timestamp it returns is valid and renders back to
/// exactly that text.
pub proof fn lemma_parse_canonical(s: Seq<char>)
    requires
        parse_spec(s) is Some,
    ensures
        parse_spec(s)->Some_0.valid(),
        parse_spec(s)->Some_0.text_spec() == s,
{
    let t = parse_spec(s)->Some_0;
    let y = t.year as int;
    let d0 = digit_val(s[0]);
    let d1 = digit_val(s[1]);
    let d2 = digit_val(s[2]);
    let d3 = digit_val(s[3]);
    assert(y == 1000 * d0 + 100 * d1 + 10 * d2 + d3);
    assert(y / 100 == 10 * d0 + d1 && y % 100 == 10 * d2 + d3) by {
        assert(y == 100 * (10 * d0 + d1) + (10 * d2 + d3));
    };
    assert(four_digits(y) =~= seq![s[0], s[1], s[2], s[3]]) by {
        lemma_digit_char(s[0]);
        lemma_digit_char(s[1]);
        lemma_digit_char(s[2]);
        lemma_digit_char(s[3]);
    };
    assert(two_digits(t.month as int) =~= seq![s[5], s[6]]) by {
        lemma_digit_char(s[5]);
        lemma_digit_char(s[6]);
    };
    assert(two_digits(t.day as int) =~= seq![s[8], s[9]]) by {
        lemma_digit_char(s[8]);
        lemma_digit_char(s[9]);
    };
    assert(two_digits(t.hour as int) =~= seq![s[11], s[12]]) by {
        lemma_digit_char(s[11]);
        lemma_digit_char(s[12]);
    };
    assert(two_digits(t.minute as int) =~= seq![s[14], s[15]]) by {
        lemma_digit_char(s[14]);
        lemma_digit_char(s[15]);
    };
    assert(two_digits(t.second as int) =~= seq![s[17], s[18]]) by {
        lemma_digit_char(s[17]);
        lemma_digit_char(s[18]);
    };
    assert(t.text_spec() =~= s);
}

} // verus!
