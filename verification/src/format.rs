//! The rules of value formatting: unit tables, precision, and the rendering of
//! durations.
use crate::config::AppConfig;
use crate::sensors::SensorFormat;
use crate::text::{char_views, chars_of, decimal, decimal_chars, push_all, push_str, string_of};
use vstd::prelude::*;

verus! {

broadcast use vstd::string::group_string_axioms;

/// Formats raw sensor values into human-readable strings.
pub struct ValueFormatter<'a> {
    config: &'a AppConfig,
}

impl<'a> ValueFormatter<'a> {
    /// The configuration the formatter follows.
    pub closed spec fn spec_config(&self) -> &'a AppConfig {
        self.config
    }

    /// A formatter following `config`.
    pub fn new(config: &'a AppConfig) -> (r: Self)
        ensures
            r.spec_config() == config,
    {
        ValueFormatter { config }
    }

    /// The configuration the formatter follows.
    pub fn config(&self) -> (r: &'a AppConfig)
        ensures
            r == self.spec_config(),
    {
        self.config
    }

    /// Format a string sensor value (passthrough for non-numeric values).
    pub fn format_string(&self, value: &str) -> (r: String)
        ensures
            r@ == value@,
    {
        value.to_string()
    }

    /// The number of digits after the decimal point that `format` is shown
    /// with under this formatter's precision setting.
    pub fn decimals(&self, format: SensorFormat) -> (r: usize)
        ensures
            r == format_decimals(format, self.spec_config().general.use_higher_precision),
    {
        format_decimals_exec(format, self.config.general.use_higher_precision)
    }

    /// The temperature unit this formatter shows.
    pub fn temperature_unit(&self) -> (r: &'static str)
        ensures
            r@ == temperature_unit_name(self.spec_config().temperature.unit == 1),
    {
        if self.config.temperature.unit == 1 {
            "\u{00b0}F"
        } else {
            "\u{00b0}C"
        }
    }

    /// Whether memory amounts are shown with decimal (1000-based) units.
    pub fn memory_uses_decimal(&self) -> (r: bool)
        ensures
            r == (self.spec_config().memory.measurement == 1),
    {
        self.config.memory.measurement == 1
    }

    /// Whether storage amounts are shown with decimal (1000-based) units.
    pub fn storage_uses_decimal(&self) -> (r: bool)
        ensures
            r == (self.spec_config().storage.measurement == 1),
    {
        self.config.storage.measurement == 1
    }

    /// Whether network speeds are shown in bits per second.
    pub fn speed_uses_bits(&self) -> (r: bool)
        ensures
            r == (self.spec_config().network.speed_format == 1),
    {
        self.config.network.speed_format == 1
    }
}

/// The name of the temperature unit: Fahrenheit or Celsius.
pub open spec fn temperature_unit_name(fahrenheit: bool) -> Seq<char> {
    if fahrenheit {
        "\u{00b0}F"@
    } else {
        "\u{00b0}C"@
    }
}

/// Digits after the decimal point for each format: one more with higher
/// precision, except for fans, which are always whole numbers.
pub open spec fn format_decimals(format: SensorFormat, hp: bool) -> usize {
    match format {
        SensorFormat::Percent | SensorFormat::Temp | SensorFormat::Speed
        | SensorFormat::Milliamp | SensorFormat::MilliampHour => if hp {
            1
        } else {
            0
        },
        SensorFormat::Fan => 0,
        _ => if hp {
            2
        } else {
            1
        },
    }
}

fn format_decimals_exec(format: SensorFormat, hp: bool) -> (r: usize)
    ensures
        r == format_decimals(format, hp),
{
    match format {
        SensorFormat::Percent | SensorFormat::Temp | SensorFormat::Speed
        | SensorFormat::Milliamp | SensorFormat::MilliampHour => if hp {
            1
        } else {
            0
        },
        SensorFormat::Fan => 0,
        _ => if hp {
            2
        } else {
            1
        },
    }
}

/// The frequency unit for a power of 1000 (`Hz` beyond the table).
pub open spec fn hertz_unit_name(exp: usize) -> Seq<char> {
    if exp == 0 {
        "Hz"@
    } else if exp == 1 {
        "KHz"@
    } else if exp == 2 {
        "MHz"@
    } else if exp == 3 {
        "GHz"@
    } else if exp == 4 {
        "THz"@
    } else if exp == 5 {
        "PHz"@
    } else if exp == 6 {
        "EHz"@
    } else if exp == 7 {
        "ZHz"@
    } else {
        "Hz"@
    }
}

/// The frequency unit for a power of 1000.
pub fn hertz_unit(exp: usize) -> (r: &'static str)
    ensures
        r@ == hertz_unit_name(exp),
{
    if exp == 0 {
        "Hz"
    } else if exp == 1 {
        "KHz"
    } else if exp == 2 {
        "MHz"
    } else if exp == 3 {
        "GHz"
    } else if exp == 4 {
        "THz"
    } else if exp == 5 {
        "PHz"
    } else if exp == 6 {
        "EHz"
    } else if exp == 7 {
        "ZHz"
    } else {
        "Hz"
    }
}

/// A frequency unit is `Hz` with the metric prefix of its power of 1000, the
/// prefix of the decimal byte unit of the same power (`KHz` like `KB`, `MHz`
/// like `MB`, ...), so a value divided by 1000^`exp` and shown in that unit is
/// the value in hertz; the powers below 8 have different units.
pub proof fn lemma_hertz_unit_prefix(exp: usize, other: usize)
    ensures
        hertz_unit_name(0) == "Hz"@,
        1 <= exp < 8 ==> hertz_unit_name(exp) == byte_unit_name(exp, true).take(1) + "Hz"@,
        exp < 8 && other < 8 && exp != other ==> hertz_unit_name(exp) != hertz_unit_name(other),
{
    reveal_strlit("Hz");
    reveal_strlit("KHz");
    reveal_strlit("MHz");
    reveal_strlit("GHz");
    reveal_strlit("THz");
    reveal_strlit("PHz");
    reveal_strlit("EHz");
    reveal_strlit("ZHz");
    reveal_strlit("KB");
    reveal_strlit("MB");
    reveal_strlit("GB");
    reveal_strlit("TB");
    reveal_strlit("PB");
    reveal_strlit("EB");
    reveal_strlit("ZB");
    assert(1 <= exp < 8 ==> hertz_unit_name(exp) =~= byte_unit_name(exp, true).take(1) + "Hz"@);
    if exp < 8 && other < 8 && exp != other {
        let a = hertz_unit_name(exp);
        let b = hertz_unit_name(other);
        assert(a.len() != b.len() || a[0] != b[0]);
    }
}

/// The byte unit for a power of the base: decimal (`KB`, `MB`, ...) or
/// binary (`KiB`, `MiB`, ...); `B` beyond the table.
pub open spec fn byte_unit_name(exp: usize, decimal_units: bool) -> Seq<char> {
    if exp == 0 {
        "B"@
    } else if decimal_units {
        if exp == 1 {
            "KB"@
        } else if exp == 2 {
            "MB"@
        } else if exp == 3 {
            "GB"@
        } else if exp == 4 {
            "TB"@
        } else if exp == 5 {
            "PB"@
        } else if exp == 6 {
            "EB"@
        } else if exp == 7 {
            "ZB"@
        } else if exp == 8 {
            "YB"@
        } else {
            "B"@
        }
    } else {
        if exp == 1 {
            "KiB"@
        } else if exp == 2 {
            "MiB"@
        } else if exp == 3 {
            "GiB"@
        } else if exp == 4 {
            "TiB"@
        } else if exp == 5 {
            "PiB"@
        } else if exp == 6 {
            "EiB"@
        } else if exp == 7 {
            "ZiB"@
        } else if exp == 8 {
            "YiB"@
        } else {
            "B"@
        }
    }
}

/// A binary byte unit has the prefix letter of the decimal unit of the same
/// power followed by `iB` (`KiB` beside `KB`, ...); both are `B` at power 0;
/// and the decimal units of the powers up to 8 differ.
pub proof fn lemma_byte_unit_prefixes(exp: usize, other: usize)
    ensures
        byte_unit_name(0, true) == "B"@ && byte_unit_name(0, false) == "B"@,
        1 <= exp <= 8 ==> byte_unit_name(exp, false) == byte_unit_name(exp, true).take(1) + "iB"@,
        1 <= exp <= 8 ==> byte_unit_name(exp, true) == byte_unit_name(exp, true).take(1) + "B"@,
        exp <= 8 && other <= 8 && exp != other ==> byte_unit_name(exp, true) != byte_unit_name(
            other,
            true,
        ),
{
    reveal_strlit("B");
    reveal_strlit("KB");
    reveal_strlit("MB");
    reveal_strlit("GB");
    reveal_strlit("TB");
    reveal_strlit("PB");
    reveal_strlit("EB");
    reveal_strlit("ZB");
    reveal_strlit("YB");
    reveal_strlit("KiB");
    reveal_strlit("MiB");
    reveal_strlit("GiB");
    reveal_strlit("TiB");
    reveal_strlit("PiB");
    reveal_strlit("EiB");
    reveal_strlit("ZiB");
    reveal_strlit("YiB");
    reveal_strlit("iB");
    assert(1 <= exp <= 8 ==> byte_unit_name(exp, false) =~= byte_unit_name(exp, true).take(1)
        + "iB"@);
    assert(1 <= exp <= 8 ==> byte_unit_name(exp, true) =~= byte_unit_name(exp, true).take(1)
        + "B"@);
    if exp <= 8 && other <= 8 && exp != other {
        let a = byte_unit_name(exp, true);
        let b = byte_unit_name(other, true);
        assert(a.len() != b.len() || a[0] != b[0]);
    }
}

/// The byte unit for a power of the base.
pub fn byte_unit(exp: usize, decimal_units: bool) -> (r: &'static str)
    ensures
        r@ == byte_unit_name(exp, decimal_units),
{
    if exp == 0 {
        "B"
    } else if decimal_units {
        if exp == 1 {
            "KB"
        } else if exp == 2 {
            "MB"
        } else if exp == 3 {
            "GB"
        } else if exp == 4 {
            "TB"
        } else if exp == 5 {
            "PB"
        } else if exp == 6 {
            "EB"
        } else if exp == 7 {
            "ZB"
        } else if exp == 8 {
            "YB"
        } else {
            "B"
        }
    } else {
        if exp == 1 {
            "KiB"
        } else if exp == 2 {
            "MiB"
        } else if exp == 3 {
            "GiB"
        } else if exp == 4 {
            "TiB"
        } else if exp == 5 {
            "PiB"
        } else if exp == 6 {
            "EiB"
        } else if exp == 7 {
            "ZiB"
        } else if exp == 8 {
            "YiB"
        } else {
            "B"
        }
    }
}

/// The speed unit for a power of 1000: the decimal byte unit with `B`
/// replaced by `bps` for bits, or followed by `/s` for bytes.
pub open spec fn speed_unit_name(exp: usize, bits: bool) -> Seq<char> {
    if bits {
        crate::text::replace_all(byte_unit_name(exp, true), "B"@, "bps"@)
    } else {
        byte_unit_name(exp, true) + "/s"@
    }
}

/// The speed unit for a power of 1000.
pub fn speed_unit(exp: usize, bits: bool) -> (r: String)
    ensures
        r@ == speed_unit_name(exp, bits),
{
    let unit = chars_of(byte_unit(exp, true));
    if bits {
        let b = chars_of("B");
        let bps = chars_of("bps");
        proof {
            reveal_strlit("B");
        }
        let r = crate::text::replace_chars(unit.as_slice(), b.as_slice(), bps.as_slice());
        string_of(r.as_slice())
    } else {
        let mut r = unit;
        push_str(&mut r, "/s");
        string_of(r.as_slice())
    }
}

// ---------------------------------------------------------------------------
// Durations
// ---------------------------------------------------------------------------

/// The pieces joined by `sep`.
pub open spec fn join_with(parts: Seq<Seq<char>>, sep: Seq<char>) -> Seq<char>
    decreases parts.len(),
{
    if parts.len() == 0 {
        seq![]
    } else if parts.len() == 1 {
        parts[0]
    } else {
        join_with(parts.drop_last(), sep) + sep + parts.last()
    }
}

/// Joins pieces with a separator.
pub fn join_pieces(parts: &Vec<Vec<char>>, sep: &str) -> (r: Vec<char>)
    ensures
        r@ == join_with(char_views(parts@), sep@),
{
    let mut r: Vec<char> = Vec::new();
    let mut i: usize = 0;
    while i < parts.len()
        invariant
            i <= parts@.len(),
            r@ == join_with(char_views(parts@).take(i as int), sep@),
        decreases parts@.len() - i,
    {
        let ghost before = char_views(parts@).take(i as int);
        if i > 0 {
            push_str(&mut r, sep);
        }
        push_all(&mut r, parts[i].as_slice());
        proof {
            let now = char_views(parts@).take(i + 1);
            assert(now.drop_last() == before);
            assert(now.last() == parts@[i as int]@);
            if i == 0 {
                assert(now.len() == 1);
                assert(r@ == Seq::<char>::empty() + parts@[0]@);
                assert(Seq::<char>::empty() + parts@[0]@ == parts@[0]@);
            }
        }
        i = i + 1;
    }
    proof {
        assert(char_views(parts@).take(parts@.len() as int) == char_views(parts@));
    }
    r
}

/// The pieces of a duration of `total` seconds: days, hours and minutes when
/// not zero, then the seconds when asked for and not zero, or when nothing
/// else would be shown and they are asked for or the duration is under a
/// minute.
pub open spec fn duration_parts(total: nat, show_seconds: bool) -> Seq<Seq<char>> {
    let days = total / 86400;
    let hours = (total % 86400) / 3600;
    let mins = (total % 3600) / 60;
    let secs = total % 60;
    let p1: Seq<Seq<char>> = if days > 0 {
        seq![decimal(days) + "d"@]
    } else {
        seq![]
    };
    let p2 = if hours > 0 {
        p1.push(decimal(hours) + "h"@)
    } else {
        p1
    };
    let p3 = if mins > 0 {
        p2.push(decimal(mins) + "m"@)
    } else {
        p2
    };
    if (show_seconds || total < 60) && p3.len() == 0 || (show_seconds && secs > 0) {
        p3.push(decimal(secs) + "s"@)
    } else {
        p3
    }
}

/// A duration of `total` seconds as text, such as `2d 3h 15m`.
pub open spec fn duration_text(total: nat, show_seconds: bool) -> Seq<char> {
    let parts = duration_parts(total, show_seconds);
    if parts.len() == 0 {
        "0s"@
    } else {
        join_with(parts, " "@)
    }
}

/// `n` followed by the unit letter.
fn number_with_unit(n: u64, unit: &str) -> (r: Vec<char>)
    ensures
        r@ == decimal(n as nat) + unit@,
{
    let mut r = decimal_chars(n);
    push_str(&mut r, unit);
    r
}

/// Formats a whole number of seconds as a duration such as `2d 3h 15m`.
pub fn format_duration_total(total: u64, show_seconds: bool) -> (r: String)
    ensures
        r@ == duration_text(total as nat, show_seconds),
{
    let days = total / 86400;
    let hours = (total % 86400) / 3600;
    let mins = (total % 3600) / 60;
    let secs = total % 60;
    let mut parts: Vec<Vec<char>> = Vec::new();
    let ghost want = duration_parts(total as nat, show_seconds);
    if days > 0 {
        parts.push(number_with_unit(days, "d"));
    }
    if hours > 0 {
        parts.push(number_with_unit(hours, "h"));
    }
    if mins > 0 {
        parts.push(number_with_unit(mins, "m"));
    }
    if (show_seconds || total < 60) && parts.len() == 0 || (show_seconds && secs > 0) {
        parts.push(number_with_unit(secs, "s"));
    }
    proof {
        assert(char_views(parts@) =~= want);
    }
    if parts.len() == 0 {
        "0s".to_string()
    } else {
        let j = join_pieces(&parts, " ");
        string_of(j.as_slice())
    }
}

/// A duration of `total` seconds as a graph-axis label: seconds under a
/// minute, minutes under an hour, otherwise hours and remaining minutes.
pub open spec fn duration_short_text(total: nat) -> Seq<char> {
    if total < 60 {
        decimal(total) + "s"@
    } else if total / 60 < 60 {
        decimal(total / 60) + "m"@
    } else if (total / 60) % 60 == 0 {
        decimal(total / 3600) + "h"@
    } else {
        decimal(total / 3600) + "h "@ + decimal((total / 60) % 60) + "m"@
    }
}

/// Formats a whole number of seconds as a short graph-axis label.
pub fn format_duration_short_total(total: u64) -> (r: String)
    ensures
        r@ == duration_short_text(total as nat),
{
    if total < 60 {
        let v = number_with_unit(total, "s");
        return string_of(v.as_slice());
    }
    let m = total / 60;
    if m < 60 {
        let v = number_with_unit(m, "m");
        return string_of(v.as_slice());
    }
    let h = m / 60;
    let rm = m % 60;
    proof {
        assert(h == total / 3600) by (nonlinear_arith)
            requires
                m == total / 60,
                h == m / 60,
        ;
    }
    if rm == 0 {
        let v = number_with_unit(h, "h");
        string_of(v.as_slice())
    } else {
        let mut v = number_with_unit(h, "h ");
        let w = number_with_unit(rm, "m");
        push_all(&mut v, w.as_slice());
        proof {
            assert(v@ == decimal(h as nat) + "h "@ + (decimal(rm as nat) + "m"@));
        }
        string_of(v.as_slice())
    }
}

} // verus!
