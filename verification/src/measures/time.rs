//! Time measures: Rainmeter's Windows `strftime` flags rewritten into the
//! ones the formatter understands.
use crate::ini::MeasureConfig;
use crate::measures::{option, ov, prop};
use crate::text::{
    lower, replace_str, replaced, str_eq, string_of_all, to_chars, trim, trim_char, trim_char_str,
    trim_str,
};
use vstd::prelude::*;

verus! {

/// The format after the Windows CRT `#` flags are rewritten, in order.
pub open spec fn crt_converted(f: Seq<char>) -> Seq<char> {
    let f = replaced(f, "%#x"@, "%A, %B %-d, %Y"@);
    let f = replaced(f, "%#c"@, "%A, %B %-d, %Y %-H:%M:%S"@);
    let f = replaced(f, "%#X"@, "%-H:%M:%S"@);
    let f = replaced(f, "%#d"@, "%-d"@);
    let f = replaced(f, "%#m"@, "%-m"@);
    let f = replaced(f, "%#H"@, "%-H"@);
    let f = replaced(f, "%#I"@, "%-I"@);
    let f = replaced(f, "%#M"@, "%-M"@);
    let f = replaced(f, "%#S"@, "%-S"@);
    let f = replaced(f, "%#y"@, "%-y"@);
    let f = replaced(f, "%#Y"@, "%Y"@);
    let f = replaced(f, "%#j"@, "%-j"@);
    let f = replaced(f, "%#U"@, "%-U"@);
    let f = replaced(f, "%#W"@, "%-W"@);
    let f = replaced(f, "%#w"@, "%-w"@);
    let f = replaced(f, "%#z"@, "%z"@);
    replaced(f, "%#Z"@, "%Z"@)
}

/// A `Format` option made ready for the formatter: trimmed, without
/// surrounding `"` and then `'`, `%H:%M:%S` when empty, and with the
/// Windows `#` flags rewritten.
pub open spec fn time_format(raw: Seq<char>) -> Seq<char> {
    let f = trim_char(trim_char(trim(raw), '"'), '\'');
    if f.len() == 0 {
        "%H:%M:%S"@
    } else {
        crt_converted(f)
    }
}

/// Converts a Rainmeter time `Format` option.
pub fn convert_rainmeter_time_format(raw_fmt: &str) -> (r: String)
    ensures
        r@ == time_format(raw_fmt@),
{
    let t = trim_str(raw_fmt);
    let t = trim_char_str(t.as_str(), '"');
    let f = trim_char_str(t.as_str(), '\'');
    if to_chars(f.as_str()).len() == 0 {
        return "%H:%M:%S".to_string();
    }
    let f = replace_str(f.as_str(), "%#x", "%A, %B %-d, %Y");
    let f = replace_str(f.as_str(), "%#c", "%A, %B %-d, %Y %-H:%M:%S");
    let f = replace_str(f.as_str(), "%#X", "%-H:%M:%S");
    let f = replace_str(f.as_str(), "%#d", "%-d");
    let f = replace_str(f.as_str(), "%#m", "%-m");
    let f = replace_str(f.as_str(), "%#H", "%-H");
    let f = replace_str(f.as_str(), "%#I", "%-I");
    let f = replace_str(f.as_str(), "%#M", "%-M");
    let f = replace_str(f.as_str(), "%#S", "%-S");
    let f = replace_str(f.as_str(), "%#y", "%-y");
    let f = replace_str(f.as_str(), "%#Y", "%Y");
    let f = replace_str(f.as_str(), "%#j", "%-j");
    let f = replace_str(f.as_str(), "%#U", "%-U");
    let f = replace_str(f.as_str(), "%#W", "%-W");
    let f = replace_str(f.as_str(), "%#w", "%-w");
    let f = replace_str(f.as_str(), "%#z", "%z");
    replace_str(f.as_str(), "%#Z", "%Z")
}

} // verus!
verus! {

/// The options of a `Time` measure.
#[derive(Debug, Clone)]
pub struct TimeSettings {
    pub format: String,
    pub time_zone: Option<String>,
}

impl TimeSettings {
    /// The format (the section's `Format`, else the option, else
    /// `%H:%M:%S`) and `TimeZone` of a `Time` measure.
    pub fn from_config(config: &MeasureConfig) -> (r: TimeSettings)
        requires
            config.properties.wf(),
        ensures
            r.format@ == (match config.format {
                Some(f) => f@,
                None => crate::measures::or_default(prop(*config, "format"@), "%H:%M:%S"@),
            }),
            ov(r.time_zone) == prop(*config, "timezone"@),
    {
        let format = match &config.format {
            Some(f) => f.clone(),
            None => match option(config, "format") {
                Some(s) => s.to_string(),
                None => "%H:%M:%S".to_string(),
            },
        };
        let time_zone = match option(config, "timezone") {
            Some(s) => Some(s.to_string()),
            None => None,
        };
        TimeSettings { format, time_zone }
    }
}

/// The clock a time is shown in.
#[derive(Debug, Clone, PartialEq, Eq)]
pub enum TimeZoneKind {
    /// The machine's local time.
    Local,
    /// Universal time (`UTC`, `GMT` or `0`).
    Utc,
    /// An offset in hours from universal time, as written (lower-cased and
    /// trimmed); local time when it is not a number.
    Offset(String),
}

/// The clock a `TimeZone` option selects.
pub open spec fn time_zone_matches(r: TimeZoneKind, tz: Option<Seq<char>>) -> bool {
    match tz {
        None => r == TimeZoneKind::Local,
        Some(t) => {
            let l = lower(trim(t));
            if l == "utc"@ || l == "gmt"@ || l == "0"@ {
                r == TimeZoneKind::Utc
            } else {
                r matches TimeZoneKind::Offset(s) && s@ == l
            }
        },
    }
}

/// Reads a `TimeZone` option.
pub fn time_zone_kind(tz: Option<&str>) -> (r: TimeZoneKind)
    ensures
        time_zone_matches(r, crate::measures::opt_view(tz)),
{
    match tz {
        None => TimeZoneKind::Local,
        Some(t) => {
            let tt = crate::text::trim_str(t);
            let l = crate::text::lower_str(tt.as_str());
            if str_eq(l.as_str(), "utc") || str_eq(l.as_str(), "gmt") || str_eq(l.as_str(), "0") {
                TimeZoneKind::Utc
            } else {
                TimeZoneKind::Offset(l)
            }
        },
    }
}

} // verus!
