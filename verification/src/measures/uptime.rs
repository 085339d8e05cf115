//! System uptime: the Rainmeter `%4!02d!:%3!02d!:%2!02d!` style format,
//! with `%4` days, `%3` hours, `%2` minutes and `%1` seconds.
use crate::ini::MeasureConfig;
use crate::measures::{opt_view, option, ov, prop};
use crate::text::{decimal, decimal_string, decimal_string_02, pad2, replace_str, replaced};
use vstd::prelude::*;

verus! {

/// Replaces the `%k!02d!` (two digits) and `%k!d!` forms of one field.
pub open spec fn fill_field(s: Seq<char>, two: Seq<char>, plain: Seq<char>, v: nat) -> Seq<char> {
    replaced(replaced(s, two, pad2(decimal(v))), plain, decimal(v))
}

/// The uptime text for a format and a whole number of seconds.
pub open spec fn uptime_text(fmt: Seq<char>, total: nat) -> Seq<char> {
    let days = total / 86400;
    let hours = (total % 86400) / 3600;
    let mins = (total % 3600) / 60;
    let secs = total % 60;
    fill_field(
        fill_field(
            fill_field(fill_field(fmt, "%4!02d!"@, "%4!d!"@, days), "%3!02d!"@, "%3!d!"@, hours),
            "%2!02d!"@,
            "%2!d!"@,
            mins,
        ),
        "%1!02d!"@,
        "%1!d!"@,
        secs,
    )
}

fn fill_field_exec(s: &str, two: &str, plain: &str, v: u64) -> (r: String)
    ensures
        r@ == fill_field(s@, two@, plain@, v as nat),
{
    let a = replace_str(s, two, decimal_string_02(v).as_str());
    replace_str(a.as_str(), plain, decimal_string(v).as_str())
}

/// Formats a whole number of seconds of uptime: `%4`, `%3`, `%2` and `%1`
/// (each as `!02d!` for two digits or `!d!`) become the days, hours,
/// minutes and seconds.
pub fn format_uptime(fmt: &str, total_secs: u64) -> (r: String)
    ensures
        r@ == uptime_text(fmt@, total_secs as nat),
{
    let days = total_secs / 86400;
    let hours = (total_secs % 86400) / 3600;
    let mins = (total_secs % 3600) / 60;
    let secs = total_secs % 60;
    let a = fill_field_exec(fmt, "%4!02d!", "%4!d!", days);
    let b = fill_field_exec(a.as_str(), "%3!02d!", "%3!d!", hours);
    let c = fill_field_exec(b.as_str(), "%2!02d!", "%2!d!", mins);
    fill_field_exec(c.as_str(), "%1!02d!", "%1!d!", secs)
}

/// The format of an uptime measure: its `Format` field, else its
/// `Format` option.
pub fn uptime_format(config: &MeasureConfig) -> (r: Option<String>)
    requires
        config.properties.wf(),
    ensures
        ov(r) == match config.format {
            Some(f) => Some(f@),
            None => prop(*config, "format"@),
        },
{
    match &config.format {
        Some(f) => Some(f.clone()),
        None => match option(config, "format") {
            Some(s) => Some(s.to_string()),
            None => None,
        },
    }
}

} // verus!
