//! Which battery and power property a measure reports.
use crate::ini::MeasureConfig;
use crate::measures::{first_of, lower_or, option, or_default, pick, prop};
use crate::text::{contains_seq, lower, starts_with, str_eq};
use vstd::prelude::*;

verus! {

#[derive(Debug, Clone, Copy, PartialEq, Eq)]
pub enum PowerMetric {
    /// Battery charge level percentage (0 to 100)
    Percent,
    /// Power status code: 0 = Battery, 1 = Charging, 2 = Critical, 3 = High/Full
    Status,
    /// AC line status: 0 = Offline/Battery, 1 = Online/AC Connected
    ACLine,
    /// Estimated battery lifetime remaining in seconds (-1 if on AC or unknown)
    Lifetime,
    /// Current CPU operating frequency in Hz / MHz
    Hz,
    /// Human-readable battery state ("Charging", "Discharging", "Full")
    StateText,
}

/// The metric a (lower-case) state name selects; unknown names select the
/// charge percentage.
pub open spec fn power_metric_named(s: Seq<char>) -> PowerMetric {
    if s == "status"@ || s == "state"@ {
        PowerMetric::Status
    } else if s == "statustext"@ || s == "statusstring"@ || s == "string"@ {
        PowerMetric::StateText
    } else if s == "acline"@ || s == "ac"@ || s == "online"@ {
        PowerMetric::ACLine
    } else if s == "lifetime"@ || s == "remaining"@ || s == "timeremaining"@ {
        PowerMetric::Lifetime
    } else if s == "hz"@ || s == "cpufreq"@ || s == "freq"@ || s == "frequency"@ {
        PowerMetric::Hz
    } else {
        PowerMetric::Percent
    }
}

/// The first of `PowerState`, `Type`, `Metric`, else `percent`, lower-case.
pub open spec fn power_state_of(c: MeasureConfig) -> Seq<char> {
    lower(
        or_default(
            first_of(first_of(prop(c, "powerstate"@), prop(c, "type"@)), prop(c, "metric"@)),
            "percent"@,
        ),
    )
}

impl PowerMetric {
    /// The metric a power measure's options select.
    pub fn from_config(config: &MeasureConfig) -> (r: PowerMetric)
        requires
            config.properties.wf(),
        ensures
            r == power_metric_named(power_state_of(*config)),
    {
        let a = pick(
            pick(option(config, "powerstate"), option(config, "type")),
            option(config, "metric"),
        );
        let s = lower_or(a, "percent");
        let s = s.as_str();
        if str_eq(s, "status") || str_eq(s, "state") {
            PowerMetric::Status
        } else if str_eq(s, "statustext") || str_eq(s, "statusstring") || str_eq(s, "string") {
            PowerMetric::StateText
        } else if str_eq(s, "acline") || str_eq(s, "ac") || str_eq(s, "online") {
            PowerMetric::ACLine
        } else if str_eq(s, "lifetime") || str_eq(s, "remaining") || str_eq(s, "timeremaining") {
            PowerMetric::Lifetime
        } else if str_eq(s, "hz") || str_eq(s, "cpufreq") || str_eq(s, "freq") || str_eq(
            s,
            "frequency",
        ) {
            PowerMetric::Hz
        } else {
            PowerMetric::Percent
        }
    }
}

/// What an entry of the power-supply directory is, by its name.
#[derive(Debug, Clone, Copy, PartialEq, Eq)]
pub enum SupplyRole {
    /// A mains adapter (`AC*`, `ADP*`, `ucsi*`).
    Adapter,
    /// A battery (`BAT*`).
    Battery,
    /// Anything else, which is not read.
    Other,
}

pub open spec fn supply_role_of(name: Seq<char>) -> SupplyRole {
    if starts_with(name, "AC"@) || starts_with(name, "ADP"@) || starts_with(name, "ucsi"@) {
        SupplyRole::Adapter
    } else if starts_with(name, "BAT"@) {
        SupplyRole::Battery
    } else {
        SupplyRole::Other
    }
}

/// The role of a power-supply entry named `name`.
pub fn supply_role(name: &str) -> (r: SupplyRole)
    ensures
        r == supply_role_of(name@),
{
    let v = crate::text::to_chars(name);
    if crate::text::starts_with_str(&v, "AC") || crate::text::starts_with_str(&v, "ADP")
        || crate::text::starts_with_str(&v, "ucsi") {
        SupplyRole::Adapter
    } else if crate::text::starts_with_str(&v, "BAT") {
        SupplyRole::Battery
    } else {
        SupplyRole::Other
    }
}

/// Whether mains power is known to be on after reading an adapter's
/// `online` value: on when it reads 1; off when it reads anything else and
/// nothing was known before; else what was known.
pub fn ac_after(known: Option<bool>, online: u64) -> (r: Option<bool>)
    ensures
        r == (if online == 1 {
            Some(true)
        } else if known is None {
            Some(false)
        } else {
            known
        }),
{
    if online == 1 {
        Some(true)
    } else if known.is_none() {
        Some(false)
    } else {
        known
    }
}

/// The status code of a battery: 1 when its status text mentions
/// `charging` (in any case, so `Discharging` too), else 2 when the charge
/// is critical (at most 10 percent), else 3 when it is high (at least 95
/// percent), else 0.
pub open spec fn status_code_of(status: Seq<char>, critical: bool, high: bool) -> u8 {
    if contains_seq(lower(status), "charging"@) {
        1
    } else if critical {
        2
    } else if high {
        3
    } else {
        0
    }
}

/// The status code for a status text and the two charge bands, which the
/// caller reads off the charge level.
pub fn status_code(status: &str, critical: bool, high: bool) -> (r: u8)
    ensures
        r == status_code_of(status@, critical, high),
{
    let l = crate::text::lower_str(status);
    let lv = crate::text::to_chars(l.as_str());
    let pat = crate::text::to_chars("charging");
    if crate::text::contains_chars(&lv, &pat) {
        1
    } else if critical {
        2
    } else if high {
        3
    } else {
        0
    }
}

} // verus!
