//! Measures: how each reads its options, and the string formats and
//! counters they compute from.
pub mod calc_measure;
pub mod disk;
pub mod gpu;
pub mod memory;
pub mod network;
pub mod plugin_fallback;
pub mod mpris;
pub mod power;
pub mod substitute;
pub mod string_measure;
pub mod system;
pub mod thermal;
pub mod time;
pub mod uptime;

use crate::ini::MeasureConfig;
use crate::text::lower;
use vstd::prelude::*;

verus! {

/// The option `key` of a measure (keys are matched without case).
pub open spec fn prop(c: MeasureConfig, key: Seq<char>) -> Option<Seq<char>> {
    if c.properties@.contains_key(lower(key)) {
        Some(c.properties@[lower(key)])
    } else {
        None
    }
}

/// `a.or(b)`.
pub open spec fn first_of(a: Option<Seq<char>>, b: Option<Seq<char>>) -> Option<Seq<char>> {
    if a is Some {
        a
    } else {
        b
    }
}

/// `a.unwrap_or(d)`.
pub open spec fn or_default(a: Option<Seq<char>>, d: Seq<char>) -> Seq<char> {
    match a {
        Some(v) => v,
        None => d,
    }
}

pub open spec fn opt_view(o: Option<&str>) -> Option<Seq<char>> {
    match o {
        Some(v) => Some(v@),
        None => None,
    }
}

/// `a.or_else(|| b)`.
pub fn pick<'a>(a: Option<&'a str>, b: Option<&'a str>) -> (r: Option<&'a str>)
    ensures
        opt_view(r) == first_of(opt_view(a), opt_view(b)),
{
    match a {
        Some(v) => Some(v),
        None => b,
    }
}

/// The option `key` of a measure, looked up without regard to case.
pub fn option<'a>(c: &'a MeasureConfig, key: &str) -> (r: Option<&'a str>)
    requires
        c.properties.wf(),
    ensures
        opt_view(r) == prop(*c, key@),
{
    c.get(key)
}

/// `a.unwrap_or(d)` in ASCII lower case.
pub fn lower_or(a: Option<&str>, d: &str) -> (r: String)
    ensures
        r@ == lower(or_default(opt_view(a), d@)),
{
    match a {
        Some(v) => crate::text::lower_str(v),
        None => crate::text::lower_str(d),
    }
}

} // verus!
verus! {

pub open spec fn ov(o: Option<String>) -> Option<Seq<char>> {
    match o {
        Some(s) => Some(s@),
        None => None,
    }
}

} // verus!
verus! {

/// The kind of measure a configuration creates.
#[derive(Debug, Clone, Copy, PartialEq, Eq)]
pub enum MeasureKind {
    Time,
    Text,
    Calc,
    Cpu,
    Memory,
    Disk,
    Uptime,
    Net,
    Thermal,
    Power,
    Gpu,
    NowPlaying,
    ActionTimer,
    AudioLevel,
    Win7Audio,
    Process,
    WebParser,
    /// A plugin this engine does not implement.
    FallbackPlugin,
}

/// `s` without one trailing `.dll`.
pub open spec fn without_dll(s: Seq<char>) -> Seq<char> {
    if crate::text::ends_with(s, ".dll"@) {
        s.take(s.len() - 4)
    } else {
        s
    }
}

/// The kind a (lower-case) `Plugin=` name selects; `category` is the
/// lower-case `Category` option, which usage-monitor plugins go by.
pub open spec fn plugin_kind(p: Seq<char>, category: Seq<char>) -> MeasureKind {
    if p == "nowplaying"@ {
        MeasureKind::NowPlaying
    } else if p == "actiontimer"@ {
        MeasureKind::ActionTimer
    } else if p == "audiolevel"@ {
        MeasureKind::AudioLevel
    } else if p == "win7audio"@ {
        MeasureKind::Win7Audio
    } else if p == "process"@ {
        MeasureKind::Process
    } else if p == "webparser"@ {
        MeasureKind::WebParser
    } else if p == "coretemp"@ || p == "speedfan"@ {
        MeasureKind::Thermal
    } else if p == "powerplugin"@ || p == "batteryplugin"@ || p == "battery"@ {
        MeasureKind::Power
    } else if p == "msiafterburner"@ || p == "hwinfo"@ || p == "gpumonitor"@ {
        MeasureKind::Gpu
    } else if p == "usagemonitor"@ || p == "perfmon"@ {
        if crate::text::contains_seq(category, "gpu"@) {
            MeasureKind::Gpu
        } else if crate::text::contains_seq(category, "memory"@) || crate::text::contains_seq(
            category,
            "ram"@,
        ) {
            MeasureKind::Memory
        } else {
            MeasureKind::Cpu
        }
    } else {
        MeasureKind::FallbackPlugin
    }
}

/// The kind a (lower-case) `Measure=` type selects; `None` for a type this
/// engine does not know.
pub open spec fn measure_kind_of(t: Seq<char>, plugin: Seq<char>, category: Seq<char>) -> Option<
    MeasureKind,
> {
    if t == "time"@ {
        Some(MeasureKind::Time)
    } else if t == "string"@ {
        Some(MeasureKind::Text)
    } else if t == "calc"@ {
        Some(MeasureKind::Calc)
    } else if t == "cpu"@ {
        Some(MeasureKind::Cpu)
    } else if t == "physicalmemory"@ || t == "memory"@ || t == "swapmemory"@ {
        Some(MeasureKind::Memory)
    } else if t == "freediskspace"@ || t == "disk"@ {
        Some(MeasureKind::Disk)
    } else if t == "uptime"@ {
        Some(MeasureKind::Uptime)
    } else if t == "netin"@ || t == "netout"@ || t == "nettotal"@ || t == "net"@ {
        Some(MeasureKind::Net)
    } else if t == "thermal"@ || t == "temperature"@ || t == "coretemp"@ || t == "speedfan"@ {
        Some(MeasureKind::Thermal)
    } else if t == "power"@ || t == "battery"@ || t == "powerstate"@ || t == "powerstatus"@ || t
        == "powerplugin"@ {
        Some(MeasureKind::Power)
    } else if t == "gpu"@ || t == "gpumonitor"@ || t == "msiafterburner"@ || t == "hwinfo"@ {
        Some(MeasureKind::Gpu)
    } else if t == "nowplaying"@ {
        Some(MeasureKind::NowPlaying)
    } else if t == "actiontimer"@ {
        Some(MeasureKind::ActionTimer)
    } else if t == "audiolevel"@ {
        Some(MeasureKind::AudioLevel)
    } else if t == "win7audio"@ {
        Some(MeasureKind::Win7Audio)
    } else if t == "process"@ {
        Some(MeasureKind::Process)
    } else if t == "webparser"@ {
        Some(MeasureKind::WebParser)
    } else if t == "plugin"@ {
        Some(plugin_kind(without_dll(plugin), category))
    } else {
        None
    }
}

/// The `Plugin=` name of a configuration, lower-cased (empty if absent).
pub open spec fn plugin_name(c: MeasureConfig) -> Seq<char> {
    match c.plugin {
        Some(p) => lower(p@),
        None => seq![],
    }
}

/// The kind of measure a configuration creates (by its type, and for
/// `Measure=Plugin` by its plugin name without `.dll`), or `None` for an
/// unknown type.
pub fn measure_kind(config: &MeasureConfig) -> (r: Option<MeasureKind>)
    requires
        config.properties.wf(),
    ensures
        r == measure_kind_of(
            lower(config.measure_type@),
            plugin_name(*config),
            lower(or_default(prop(*config, "category"@), ""@)),
        ),
{
    let tl = crate::text::lower_str(config.measure_type.as_str());
    let t = tl.as_str();
    let eq = |lit: &str| -> (b: bool)
        ensures
            b == (t@ == lit@),
        { crate::text::str_eq(t, lit) };
    if eq("time") {
        Some(MeasureKind::Time)
    } else if eq("string") {
        Some(MeasureKind::Text)
    } else if eq("calc") {
        Some(MeasureKind::Calc)
    } else if eq("cpu") {
        Some(MeasureKind::Cpu)
    } else if eq("physicalmemory") || eq("memory") || eq("swapmemory") {
        Some(MeasureKind::Memory)
    } else if eq("freediskspace") || eq("disk") {
        Some(MeasureKind::Disk)
    } else if eq("uptime") {
        Some(MeasureKind::Uptime)
    } else if eq("netin") || eq("netout") || eq("nettotal") || eq("net") {
        Some(MeasureKind::Net)
    } else if eq("thermal") || eq("temperature") || eq("coretemp") || eq("speedfan") {
        Some(MeasureKind::Thermal)
    } else if eq("power") || eq("battery") || eq("powerstate") || eq("powerstatus") || eq(
        "powerplugin",
    ) {
        Some(MeasureKind::Power)
    } else if eq("gpu") || eq("gpumonitor") || eq("msiafterburner") || eq("hwinfo") {
        Some(MeasureKind::Gpu)
    } else if eq("nowplaying") {
        Some(MeasureKind::NowPlaying)
    } else if eq("actiontimer") {
        Some(MeasureKind::ActionTimer)
    } else if eq("audiolevel") {
        Some(MeasureKind::AudioLevel)
    } else if eq("win7audio") {
        Some(MeasureKind::Win7Audio)
    } else if eq("process") {
        Some(MeasureKind::Process)
    } else if eq("webparser") {
        Some(MeasureKind::WebParser)
    } else if eq("plugin") {
        let pl = match &config.plugin {
            Some(p) => crate::text::lower_str(p.as_str()),
            None => String::new(),
        };
        let pv = crate::text::to_chars(pl.as_str());
        let dll = crate::text::to_chars(".dll");
        proof {
            reveal_strlit(".dll");
        }
        let ps = if crate::text::ends_with_chars(&pv, &dll) {
            proof {
                assert(pv@.subrange(0, pv@.len() - 4) =~= pv@.take(pv@.len() - 4));
            }
            crate::text::string_of(&pv, 0, pv.len() - 4)
        } else {
            crate::text::string_of_all(&pv)
        };
        let category = lower_or(option(config, "category"), "");
        let cv = crate::text::to_chars(category.as_str());
        let q = ps.as_str();
        let peq = |lit: &str| -> (b: bool)
            ensures
                b == (q@ == lit@),
            { crate::text::str_eq(q, lit) };
        let has = |lit: &str| -> (b: bool)
            ensures
                b == crate::text::contains_seq(cv@, lit@),
            {
                let lv = crate::text::to_chars(lit);
                crate::text::contains_chars(&cv, &lv)
            };
        let k = if peq("nowplaying") {
            MeasureKind::NowPlaying
        } else if peq("actiontimer") {
            MeasureKind::ActionTimer
        } else if peq("audiolevel") {
            MeasureKind::AudioLevel
        } else if peq("win7audio") {
            MeasureKind::Win7Audio
        } else if peq("process") {
            MeasureKind::Process
        } else if peq("webparser") {
            MeasureKind::WebParser
        } else if peq("coretemp") || peq("speedfan") {
            MeasureKind::Thermal
        } else if peq("powerplugin") || peq("batteryplugin") || peq("battery") {
            MeasureKind::Power
        } else if peq("msiafterburner") || peq("hwinfo") || peq("gpumonitor") {
            MeasureKind::Gpu
        } else if peq("usagemonitor") || peq("perfmon") {
            if has("gpu") {
                MeasureKind::Gpu
            } else if has("memory") || has("ram") {
                MeasureKind::Memory
            } else {
                MeasureKind::Cpu
            }
        } else {
            MeasureKind::FallbackPlugin
        };
        Some(k)
    } else {
        None
    }
}

} // verus!
