//! Which GPU property a measure reports.
use crate::ini::MeasureConfig;
use crate::measures::{first_of, lower_or, option, or_default, pick, prop};
use crate::text::{lower, str_eq};
use vstd::prelude::*;

verus! {

/// Target GPU property to extract.
#[derive(Debug, Clone, Copy, PartialEq, Eq)]
pub enum GpuMetric {
    /// GPU core utilization percentage (0 to 100)
    Usage,
    /// GPU VRAM used in bytes
    MemoryUsed,
    /// GPU VRAM total in bytes
    MemoryTotal,
    /// GPU VRAM used percentage (0 to 100)
    MemoryPercent,
    /// GPU temperature in Celsius
    Temperature,
    /// GPU core clock frequency in MHz
    Clock,
    /// GPU model name
    Name,
}

/// The metric a (lower-case) type name selects; unknown names select usage.
pub open spec fn gpu_metric_named(s: Seq<char>) -> GpuMetric {
    if s == "vram"@ || s == "memory"@ || s == "memused"@ || s == "gpu memory"@ {
        GpuMetric::MemoryUsed
    } else if s == "vramtotal"@ || s == "memorytotal"@ || s == "memtotal"@ {
        GpuMetric::MemoryTotal
    } else if s == "vrampercent"@ || s == "memorypercent"@ || s == "mempercent"@ || s
        == "gpu memory usage"@ {
        GpuMetric::MemoryPercent
    } else if s == "temp"@ || s == "temperature"@ || s == "gputemp"@ || s == "gpu temperature"@ {
        GpuMetric::Temperature
    } else if s == "clock"@ || s == "gpuclock"@ || s == "coreclock"@ {
        GpuMetric::Clock
    } else if s == "name"@ || s == "gpuname"@ || s == "model"@ {
        GpuMetric::Name
    } else {
        GpuMetric::Usage
    }
}

/// The type name a GPU measure is configured with: the first of
/// `GpuType`, `Type`, `Counter`, `Entry`, else `usage`.
pub open spec fn gpu_type_of(c: MeasureConfig) -> Seq<char> {
    lower(
        or_default(
            first_of(
                first_of(first_of(prop(c, "gputype"@), prop(c, "type"@)), prop(c, "counter"@)),
                prop(c, "entry"@),
            ),
            "usage"@,
        ),
    )
}

impl GpuMetric {
    /// The metric a GPU measure's options select.
    pub fn from_config(config: &MeasureConfig) -> (r: GpuMetric)
        requires
            config.properties.wf(),
        ensures
            r == gpu_metric_named(gpu_type_of(*config)),
    {
        let a = pick(
            pick(pick(option(config, "gputype"), option(config, "type")), option(config, "counter")),
            option(config, "entry"),
        );
        let s = lower_or(a, "usage");
        let s = s.as_str();
        if str_eq(s, "vram") || str_eq(s, "memory") || str_eq(s, "memused") || str_eq(
            s,
            "gpu memory",
        ) {
            GpuMetric::MemoryUsed
        } else if str_eq(s, "vramtotal") || str_eq(s, "memorytotal") || str_eq(s, "memtotal") {
            GpuMetric::MemoryTotal
        } else if str_eq(s, "vrampercent") || str_eq(s, "memorypercent") || str_eq(s, "mempercent")
            || str_eq(s, "gpu memory usage") {
            GpuMetric::MemoryPercent
        } else if str_eq(s, "temp") || str_eq(s, "temperature") || str_eq(s, "gputemp") || str_eq(
            s,
            "gpu temperature",
        ) {
            GpuMetric::Temperature
        } else if str_eq(s, "clock") || str_eq(s, "gpuclock") || str_eq(s, "coreclock") {
            GpuMetric::Clock
        } else if str_eq(s, "name") || str_eq(s, "gpuname") || str_eq(s, "model") {
            GpuMetric::Name
        } else {
            GpuMetric::Usage
        }
    }
}

} // verus!
verus! {

/// The trimmed comma-separated fields of the `nvidia-smi` CSV line of GPU
/// `index` (the first line when there is no such line), when there are at
/// least six: usage, temperature, memory used and total (MiB), clock and
/// name.
pub open spec fn smi_fields(out: Seq<char>, index: nat) -> Option<Seq<Seq<char>>> {
    let ls = crate::text::lines_spec(out);
    if ls.len() == 0 {
        None
    } else {
        let line = if index < ls.len() {
            ls[index as int]
        } else {
            ls[0]
        };
        let parts = crate::text::split_on(line, ',').map_values(|p: Seq<char>| crate::text::trim(p));
        if parts.len() >= 6 {
            Some(parts)
        } else {
            None
        }
    }
}

/// Reads the fields of GPU `index` from `nvidia-smi` CSV output.
pub fn nvidia_smi_fields(out: &str, index: usize) -> (r: Option<Vec<String>>)
    ensures
        match smi_fields(out@, index as nat) {
            None => r is None,
            Some(f) => r matches Some(v) && crate::text::views(v@) == f,
        },
{
    let ls = crate::text::lines(out);
    let ghost lv = crate::text::views(ls@);
    if ls.len() == 0 {
        return None;
    }
    let line = if index < ls.len() {
        ls[index].as_str()
    } else {
        ls[0].as_str()
    };
    proof {
        assert(line@ == lv[if index < ls.len() { index as int } else { 0 }]);
    }
    let parts = crate::text::split_str(line, ',');
    let ghost pv = crate::text::views(parts@);
    if parts.len() < 6 {
        return None;
    }
    let mut out_fields: Vec<String> = Vec::new();
    let mut i: usize = 0;
    while i < parts.len()
        invariant
            pv == crate::text::views(parts@),
            i <= parts@.len(),
            out_fields@.len() == i,
            crate::text::views(out_fields@) == pv.take(i as int).map_values(
                |p: Seq<char>| crate::text::trim(p),
            ),
        decreases parts.len() - i,
    {
        let t = crate::text::trim_str(parts[i].as_str());
        let ghost before = out_fields@;
        out_fields.push(t);
        proof {
            let target = pv.take(i + 1).map_values(|p: Seq<char>| crate::text::trim(p));
            let prev = pv.take(i as int).map_values(|p: Seq<char>| crate::text::trim(p));
            assert(pv[i as int] == parts@[i as int]@);
            assert forall|k: int| 0 <= k <= i implies crate::text::views(out_fields@)[k]
                == target[k] by {
                if k < i {
                    assert(out_fields@[k] == before[k]);
                    assert(crate::text::views(before)[k] == prev[k]);
                }
            }
            assert(crate::text::views(out_fields@) =~= target);
        }
        i = i + 1;
    }
    proof {
        assert(pv.take(parts@.len() as int) =~= pv);
    }
    Some(out_fields)
}

/// A `/sys/class/drm` entry that is a whole card (`card0`), not one of
/// its connectors (`card0-DP-1`).
pub open spec fn drm_card_name(name: Seq<char>) -> bool {
    crate::text::starts_with(name, "card"@) && !crate::text::has_char(name, '-')
}

/// Whether a `/sys/class/drm` entry name is a whole card.
pub fn is_drm_card(name: &str) -> (r: bool)
    ensures
        r == drm_card_name(name@),
{
    let v = crate::text::to_chars(name);
    if !crate::text::starts_with_str(&v, "card") {
        return false;
    }
    let mut i: usize = 0;
    while i < v.len()
        invariant
            v@ == name@,
            i <= v@.len(),
            forall|k: int| 0 <= k < i ==> v@[k] != '-',
        decreases v.len() - i,
    {
        if v[i] == '-' {
            return false;
        }
        i = i + 1;
    }
    true
}

} // verus!
