//! Disk space: which mount point and amount a measure reads, and the
//! totals a `statvfs` answer gives.
use crate::ini::MeasureConfig;
use crate::measures::string_measure::is_one;
use crate::measures::{first_of, opt_view, option, pick, prop};
use crate::text::{eq_ignore_case, eq_ignore_case_str, str_eq};
use vstd::prelude::*;

verus! {

/// The mount point a `Drive` option names: Windows' `C:` (or `C`, or
/// nothing) is the root.
pub open spec fn mount_of(drive: Option<Seq<char>>) -> Seq<char> {
    match drive {
        None => "/"@,
        Some(d) => if d.len() == 0 || eq_ignore_case(d, "c:"@) || eq_ignore_case(d, "c"@) {
            "/"@
        } else {
            d
        },
    }
}

/// The amount a disk measure shows: `total` with `Total=1`, else `percent`
/// with `Percent=1` (or `Percentual=1`), else `used` with
/// `InvertMeasure=1`, else `free`.
pub open spec fn disk_metric_name(c: MeasureConfig) -> Seq<char> {
    if is_one(prop(c, "total"@)) {
        "total"@
    } else if is_one(first_of(prop(c, "percent"@), prop(c, "percentual"@))) {
        "percent"@
    } else if is_one(prop(c, "invertmeasure"@)) {
        "used"@
    } else {
        "free"@
    }
}

/// The mount point and metric of a disk measure.
pub fn disk_settings(config: &MeasureConfig) -> (r: (String, &'static str))
    requires
        config.properties.wf(),
    ensures
        r.0@ == mount_of(prop(*config, "drive"@)),
        r.1@ == disk_metric_name(*config),
{
    let mount = match option(config, "drive") {
        None => "/".to_string(),
        Some(d) => if d.unicode_len() == 0 || eq_ignore_case_str(d, "c:") || eq_ignore_case_str(
            d,
            "c",
        ) {
            "/".to_string()
        } else {
            d.to_string()
        },
    };
    let one = |o: Option<&str>| -> (b: bool)
        ensures
            b == is_one(opt_view(o)),
        {
            match o {
                Some(v) => str_eq(v, "1"),
                None => false,
            }
        };
    let metric = if one(option(config, "total")) {
        "total"
    } else if one(pick(option(config, "percent"), option(config, "percentual"))) {
        "percent"
    } else if one(option(config, "invertmeasure")) {
        "used"
    } else {
        "free"
    };
    (mount, metric)
}

/// Disk amounts in bytes.
#[derive(Debug, Clone, Copy, PartialEq, Eq)]
pub struct DiskStats {
    pub total: u64,
    pub free: u64,
    pub used: u64,
}

/// The amounts of a `statvfs` answer: blocks of the fragment size (the
/// block size when that is 0), products wrapping; used is total less free,
/// at least 0.
pub open spec fn disk_stats_of(frsize: u64, bsize: u64, blocks: u64, bavail: u64) -> DiskStats {
    let b = if frsize > 0 {
        frsize
    } else {
        bsize
    };
    let total = vstd::wrapping::u64_specs::wrapping_mul(blocks, b);
    let free = vstd::wrapping::u64_specs::wrapping_mul(bavail, b);
    DiskStats {
        total,
        free,
        used: if total >= free {
            (total - free) as u64
        } else {
            0
        },
    }
}

impl DiskStats {
    /// The amounts of a `statvfs` answer.
    pub fn from_statvfs(frsize: u64, bsize: u64, blocks: u64, bavail: u64) -> (r: DiskStats)
        ensures
            r == disk_stats_of(frsize, bsize, blocks, bavail),
    {
        let b = if frsize > 0 {
            frsize
        } else {
            bsize
        };
        let total = blocks.wrapping_mul(b);
        let free = bavail.wrapping_mul(b);
        DiskStats { total, free, used: total.saturating_sub(free) }
    }
}

} // verus!
