//! Physical and swap memory from `/proc/meminfo`: reading the counters,
//! the derived used and free amounts, and which amount a measure shows.
use crate::ini::MeasureConfig;
use crate::measures::system::{bounds_ok, word_bounds, words};
use crate::measures::{first_of, opt_view, option, pick, prop};
use crate::text::{
    eq_ignore_case, eq_ignore_case_str, eq_str, lines_spec, parse_uint, parse_uint_range, str_eq,
    to_chars, trim, trim_bounds, views,
};
use crate::variables::{find_from, lemma_find_from};
use vstd::prelude::*;

verus! {

/// The kilobyte amount of a value text: its first word as a `u64`, or 0.
pub open spec fn first_word_kb(s: Seq<char>) -> u64 {
    let w = words(s);
    if w.len() > 0 {
        match parse_uint(w[0], u64::MAX as nat) {
            Some(n) => n as u64,
            None => 0,
        }
    } else {
        0
    }
}

/// The key and kilobyte amount of a `Key:  value kB` line; `None` for a
/// line without a colon.
pub open spec fn mem_entry(l: Seq<char>) -> Option<(Seq<char>, u64)> {
    let c = find_from(l, 0, ':');
    if c < 0 {
        None
    } else {
        Some((trim(l.take(c)), first_word_kb(l.skip(c + 1))))
    }
}

/// The bytes (kilobytes times 1024, wrapping) of the last line with `key`,
/// or 0 when no line has it.
pub open spec fn mem_field(ls: Seq<Seq<char>>, key: Seq<char>) -> u64
    decreases ls.len(),
{
    if ls.len() == 0 {
        0
    } else {
        match mem_entry(ls.last()) {
            Some((k, kb)) => if k == key {
                vstd::wrapping::u64_specs::wrapping_mul(kb, 1024)
            } else {
                mem_field(ls.drop_last(), key)
            },
            None => mem_field(ls.drop_last(), key),
        }
    }
}

/// The counters of `/proc/meminfo`, in bytes.
#[derive(Debug, Clone, Copy, Default, PartialEq, Eq)]
pub struct MemInfo {
    pub total: u64,
    pub free: u64,
    pub available: u64,
    pub buffers: u64,
    pub cached: u64,
    pub swap_total: u64,
    pub swap_free: u64,
}

/// The counters a `/proc/meminfo` text gives.
pub open spec fn mem_info_of(text: Seq<char>) -> MemInfo {
    let ls = lines_spec(text);
    MemInfo {
        total: mem_field(ls, "MemTotal"@),
        free: mem_field(ls, "MemFree"@),
        available: mem_field(ls, "MemAvailable"@),
        buffers: mem_field(ls, "Buffers"@),
        cached: mem_field(ls, "Cached"@),
        swap_total: mem_field(ls, "SwapTotal"@),
        swap_free: mem_field(ls, "SwapFree"@),
    }
}

/// The kilobytes of the value text `v[lo..]`.
fn first_word_kb_exec(v: &Vec<char>, lo: usize) -> (r: u64)
    requires
        lo <= v@.len(),
    ensures
        r == first_word_kb(v@.skip(lo as int)),
{
    let rest = to_chars_from(v, lo);
    let b = word_bounds(&rest);
    if b.len() == 0 {
        return 0;
    }
    let (s, e) = b[0];
    assert(rest@.subrange(s as int, e as int) == words(rest@)[0]);
    match parse_uint_range(&rest, s, e, u64::MAX) {
        Some(n) => n,
        None => 0,
    }
}

/// A copy of `v[lo..]`.
pub(crate) fn to_chars_from(v: &Vec<char>, lo: usize) -> (r: Vec<char>)
    requires
        lo <= v@.len(),
    ensures
        r@ == v@.skip(lo as int),
{
    let mut r: Vec<char> = Vec::new();
    let mut i = lo;
    while i < v.len()
        invariant
            lo <= i <= v@.len(),
            r@ == v@.subrange(lo as int, i as int),
        decreases v.len() - i,
    {
        r.push(v[i]);
        i = i + 1;
        assert(r@ =~= v@.subrange(lo as int, i as int));
    }
    assert(r@ =~= v@.skip(lo as int));
    r
}

/// Which counter a meminfo key names.
enum MemKey {
    Total,
    Free,
    Available,
    Buffers,
    Cached,
    SwapTotal,
    SwapFree,
    Other,
}

/// Reads one line: its key and kilobytes, if it has a colon.
fn mem_entry_exec(line: &str) -> (r: Option<(MemKey, u64)>)
    ensures
        match mem_entry(line@) {
            None => r is None,
            Some((k, kb)) => r matches Some((key, n)) && n == kb && (key is Total <==> k
                == "MemTotal"@) && (key is Free <==> k == "MemFree"@) && (key is Available <==> k
                == "MemAvailable"@) && (key is Buffers <==> k == "Buffers"@) && (key is Cached
                <==> k == "Cached"@) && (key is SwapTotal <==> k == "SwapTotal"@) && (key is SwapFree
                <==> k == "SwapFree"@),
        },
{
    let v = to_chars(line);
    let mut c: usize = 0;
    while c < v.len() && v[c] != ':'
        invariant
            v@ == line@,
            c <= v@.len(),
            find_from(v@, 0, ':') == find_from(v@, c as int, ':'),
        decreases v.len() - c,
    {
        c = c + 1;
    }
    proof {
        lemma_find_from(v@, 0, ':');
    }
    if c >= v.len() {
        return None;
    }
    let (a, b) = trim_bounds(&v, 0, c);
    let key = crate::text::string_of(&v, a, b);
    proof {
        assert(v@.subrange(0, c as int) =~= v@.take(c as int));
    }
    let kb = first_word_kb_exec(&v, c + 1);
    assert(find_from(v@, c as int, ':') == c);
    assert(key@ == trim(v@.take(c as int)));
    assert(mem_entry(line@) == Some((key@, kb)));
    let k = key.as_str();
    proof {
        reveal_strlit("MemTotal");
        reveal_strlit("MemFree");
        reveal_strlit("MemAvailable");
        reveal_strlit("Buffers");
        reveal_strlit("Cached");
        reveal_strlit("SwapTotal");
        reveal_strlit("SwapFree");
        // The keys differ in length, but for two pairs that differ in
        // their first letter.
        assert("MemTotal"@.len() == 8 && "MemFree"@.len() == 7 && "MemAvailable"@.len() == 12);
        assert("Buffers"@.len() == 7 && "Cached"@.len() == 6 && "SwapTotal"@.len() == 9);
        assert("SwapFree"@.len() == 8);
        assert("MemFree"@[0] != "Buffers"@[0] && "MemTotal"@[0] != "SwapFree"@[0]);
    }
    let which = if str_eq(k, "MemTotal") {
        MemKey::Total
    } else if str_eq(k, "MemFree") {
        MemKey::Free
    } else if str_eq(k, "MemAvailable") {
        MemKey::Available
    } else if str_eq(k, "Buffers") {
        MemKey::Buffers
    } else if str_eq(k, "Cached") {
        MemKey::Cached
    } else if str_eq(k, "SwapTotal") {
        MemKey::SwapTotal
    } else if str_eq(k, "SwapFree") {
        MemKey::SwapFree
    } else {
        MemKey::Other
    };
    Some((which, kb))
}

/// Reads the counters of a `/proc/meminfo` text. A counter is the value of
/// the last line with its key, in kilobytes times 1024; a missing counter
/// is 0.
pub fn parse_meminfo(text: &str) -> (r: MemInfo)
    ensures
        r == mem_info_of(text@),
{
    let ls = crate::text::lines(text);
    let ghost lv = views(ls@);
    let mut m = MemInfo {
        total: 0,
        free: 0,
        available: 0,
        buffers: 0,
        cached: 0,
        swap_total: 0,
        swap_free: 0,
    };
    let mut i: usize = 0;
    while i < ls.len()
        invariant
            lv == views(ls@),
            lv == lines_spec(text@),
            i <= ls@.len(),
            m.total == mem_field(lv.take(i as int), "MemTotal"@),
            m.free == mem_field(lv.take(i as int), "MemFree"@),
            m.available == mem_field(lv.take(i as int), "MemAvailable"@),
            m.buffers == mem_field(lv.take(i as int), "Buffers"@),
            m.cached == mem_field(lv.take(i as int), "Cached"@),
            m.swap_total == mem_field(lv.take(i as int), "SwapTotal"@),
            m.swap_free == mem_field(lv.take(i as int), "SwapFree"@),
        decreases ls.len() - i,
    {
        proof {
            assert(lv.take(i + 1).drop_last() =~= lv.take(i as int));
            assert(lv.take(i + 1).last() == ls@[i as int]@);
        }
        match mem_entry_exec(ls[i].as_str()) {
            None => {},
            Some((key, kb)) => {
                let bytes = kb.wrapping_mul(1024);
                match key {
                    MemKey::Total => m.total = bytes,
                    MemKey::Free => m.free = bytes,
                    MemKey::Available => m.available = bytes,
                    MemKey::Buffers => m.buffers = bytes,
                    MemKey::Cached => m.cached = bytes,
                    MemKey::SwapTotal => m.swap_total = bytes,
                    MemKey::SwapFree => m.swap_free = bytes,
                    MemKey::Other => {},
                }
            },
        }
        i = i + 1;
    }
    proof {
        assert(lv.take(ls@.len() as int) =~= lv);
    }
    m
}

impl MemInfo {
    /// Free memory: `MemAvailable` when the kernel reports it, else free
    /// plus buffers plus cache (wrapping).
    pub open spec fn free_spec(self) -> u64 {
        if self.available > 0 {
            self.available
        } else {
            vstd::wrapping::u64_specs::wrapping_add(
                vstd::wrapping::u64_specs::wrapping_add(self.free, self.buffers),
                self.cached,
            )
        }
    }

    /// Free memory in bytes.
    pub fn free_bytes(&self) -> (r: u64)
        ensures
            r == self.free_spec(),
    {
        if self.available > 0 {
            self.available
        } else {
            self.free.wrapping_add(self.buffers).wrapping_add(self.cached)
        }
    }

    /// Used memory in bytes: total less free, at least 0.
    pub fn used_bytes(&self) -> (r: u64)
        ensures
            r == (if self.total >= self.free_spec() {
                self.total - self.free_spec()
            } else {
                0
            }),
    {
        self.total.saturating_sub(self.free_bytes())
    }

    /// Used swap in bytes: swap total less swap free, at least 0.
    pub fn swap_used_bytes(&self) -> (r: u64)
        ensures
            r == (if self.swap_total >= self.swap_free {
                self.swap_total - self.swap_free
            } else {
                0
            }),
    {
        self.swap_total.saturating_sub(self.swap_free)
    }
}

/// The amount a memory measure shows.
#[derive(Debug, Clone, Copy, PartialEq, Eq)]
pub enum MemoryMetric {
    UsedPercent,
    Total,
    Used,
    Free,
    FreePercent,
    SwapTotal,
    SwapUsed,
    SwapFree,
    SwapPercent,
}

/// The amount a (lower-case) metric name selects; unknown names select
/// the used percentage.
pub open spec fn memory_metric_named(s: Seq<char>) -> MemoryMetric {
    if s == "used_percent"@ || s == "percent"@ {
        MemoryMetric::UsedPercent
    } else if s == "total"@ || s == "total_bytes"@ {
        MemoryMetric::Total
    } else if s == "used"@ || s == "used_bytes"@ {
        MemoryMetric::Used
    } else if s == "free"@ || s == "free_bytes"@ {
        MemoryMetric::Free
    } else if s == "free_percent"@ {
        MemoryMetric::FreePercent
    } else if s == "swap_total"@ {
        MemoryMetric::SwapTotal
    } else if s == "swap_used"@ {
        MemoryMetric::SwapUsed
    } else if s == "swap_free"@ {
        MemoryMetric::SwapFree
    } else if s == "swap_percent"@ {
        MemoryMetric::SwapPercent
    } else {
        MemoryMetric::UsedPercent
    }
}

/// The metric name a memory measure's options select: for a
/// `SwapMemory` measure `swap_total`, `swap_percent` or `swap_used`, else
/// `total`, `used_percent` or `used`, as `Total=1` or `Percent=1` (or
/// `Percentual=1` when `Percent` is absent) asks.
pub open spec fn memory_metric_name(c: MeasureConfig) -> Seq<char> {
    let is_swap = eq_ignore_case(c.measure_type@, "swapmemory"@);
    let is_total = prop(c, "total"@) == Some("1"@);
    let is_percent = first_of(prop(c, "percent"@), prop(c, "percentual"@)) == Some("1"@);
    if is_swap {
        if is_total {
            "swap_total"@
        } else if is_percent {
            "swap_percent"@
        } else {
            "swap_used"@
        }
    } else if is_total {
        "total"@
    } else if is_percent {
        "used_percent"@
    } else {
        "used"@
    }
}

impl MemoryMetric {
    /// The amount a metric name selects (the name is lower-cased first).
    pub fn named(name: &str) -> (r: MemoryMetric)
        ensures
            r == memory_metric_named(crate::text::lower(name@)),
    {
        let l = crate::text::lower_str(name);
        let s = l.as_str();
        if str_eq(s, "used_percent") || str_eq(s, "percent") {
            MemoryMetric::UsedPercent
        } else if str_eq(s, "total") || str_eq(s, "total_bytes") {
            MemoryMetric::Total
        } else if str_eq(s, "used") || str_eq(s, "used_bytes") {
            MemoryMetric::Used
        } else if str_eq(s, "free") || str_eq(s, "free_bytes") {
            MemoryMetric::Free
        } else if str_eq(s, "free_percent") {
            MemoryMetric::FreePercent
        } else if str_eq(s, "swap_total") {
            MemoryMetric::SwapTotal
        } else if str_eq(s, "swap_used") {
            MemoryMetric::SwapUsed
        } else if str_eq(s, "swap_free") {
            MemoryMetric::SwapFree
        } else if str_eq(s, "swap_percent") {
            MemoryMetric::SwapPercent
        } else {
            MemoryMetric::UsedPercent
        }
    }
}

/// The metric name a memory measure is configured with.
pub fn memory_metric_for(config: &MeasureConfig) -> (r: &'static str)
    requires
        config.properties.wf(),
    ensures
        r@ == memory_metric_name(*config),
{
    let is_swap = eq_ignore_case_str(config.measure_type.as_str(), "swapmemory");
    let is_total = match option(config, "total") {
        Some(v) => str_eq(v, "1"),
        None => false,
    };
    let is_percent = match pick(option(config, "percent"), option(config, "percentual")) {
        Some(v) => str_eq(v, "1"),
        None => false,
    };
    if is_swap {
        if is_total {
            "swap_total"
        } else if is_percent {
            "swap_percent"
        } else {
            "swap_used"
        }
    } else if is_total {
        "total"
    } else if is_percent {
        "used_percent"
    } else {
        "used"
    }
}

} // verus!
