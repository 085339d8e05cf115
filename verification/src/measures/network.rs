//! Network traffic from `/proc/net/dev`: which interfaces count, the byte
//! totals of a sample, and the bytes moved since the previous sample.
use crate::ini::MeasureConfig;
use crate::measures::memory::to_chars_from;
use crate::measures::system::{word_bounds, words};
use crate::text::{
    eq_ignore_case, eq_ignore_case_str, lines_spec, lower, parse_uint, parse_uint_range, str_eq,
    to_chars, trim, trim_bounds, views,
};
use crate::variables::{find_from, lemma_find_from};
use vstd::prelude::*;

verus! {

/// Which direction of traffic a network measure counts.
#[derive(Debug, Clone, Copy, PartialEq, Eq)]
pub enum NetMeasureType {
    In,
    Out,
    Total,
}

/// The direction a (lower-case) measure type selects.
pub open spec fn net_type_named(s: Seq<char>) -> NetMeasureType {
    if s == "netin"@ {
        NetMeasureType::In
    } else if s == "netout"@ {
        NetMeasureType::Out
    } else {
        NetMeasureType::Total
    }
}

impl NetMeasureType {
    /// The direction a measure's type (`NetIn`, `NetOut`, else total)
    /// selects.
    pub fn from_config(config: &MeasureConfig) -> (r: NetMeasureType)
        ensures
            r == net_type_named(lower(config.measure_type@)),
    {
        let l = crate::text::lower_str(config.measure_type.as_str());
        if str_eq(l.as_str(), "netin") {
            NetMeasureType::In
        } else if str_eq(l.as_str(), "netout") {
            NetMeasureType::Out
        } else {
            NetMeasureType::Total
        }
    }
}

/// Word `k` of `w` as a `u64`, or 0 when missing or not a number.
pub open spec fn word_value(w: Seq<Seq<char>>, k: int) -> u64 {
    if 0 <= k < w.len() {
        match parse_uint(w[k], u64::MAX as nat) {
            Some(n) => n as u64,
            None => 0,
        }
    } else {
        0
    }
}

/// The interface name, received bytes (first field) and transmitted
/// bytes (ninth field) of a `name: fields...` line.
pub open spec fn net_line(l: Seq<char>) -> Option<(Seq<char>, u64, u64)> {
    let c = find_from(l, 0, ':');
    if c < 0 {
        None
    } else {
        let w = words(l.skip(c + 1));
        Some((trim(l.take(c)), word_value(w, 0), word_value(w, 8)))
    }
}

/// Whether an interface counts: with a configured interface other than
/// `all` or `0`, the one of that name (without case); otherwise every
/// interface but the loopback `lo`.
pub open spec fn iface_selected(name: Seq<char>, target: Option<Seq<char>>) -> bool {
    match target {
        Some(t) => if eq_ignore_case(t, "all"@) || eq_ignore_case(t, "0"@) {
            name != "lo"@
        } else {
            eq_ignore_case(name, t)
        },
        None => name != "lo"@,
    }
}

/// The received and transmitted totals (wrapping sums) over the
/// interface lines `ls`.
pub open spec fn net_totals(ls: Seq<Seq<char>>, target: Option<Seq<char>>) -> (u64, u64)
    decreases ls.len(),
{
    if ls.len() == 0 {
        (0, 0)
    } else {
        let (rx, tx) = net_totals(ls.drop_last(), target);
        match net_line(ls.last()) {
            Some((n, r, t)) => if iface_selected(n, target) {
                (
                    vstd::wrapping::u64_specs::wrapping_add(rx, r),
                    vstd::wrapping::u64_specs::wrapping_add(tx, t),
                )
            } else {
                (rx, tx)
            },
            None => (rx, tx),
        }
    }
}

/// The totals of a `/proc/net/dev` text, whose first two lines are headers.
pub open spec fn net_dev_totals(text: Seq<char>, target: Option<Seq<char>>) -> (u64, u64) {
    let ls = lines_spec(text);
    if ls.len() <= 2 {
        (0, 0)
    } else {
        net_totals(ls.skip(2), target)
    }
}

fn word_value_exec(v: &Vec<char>, b: &Vec<(usize, usize)>, k: usize) -> (r: u64)
    requires
        crate::measures::system::bounds_ok(v@, b@),
    ensures
        r == word_value(words(v@), k as int),
{
    if k >= b.len() {
        return 0;
    }
    let (s, e) = b[k];
    assert(v@.subrange(s as int, e as int) == words(v@)[k as int]);
    match parse_uint_range(v, s, e, u64::MAX) {
        Some(n) => n,
        None => 0,
    }
}

/// Reads one interface line.
fn net_line_exec(line: &str) -> (r: Option<(String, u64, u64)>)
    ensures
        match net_line(line@) {
            None => r is None,
            Some((n, rx, tx)) => r matches Some((name, a, b)) && name@ == n && a == rx && b == tx,
        },
{
    let v = to_chars(line);
    let mut c: usize = 0;
    while c < v.len() && v[c] != ':'
        invariant
            v@ == line@,
            c <= v@.len(),
            find_from(v@, 0, ':') == find_from(v@, c as int, ':'),
        decreases v.len() - c,
    {
        c = c + 1;
    }
    proof {
        lemma_find_from(v@, 0, ':');
    }
    if c >= v.len() {
        return None;
    }
    let (a, b) = trim_bounds(&v, 0, c);
    let name = crate::text::string_of(&v, a, b);
    let rest = to_chars_from(&v, c + 1);
    let bounds = word_bounds(&rest);
    let rx = word_value_exec(&rest, &bounds, 0);
    let tx = word_value_exec(&rest, &bounds, 8);
    proof {
        assert(v@.subrange(0, c as int) =~= v@.take(c as int));
        assert(find_from(v@, c as int, ':') == c);
    }
    Some((name, rx, tx))
}

/// Whether an interface counts for the configured interface.
fn iface_selected_exec(name: &str, target: Option<&str>) -> (r: bool)
    ensures
        r == iface_selected(name@, crate::measures::opt_view(target)),
{
    match target {
        Some(t) => if eq_ignore_case_str(t, "all") || eq_ignore_case_str(t, "0") {
            !str_eq(name, "lo")
        } else {
            eq_ignore_case_str(name, t)
        },
        None => !str_eq(name, "lo"),
    }
}

/// Sums the received and transmitted bytes of the counted interfaces in a
/// `/proc/net/dev` text (skipping its two header lines).
pub fn parse_net_dev(text: &str, interface: Option<&str>) -> (r: (u64, u64))
    ensures
        r == net_dev_totals(text@, crate::measures::opt_view(interface)),
{
    let ls = crate::text::lines(text);
    let ghost lv = views(ls@);
    let ghost target = crate::measures::opt_view(interface);
    if ls.len() <= 2 {
        return (0, 0);
    }
    let ghost body = lv.skip(2);
    let mut rx: u64 = 0;
    let mut tx: u64 = 0;
    let mut i: usize = 2;
    proof {
        assert(body.take(0) =~= Seq::<Seq<char>>::empty());
    }
    while i < ls.len()
        invariant
            lv == views(ls@),
            lv == lines_spec(text@),
            2 <= i <= ls@.len(),
            body == lv.skip(2),
            target == crate::measures::opt_view(interface),
            (rx, tx) == net_totals(body.take(i - 2), target),
        decreases ls.len() - i,
    {
        proof {
            assert(body.take(i - 1).drop_last() =~= body.take(i - 2));
            assert(lv[i as int] == ls@[i as int]@);
            assert(body.take(i - 1).last() == ls@[i as int]@);
        }
        match net_line_exec(ls[i].as_str()) {
            None => {},
            Some((name, r, t)) => {
                if iface_selected_exec(name.as_str(), interface) {
                    rx = rx.wrapping_add(r);
                    tx = tx.wrapping_add(t);
                }
            },
        }
        i = i + 1;
    }
    proof {
        assert(body.take(ls@.len() - 2) =~= body);
    }
    (rx, tx)
}

/// The byte totals of the previous sample, if any.
#[derive(Debug, Clone, Copy, Default)]
pub struct NetCounters {
    pub prev: Option<(u64, u64)>,
}

/// Bytes moved in a direction between two samples (each direction at
/// least 0; their sum wrapping).
pub open spec fn net_delta(prev: (u64, u64), curr: (u64, u64), kind: NetMeasureType) -> u64 {
    let drx = if curr.0 >= prev.0 {
        (curr.0 - prev.0) as u64
    } else {
        0
    };
    let dtx = if curr.1 >= prev.1 {
        (curr.1 - prev.1) as u64
    } else {
        0
    };
    match kind {
        NetMeasureType::In => drx,
        NetMeasureType::Out => dtx,
        NetMeasureType::Total => vstd::wrapping::u64_specs::wrapping_add(drx, dtx),
    }
}

impl NetCounters {
    /// No sample yet.
    pub fn new() -> (r: Self)
        ensures
            r.prev is None,
    {
        NetCounters { prev: None }
    }

    /// Records a sample; returns the bytes moved since the previous one in
    /// the measured direction, or `None` for the first sample.
    pub fn record(&mut self, totals: (u64, u64), kind: NetMeasureType) -> (r: Option<u64>)
        ensures
            final(self).prev == Some(totals),
            match old(self).prev {
                None => r is None,
                Some(p) => r == Some(net_delta(p, totals, kind)),
            },
    {
        let r = match self.prev {
            None => None,
            Some((prx, ptx)) => {
                let drx = totals.0.saturating_sub(prx);
                let dtx = totals.1.saturating_sub(ptx);
                Some(
                    match kind {
                        NetMeasureType::In => drx,
                        NetMeasureType::Out => dtx,
                        NetMeasureType::Total => drx.wrapping_add(dtx),
                    },
                )
            },
        };
        self.prev = Some(totals);
        r
    }
}

} // verus!
