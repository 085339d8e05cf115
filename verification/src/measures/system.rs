//! CPU usage from `/proc/stat`: reading a CPU line, choosing the line of
//! the configured processor, and the counters between two samples.
use crate::text::{is_ws, lines_spec, parse_uint, parse_uint_range, starts_with, to_chars};
use vstd::prelude::*;

verus! {

/// The jiffy counters of one CPU line.
#[derive(Debug, Clone, Copy, Default, PartialEq, Eq)]
pub struct CpuTimes {
    pub user: u64,
    pub nice: u64,
    pub system: u64,
    pub idle: u64,
    pub iowait: u64,
    pub irq: u64,
    pub softirq: u64,
    pub steal: u64,
}

/// Words ended so far and the word being read.
pub struct WordState {
    pub done: Seq<Seq<char>>,
    pub cur: Seq<char>,
}

pub open spec fn words_fold(s: Seq<char>) -> WordState
    decreases s.len(),
{
    if s.len() == 0 {
        WordState { done: seq![], cur: seq![] }
    } else {
        let st = words_fold(s.drop_last());
        if is_ws(s.last()) {
            if st.cur.len() > 0 {
                WordState { done: st.done.push(st.cur), cur: seq![] }
            } else {
                st
            }
        } else {
            WordState { done: st.done, cur: st.cur.push(s.last()) }
        }
    }
}

/// `str::split_whitespace`: the non-empty runs between white space.
pub open spec fn words(s: Seq<char>) -> Seq<Seq<char>> {
    let st = words_fold(s);
    if st.cur.len() > 0 {
        st.done.push(st.cur)
    } else {
        st.done
    }
}

/// Counter `k` of a CPU line: the `k`-th word after the label, as a `u64`,
/// or 0 when missing or not a number.
pub open spec fn counter(w: Seq<Seq<char>>, k: int) -> u64 {
    if k + 1 < w.len() {
        match parse_uint(w[k + 1], u64::MAX as nat) {
            Some(n) => n as u64,
            None => 0,
        }
    } else {
        0
    }
}

pub open spec fn cpu_times_of(line: Seq<char>) -> CpuTimes {
    let w = words(line);
    CpuTimes {
        user: counter(w, 0),
        nice: counter(w, 1),
        system: counter(w, 2),
        idle: counter(w, 3),
        iowait: counter(w, 4),
        irq: counter(w, 5),
        softirq: counter(w, 6),
        steal: counter(w, 7),
    }
}

/// `b` holds the start and end of every word of `v`.
pub open spec fn bounds_ok(v: Seq<char>, b: Seq<(usize, usize)>) -> bool {
    &&& b.len() == words(v).len()
    &&& forall|i: int| 0 <= i < b.len() ==> b[i].0 <= b[i].1 <= v.len() && v.subrange(
        b[i].0 as int,
        b[i].1 as int,
    ) == #[trigger] words(v)[i]
}

/// The word boundaries `(start, end)` of `v`.
pub(crate) fn word_bounds(v: &Vec<char>) -> (r: Vec<(usize, usize)>)
    ensures
        bounds_ok(v@, r@),
{
    let mut done: Vec<(usize, usize)> = Vec::new();
    let mut start: usize = 0;
    let mut i: usize = 0;
    let ghost mut st = words_fold(v@.take(0));
    assert(v@.take(0) =~= Seq::<char>::empty());
    while i < v.len()
        invariant
            i <= v@.len(),
            start <= i,
            st == words_fold(v@.take(i as int)),
            done@.len() == st.done.len(),
            forall|j: int| 0 <= j < done@.len() ==> (#[trigger] done@[j]).0 <= done@[j].1 <= i
                && v@.subrange(done@[j].0 as int, done@[j].1 as int) == st.done[j],
            v@.subrange(start as int, i as int) == st.cur,
        decreases v.len() - i,
    {
        let ghost pre = v@.take(i as int);
        assert(v@.take(i + 1).drop_last() =~= pre);
        assert(v@.take(i + 1).last() == v@[i as int]);
        let ghost st1 = words_fold(v@.take(i + 1));
        let ghost old_done = done@;
        if crate::text::is_whitespace(v[i]) {
            if start < i {
                done.push((start, i));
                assert(st1.done == st.done.push(st.cur));
            } else {
                assert(st1 == st);
            }
            start = i + 1;
            assert(v@.subrange(start as int, (i + 1) as int) =~= Seq::<char>::empty());
        } else {
            assert(v@.subrange(start as int, i + 1) =~= v@.subrange(start as int, i as int).push(
                v@[i as int],
            ));
        }
        assert forall|j: int| 0 <= j < done@.len() implies (#[trigger] done@[j]).0 <= done@[j].1
            <= i + 1 && v@.subrange(done@[j].0 as int, done@[j].1 as int) == st1.done[j] by {
            if j < old_done.len() {
                assert(done@[j] == old_done[j]);
                assert(st1.done[j] == st.done[j]);
            }
        }
        proof {
            st = st1;
        }
        i = i + 1;
    }
    assert(v@.take(v@.len() as int) =~= v@);
    let ghost old_done = done@;
    if start < v.len() {
        done.push((start, v.len()));
    }
    assert forall|j: int| 0 <= j < done@.len() implies done@[j].0 <= done@[j].1 <= v@.len()
        && v@.subrange(done@[j].0 as int, done@[j].1 as int) == #[trigger] words(v@)[j] by {
        if j < old_done.len() {
            assert(done@[j] == old_done[j]);
        }
    }
    done
}

fn counter_exec(v: &Vec<char>, b: &Vec<(usize, usize)>, k: usize) -> (r: u64)
    requires
        bounds_ok(v@, b@),
        k < 8,
    ensures
        r == counter(words(v@), k as int),
{
    if k + 1 < b.len() {
        let (s, e) = b[k + 1];
        assert(v@.subrange(s as int, e as int) == words(v@)[k + 1]);
        match parse_uint_range(v, s, e, u64::MAX) {
            Some(n) => n,
            None => 0,
        }
    } else {
        0
    }
}

/// Reads the counters of a `/proc/stat` CPU line (`cpu` or `cpuN` and up
/// to eight numbers).
pub fn parse_cpu_times(line: &str) -> (r: CpuTimes)
    ensures
        r == cpu_times_of(line@),
{
    let v = to_chars(line);
    let b = word_bounds(&v);
    CpuTimes {
        user: counter_exec(&v, &b, 0),
        nice: counter_exec(&v, &b, 1),
        system: counter_exec(&v, &b, 2),
        idle: counter_exec(&v, &b, 3),
        iowait: counter_exec(&v, &b, 4),
        irq: counter_exec(&v, &b, 5),
        softirq: counter_exec(&v, &b, 6),
        steal: counter_exec(&v, &b, 7),
    }
}

/// The core number a `cpuN ...` line names: the characters after `cpu`
/// up to the first space (none when there is no space).
pub open spec fn core_label(rest: Seq<char>) -> Seq<char> {
    let i = crate::variables::find_from(rest, 0, ' ');
    if i == -1 {
        Seq::empty()
    } else {
        rest.take(i)
    }
}

/// The line of `/proc/stat` a processor setting reads: `cpu ` for none or
/// 0, else the line of core `n - 1`.
pub open spec fn line_matches(line: Seq<char>, processor: Option<usize>) -> bool {
    match processor {
        Some(n) if n > 0 => starts_with(line, "cpu"@) && parse_uint(core_label(line.skip(3)), usize::MAX as nat)
            == Some((n - 1) as nat),
        _ => starts_with(line, "cpu "@),
    }
}

/// The first line of `ls` from `i` on that matches, or -1.
pub open spec fn first_match(ls: Seq<Seq<char>>, i: int, processor: Option<usize>) -> int
    decreases ls.len() - i,
{
    if i < 0 || i >= ls.len() {
        -1
    } else if line_matches(ls[i], processor) {
        i
    } else {
        first_match(ls, i + 1, processor)
    }
}

/// The counters of the configured processor in the text of `/proc/stat`.
pub open spec fn stat_times(stat: Seq<char>, processor: Option<usize>) -> Option<CpuTimes> {
    let ls = lines_spec(stat);
    let i = first_match(ls, 0, processor);
    if i == -1 {
        None
    } else {
        Some(cpu_times_of(ls[i]))
    }
}

fn matches_exec(line: &str, processor: Option<usize>) -> (r: bool)
    ensures
        r == line_matches(line@, processor),
{
    let v = to_chars(line);
    match processor {
        Some(n) => {
            if n > 0 {
                if !crate::text::starts_with_str(&v, "cpu") {
                    return false;
                }
                proof {
                    reveal_strlit("cpu");
                }
                let mut e: usize = 3;
                while e < v.len() && v[e] != ' '
                    invariant
                        3 <= e <= v@.len(),
                        forall|k: int| 3 <= k < e ==> v@[k] != ' ',
                    decreases v.len() - e,
                {
                    e = e + 1;
                }
                let ghost rest = v@.skip(3);
                proof {
                    crate::variables::lemma_find_from(rest, 0, ' ');
                    let f = crate::variables::find_from(rest, 0, ' ');
                    if e < v.len() {
                        assert(rest[e - 3] == ' ');
                        if f != -1 && f < e - 3 {
                            assert(rest[f] == v@[f + 3]);
                        }
                        assert(f == e - 3);
                        assert(core_label(rest) =~= v@.subrange(3, e as int));
                    } else {
                        if f != -1 {
                            assert(rest[f] == v@[f + 3]);
                        }
                        assert(core_label(rest) =~= v@.subrange(3, 3));
                    }
                }
                let hi = if e < v.len() {
                    e
                } else {
                    3
                };
                match parse_uint_range(&v, 3, hi, usize::MAX as u64) {
                    Some(k) => k == (n - 1) as u64,
                    None => false,
                }
            } else {
                crate::text::starts_with_str(&v, "cpu ")
            }
        },
        None => crate::text::starts_with_str(&v, "cpu "),
    }
}

/// Finds the counters of the configured processor in `/proc/stat`.
pub fn stat_cpu_times(stat: &str, processor: Option<usize>) -> (r: Option<CpuTimes>)
    ensures
        r == stat_times(stat@, processor),
{
    let ls = crate::text::lines(stat);
    let ghost lv = crate::text::views(ls@);
    let mut i: usize = 0;
    while i < ls.len()
        invariant
            lv == crate::text::views(ls@),
            lv == lines_spec(stat@),
            i <= ls@.len(),
            first_match(lv, 0, processor) == first_match(lv, i as int, processor),
        decreases ls.len() - i,
    {
        if matches_exec(ls[i].as_str(), processor) {
            return Some(parse_cpu_times(ls[i].as_str()));
        }
        i = i + 1;
    }
    None
}

impl CpuTimes {
    pub open spec fn total(self) -> int {
        self.user + self.nice + self.system + self.idle + self.iowait + self.irq + self.softirq
            + self.steal
    }

    pub open spec fn idle_total(self) -> int {
        self.idle + self.iowait
    }
}

/// `a.saturating_sub(b)`.
pub open spec fn sat_sub(a: int, b: int) -> int {
    if a > b {
        a - b
    } else {
        0
    }
}

/// Busy and total jiffies between two samples (each saturating at 0).
pub open spec fn usage_counts(prev: CpuTimes, curr: CpuTimes) -> (int, int) {
    let dt = sat_sub(curr.total(), prev.total());
    let di = sat_sub(curr.idle_total(), prev.idle_total());
    (sat_sub(dt, di), dt)
}

/// The previous sample of a CPU measure.
#[derive(Debug, Clone, Copy, Default)]
pub struct CpuCounters {
    pub prev: CpuTimes,
    pub has_prev: bool,
}

impl CpuCounters {
    /// Records a sample; from the second sample on, returns the busy and
    /// total jiffies since the previous one (the usage is their ratio).
    pub fn record(&mut self, times: CpuTimes) -> (r: Option<(u64, u64)>)
        requires
            times.total() <= u64::MAX,
            old(self).prev.total() <= u64::MAX,
        ensures
            final(self).prev == times,
            final(self).has_prev,
            !old(self).has_prev ==> r is None,
            old(self).has_prev ==> (r matches Some((w, t)) && (w as int, t as int) == usage_counts(
                old(self).prev,
                times,
            )),
    {
        let p = self.prev;
        let curr_total = times.user + times.nice + times.system + times.idle + times.iowait
            + times.irq + times.softirq + times.steal;
        let prev_total = p.user + p.nice + p.system + p.idle + p.iowait + p.irq + p.softirq
            + p.steal;
        let curr_idle = times.idle + times.iowait;
        let prev_idle = p.idle + p.iowait;
        self.prev = times;
        if !self.has_prev {
            self.has_prev = true;
            return None;
        }
        let dt = if curr_total > prev_total {
            curr_total - prev_total
        } else {
            0
        };
        let di = if curr_idle > prev_idle {
            curr_idle - prev_idle
        } else {
            0
        };
        let work = if dt > di {
            dt - di
        } else {
            0
        };
        Some((work, dt))
    }
}

} // verus!
