//! The ActionTimer plugin's action lists: how they are written, the
//! commands that start and stop them, and the schedule that decides which
//! actions run as time passes.
use crate::text::{
    lower, lower_range, parse_uint, parse_uint_range, split_on, split_str, starts_with,
    starts_with_str, string_of, to_chars, trim, trim_bounds, views,
};
use vstd::prelude::*;

verus! {

/// One step of an action list.
#[derive(Debug, Clone, PartialEq)]
pub enum ActionItem {
    /// `Wait <ms>`.
    Wait(u64),
    /// `Repeat <action>, <interval ms>, <count>`.
    Repeat { action_name: String, interval_ms: u64, count: u32 },
    /// The name of an action to run.
    Named(String),
}

pub enum ActionItemView {
    Wait(nat),
    Repeat { action_name: Seq<char>, interval_ms: nat, count: nat },
    Named(Seq<char>),
}

impl View for ActionItem {
    type V = ActionItemView;

    open spec fn view(&self) -> ActionItemView {
        match self {
            ActionItem::Wait(ms) => ActionItemView::Wait(*ms as nat),
            ActionItem::Repeat { action_name, interval_ms, count } => ActionItemView::Repeat {
                action_name: action_name@,
                interval_ms: *interval_ms as nat,
                count: *count as nat,
            },
            ActionItem::Named(n) => ActionItemView::Named(n@),
        }
    }
}

pub open spec fn item_views(v: Seq<ActionItem>) -> Seq<ActionItemView> {
    Seq::new(v.len(), |i: int| v[i]@)
}

/// `s.parse::<uN>().unwrap_or(d)` for an unsigned type of maximum `max`.
pub open spec fn uint_or(s: Seq<char>, max: nat, d: nat) -> nat {
    match parse_uint(s, max) {
        Some(n) => n,
        None => d,
    }
}

pub open spec fn trimmed_all(v: Seq<Seq<char>>) -> Seq<Seq<char>> {
    Seq::new(v.len(), |i: int| trim(v[i]))
}

/// The item a trimmed, non-empty part of an action list stands for:
/// `Wait` and `Repeat` are recognised in any case at the start; a
/// `Repeat` with fewer than three comma-separated arguments is dropped.
pub open spec fn action_item_of(t: Seq<char>) -> Option<ActionItemView> {
    let l = lower(t);
    if starts_with(l, "wait"@) {
        Some(ActionItemView::Wait(uint_or(trim(t.skip(4)), u64::MAX as nat, 0)))
    } else if starts_with(l, "repeat"@) {
        let args = trimmed_all(split_on(trim(t.skip(6)), ','));
        if args.len() >= 3 {
            Some(
                ActionItemView::Repeat {
                    action_name: args[0],
                    interval_ms: uint_or(args[1], u64::MAX as nat, 0),
                    count: uint_or(args[2], u32::MAX as nat, 1),
                },
            )
        } else {
            None
        }
    } else {
        Some(ActionItemView::Named(t))
    }
}

/// The items of an action list, its `|`-separated parts in order (blank
/// parts skipped).
pub open spec fn action_items(parts: Seq<Seq<char>>) -> Seq<ActionItemView>
    decreases parts.len(),
{
    if parts.len() == 0 {
        Seq::empty()
    } else {
        let rest = action_items(parts.drop_last());
        let t = trim(parts.last());
        if t.len() == 0 {
            rest
        } else {
            match action_item_of(t) {
                Some(it) => rest.push(it),
                None => rest,
            }
        }
    }
}

fn parse_uint_or(v: &[char], lo: usize, hi: usize, max: u64, d: u64) -> (r: u64)
    requires
        lo <= hi <= v@.len(),
        d <= max,
    ensures
        r == uint_or(v@.subrange(lo as int, hi as int), max as nat, d as nat),
{
    match parse_uint_range(v, lo, hi, max) {
        Some(n) => n,
        None => d,
    }
}

fn parse_item(t: &[char]) -> (r: Option<ActionItem>)
    requires
        t@.len() > 0,
    ensures
        match r {
            Some(it) => action_item_of(t@) == Some(it@),
            None => action_item_of(t@) is None,
        },
{
    let l = lower_range(t, 0, t.len());
    assert(t@.subrange(0, t@.len() as int) =~= t@);
    proof {
        reveal_strlit("wait");
        reveal_strlit("repeat");
    }
    if starts_with_str(&l, "wait") {
        let (a, b) = trim_bounds(t, 4, t.len());
        assert(t@.skip(4) =~= t@.subrange(4, t@.len() as int));
        let ms = parse_uint_or(t, a, b, u64::MAX, 0);
        Some(ActionItem::Wait(ms))
    } else if starts_with_str(&l, "repeat") {
        let (a, b) = trim_bounds(t, 6, t.len());
        assert(t@.skip(6) =~= t@.subrange(6, t@.len() as int));
        let rest = string_of(t, a, b);
        let parts = split_str(rest.as_str(), ',');
        let ghost pv = views(parts@);
        if parts.len() >= 3 {
            let p0 = to_chars(parts[0].as_str());
            let p1 = to_chars(parts[1].as_str());
            let p2 = to_chars(parts[2].as_str());
            assert(p0@.subrange(0, p0@.len() as int) =~= p0@);
            assert(p1@.subrange(0, p1@.len() as int) =~= p1@);
            assert(p2@.subrange(0, p2@.len() as int) =~= p2@);
            let (a0, b0) = trim_bounds(&p0, 0, p0.len());
            let (a1, b1) = trim_bounds(&p1, 0, p1.len());
            let (a2, b2) = trim_bounds(&p2, 0, p2.len());
            let name = string_of(&p0, a0, b0);
            let interval = parse_uint_or(&p1, a1, b1, u64::MAX, 0);
            let count = parse_uint_or(&p2, a2, b2, u32::MAX as u64, 1) as u32;
            proof {
                let args = trimmed_all(split_on(trim(t@.skip(6)), ','));
                assert(args[0] == trim(pv[0]));
                assert(args[1] == trim(pv[1]));
                assert(args[2] == trim(pv[2]));
            }
            Some(ActionItem::Repeat { action_name: name, interval_ms: interval, count })
        } else {
            None
        }
    } else {
        Some(ActionItem::Named(crate::text::string_of_all(t)))
    }
}

/// Reads an `ActionListN` option into its items.
pub fn parse_action_list(actions_str: &str) -> (r: Vec<ActionItem>)
    ensures
        item_views(r@) == action_items(split_on(actions_str@, '|')),
{
    let parts = split_str(actions_str, '|');
    let ghost pv = views(parts@);
    let mut steps: Vec<ActionItem> = Vec::new();
    let mut i: usize = 0;
    while i < parts.len()
        invariant
            pv == views(parts@),
            pv == split_on(actions_str@, '|'),
            i <= parts@.len(),
            item_views(steps@) == action_items(pv.take(i as int)),
        decreases parts.len() - i,
    {
        assert(pv.take(i + 1).drop_last() =~= pv.take(i as int));
        assert(pv.take(i + 1).last() == parts@[i as int]@);
        let v = to_chars(parts[i].as_str());
        assert(v@.subrange(0, v@.len() as int) =~= v@);
        let (a, b) = trim_bounds(&v, 0, v.len());
        if a < b {
            let t = crate::text::to_chars(string_of(&v, a, b).as_str());
            let ghost before = steps@;
            match parse_item(&t) {
                Some(it) => {
                    steps.push(it);
                    assert(item_views(steps@) =~= item_views(before).push(it@));
                },
                None => {},
            }
        }
        i = i + 1;
    }
    assert(pv.take(parts@.len() as int) =~= pv);
    steps
}

/// A command sent to the plugin.
#[derive(Debug, Clone, Copy, PartialEq, Eq)]
pub enum TimerCommand {
    /// `Execute N`: start (or restart) list N.
    Execute(u32),
    /// `Stop N` stops list N; a bare `Stop` stops every list.
    Stop(Option<u32>),
    /// Anything else, ignored.
    Ignore,
}

/// How a command reads: `Execute` or `Stop` in any case at the start of
/// the trimmed command, with the list number after it.
pub open spec fn timer_command(cmd: Seq<char>) -> TimerCommand {
    let t = trim(cmd);
    let l = lower(t);
    if starts_with(l, "execute"@) {
        match parse_uint(trim(t.skip(7)), u32::MAX as nat) {
            Some(n) => TimerCommand::Execute(n as u32),
            None => TimerCommand::Ignore,
        }
    } else if starts_with(l, "stop"@) {
        let rest = trim(t.skip(4));
        if rest.len() == 0 {
            TimerCommand::Stop(None)
        } else {
            match parse_uint(rest, u32::MAX as nat) {
                Some(n) => TimerCommand::Stop(Some(n as u32)),
                None => TimerCommand::Ignore,
            }
        }
    } else {
        TimerCommand::Ignore
    }
}

/// Reads a command sent with `!CommandMeasure`.
pub fn parse_timer_command(cmd: &str) -> (r: TimerCommand)
    ensures
        r == timer_command(cmd@),
{
    let v = to_chars(cmd);
    assert(v@.subrange(0, v@.len() as int) =~= v@);
    let (a, b) = trim_bounds(&v, 0, v.len());
    let ghost t = v@.subrange(a as int, b as int);
    let l = lower_range(&v, a, b);
    proof {
        reveal_strlit("execute");
        reveal_strlit("stop");
    }
    if starts_with_str(&l, "execute") {
        let (c, d) = trim_bounds(&v, a + 7, b);
        assert(t.skip(7) =~= v@.subrange(a + 7, b as int));
        match parse_uint_range(&v, c, d, u32::MAX as u64) {
            Some(n) => TimerCommand::Execute(n as u32),
            None => TimerCommand::Ignore,
        }
    } else if starts_with_str(&l, "stop") {
        let (c, d) = trim_bounds(&v, a + 4, b);
        assert(t.skip(4) =~= v@.subrange(a + 4, b as int));
        if c == d {
            TimerCommand::Stop(None)
        } else {
            match parse_uint_range(&v, c, d, u32::MAX as u64) {
                Some(n) => TimerCommand::Stop(Some(n as u32)),
                None => TimerCommand::Ignore,
            }
        }
    } else {
        TimerCommand::Ignore
    }
}

} // verus!
verus! {

/// The primitive moves of an action list on its timeline: run an action,
/// or let time pass.
pub enum Op {
    Emit(Seq<char>),
    Delay(nat),
}

/// A `Repeat` of `c` runs: the action, then (`interval`, action) `c - 1`
/// times.
pub open spec fn repeat_ops(name: Seq<char>, interval: nat, c: nat) -> Seq<Op>
    decreases c,
{
    if c == 0 {
        Seq::empty()
    } else if c == 1 {
        seq![Op::Emit(name)]
    } else {
        repeat_ops(name, interval, (c - 1) as nat) + seq![Op::Delay(interval), Op::Emit(name)]
    }
}

pub open spec fn item_ops(it: ActionItemView) -> Seq<Op> {
    match it {
        ActionItemView::Wait(ms) => seq![Op::Delay(ms)],
        ActionItemView::Named(n) => seq![Op::Emit(n)],
        ActionItemView::Repeat { action_name, interval_ms, count } => repeat_ops(
            action_name,
            interval_ms,
            count,
        ),
    }
}

/// The moves of a whole action list, item after item.
pub open spec fn list_ops(items: Seq<ActionItemView>) -> Seq<Op>
    decreases items.len(),
{
    if items.len() == 0 {
        Seq::empty()
    } else {
        list_ops(items.drop_last()) + item_ops(items.last())
    }
}

pub open spec fn op_delay(o: Op) -> nat {
    match o {
        Op::Delay(ms) => ms,
        Op::Emit(_) => 0,
    }
}

/// Total time of a sequence of moves.
pub open spec fn delay_sum(s: Seq<Op>) -> nat
    decreases s.len(),
{
    if s.len() == 0 {
        0
    } else {
        delay_sum(s.drop_last()) + op_delay(s.last())
    }
}

/// The time at which move `p` starts, counted from the list's start.
pub open spec fn op_time(ops: Seq<Op>, p: int) -> nat {
    delay_sum(ops.take(p))
}

/// The actions a list runs within `e` milliseconds of its start: every
/// action whose start time is at most `e`, in list order.
pub open spec fn scheduled_names(ops: Seq<Op>, e: nat) -> Seq<Seq<char>>
    decreases ops.len(),
{
    if ops.len() == 0 {
        Seq::empty()
    } else {
        let rest = scheduled_names(ops.drop_last(), e);
        match ops.last() {
            Op::Emit(n) => if op_time(ops, ops.len() - 1) <= e {
                rest.push(n)
            } else {
                rest
            },
            Op::Delay(_) => rest,
        }
    }
}

/// The actions among a sequence of moves.
pub open spec fn emit_names(s: Seq<Op>) -> Seq<Seq<char>>
    decreases s.len(),
{
    if s.len() == 0 {
        Seq::empty()
    } else {
        match s.last() {
            Op::Emit(n) => emit_names(s.drop_last()).push(n),
            Op::Delay(_) => emit_names(s.drop_last()),
        }
    }
}

/// Runs the moves from position `p` with `t` milliseconds available; `r`
/// is what remains of a wait already begun at `p`. Returns the position
/// reached, the wait still running there, and the actions run.
pub open spec fn run(ops: Seq<Op>, p: nat, r: Option<nat>, t: nat) -> (nat, Option<nat>, Seq<
    Seq<char>,
>)
    decreases ops.len() - p,
{
    if p >= ops.len() {
        (p, None, Seq::empty())
    } else {
        match ops[p as int] {
            Op::Emit(n) => {
                let (a, b, c) = run(ops, p + 1, None, t);
                (a, b, seq![n] + c)
            },
            Op::Delay(ms) => {
                let rem = match r {
                    Some(x) => x,
                    None => ms,
                };
                if rem > t {
                    (p, Some((rem - t) as nat), Seq::empty())
                } else {
                    run(ops, p + 1, None, (t - rem) as nat)
                }
            },
        }
    }
}

/// Runs a list from its start through successive steps of `ts`.
pub open spec fn run_steps(ops: Seq<Op>, ts: Seq<nat>) -> (nat, Option<nat>, Seq<Seq<char>>)
    decreases ts.len(),
{
    if ts.len() == 0 {
        (0, None, Seq::empty())
    } else {
        let (p, r, ns) = run_steps(ops, ts.drop_last());
        let (p2, r2, ns2) = run(ops, p, r, ts.last());
        (p2, r2, ns + ns2)
    }
}

pub open spec fn total(ts: Seq<nat>) -> nat
    decreases ts.len(),
{
    if ts.len() == 0 {
        0
    } else {
        total(ts.drop_last()) + ts.last()
    }
}

/// A position on the timeline: `r` is only set inside a wait, and is at
/// most its length.
pub open spec fn position_ok(ops: Seq<Op>, p: nat, r: Option<nat>) -> bool {
    &&& p <= ops.len()
    &&& r is Some ==> p < ops.len()
    &&& r matches Some(rem) ==> (ops[p as int] matches Op::Delay(ms) && rem <= ms)
}

/// The time a position stands for.
pub open spec fn cursor(ops: Seq<Op>, p: nat, r: Option<nat>) -> int {
    op_time(ops, p as int) + match r {
        Some(rem) => op_delay(ops[p as int]) - rem,
        None => 0,
    }
}

proof fn lemma_delay_sum_push(s: Seq<Op>, o: Op)
    ensures
        delay_sum(s.push(o)) == delay_sum(s) + op_delay(o),
{
    assert(s.push(o).drop_last() =~= s);
}

proof fn lemma_op_time_next(ops: Seq<Op>, p: int)
    requires
        0 <= p < ops.len(),
    ensures
        op_time(ops, p + 1) == op_time(ops, p) + op_delay(ops[p]),
{
    assert(ops.take(p + 1) =~= ops.take(p).push(ops[p]));
    lemma_delay_sum_push(ops.take(p), ops[p]);
}

proof fn lemma_op_time_mono(ops: Seq<Op>, a: int, b: int)
    requires
        0 <= a <= b <= ops.len(),
    ensures
        op_time(ops, a) <= op_time(ops, b),
    decreases b - a,
{
    if a < b {
        lemma_op_time_mono(ops, a, b - 1);
        lemma_op_time_next(ops, b - 1);
    }
}

proof fn lemma_emit_names_push(s: Seq<Op>, o: Op)
    ensures
        emit_names(s.push(o)) == match o {
            Op::Emit(n) => emit_names(s).push(n),
            Op::Delay(_) => emit_names(s),
        },
{
    assert(s.push(o).drop_last() =~= s);
}

/// One run from a position ends at a position for the same target time:
/// at the end of the list with that time reached, or inside a wait that
/// ends after it; the actions it runs are those it passes.
proof fn lemma_run(ops: Seq<Op>, p: nat, r: Option<nat>, t: nat)
    requires
        position_ok(ops, p, r),
    ensures
        p <= run(ops, p, r, t).0 <= ops.len(),
        position_ok(ops, run(ops, p, r, t).0, run(ops, p, r, t).1),
        run(ops, p, r, t).2 == emit_names(ops.subrange(p as int, run(ops, p, r, t).0 as int)),
        run(ops, p, r, t).0 == ops.len() ==> run(ops, p, r, t).1 is None && op_time(
            ops,
            ops.len() as int,
        ) <= cursor(ops, p, r) + t,
        run(ops, p, r, t).0 < ops.len() ==> (run(ops, p, r, t).1 matches Some(rem) && rem > 0
            && cursor(ops, run(ops, p, r, t).0, run(ops, p, r, t).1) == cursor(ops, p, r) + t),
    decreases ops.len() - p,
{
    if p >= ops.len() {
        assert(ops.subrange(p as int, p as int) =~= Seq::<Op>::empty());
    } else {
        lemma_op_time_next(ops, p as int);
        match ops[p as int] {
            Op::Emit(n) => {
                lemma_run(ops, p + 1, None, t);
                let q = run(ops, p + 1, None, t).0;
                lemma_emit_names_prefix(ops, p as int, q as int);
            },
            Op::Delay(ms) => {
                let rem = match r {
                    Some(x) => x,
                    None => ms,
                };
                if rem > t {
                    assert(ops.subrange(p as int, p as int) =~= Seq::<Op>::empty());
                } else {
                    lemma_run(ops, p + 1, None, (t - rem) as nat);
                    let q = run(ops, p + 1, None, (t - rem) as nat).0;
                    lemma_emit_names_prefix(ops, p as int, q as int);
                }
            },
        }
    }
}

/// Passing move `p` adds its action (if any) in front of the rest.
proof fn lemma_emit_names_prefix(ops: Seq<Op>, p: int, q: int)
    requires
        0 <= p < q <= ops.len(),
    ensures
        emit_names(ops.subrange(p, q)) == match ops[p] {
            Op::Emit(n) => seq![n] + emit_names(ops.subrange(p + 1, q)),
            Op::Delay(_) => emit_names(ops.subrange(p + 1, q)),
        },
    decreases q - p,
{
    if q == p + 1 {
        let s = ops.subrange(p, q);
        assert(s =~= Seq::<Op>::empty().push(ops[p]));
        lemma_emit_names_push(Seq::<Op>::empty(), ops[p]);
        assert(ops.subrange(p + 1, q) =~= Seq::<Op>::empty());
        match ops[p] {
            Op::Emit(n) => {
                assert(seq![n] + Seq::<Seq<char>>::empty() =~= Seq::<Seq<char>>::empty().push(n));
            },
            Op::Delay(_) => {},
        }
    } else {
        lemma_emit_names_prefix(ops, p, q - 1);
        let s = ops.subrange(p, q);
        assert(s =~= ops.subrange(p, q - 1).push(ops[q - 1]));
        lemma_emit_names_push(ops.subrange(p, q - 1), ops[q - 1]);
        assert(ops.subrange(p + 1, q) =~= ops.subrange(p + 1, q - 1).push(ops[q - 1]));
        lemma_emit_names_push(ops.subrange(p + 1, q - 1), ops[q - 1]);
        match ops[p] {
            Op::Emit(n) => {
                match ops[q - 1] {
                    Op::Emit(m) => {
                        assert(seq![n] + emit_names(ops.subrange(p + 1, q - 1)).push(m) =~= (seq![n]
                            + emit_names(ops.subrange(p + 1, q - 1))).push(m));
                    },
                    Op::Delay(_) => {},
                }
            },
            Op::Delay(_) => {},
        }
    }
}

/// The actions before a position are those scheduled by time `e` when
/// every move before it starts by `e` and no action at or after it does.
proof fn lemma_scheduled_prefix(ops: Seq<Op>, e: nat, p: int)
    requires
        0 <= p <= ops.len(),
        forall|q: int| 0 <= q < p ==> op_time(ops, q) <= e,
        forall|q: int| p <= q < ops.len() && (ops[q] is Emit) ==> op_time(ops, q) > e,
    ensures
        scheduled_names(ops, e) == emit_names(ops.take(p)),
    decreases ops.len(),
{
    if ops.len() == 0 {
        assert(ops.take(p) =~= Seq::<Op>::empty());
    } else {
        let d = ops.drop_last();
        let n = ops.len() - 1;
        assert forall|q: int| 0 <= q <= n implies op_time(d, q) == op_time(ops, q) by {
            assert(d.take(q) =~= ops.take(q));
        }
        if p == ops.len() {
            lemma_scheduled_prefix(d, e, n);
            assert(ops.take(p) =~= d.take(n).push(ops.last()));
            lemma_emit_names_push(d.take(n), ops.last());
        } else {
            lemma_scheduled_prefix(d, e, p);
            assert(d.take(p) =~= ops.take(p));
        }
    }
}

/// An action list runs, through any steps, exactly the actions scheduled
/// by the total time elapsed, in order; and it has finished exactly when
/// that time reaches the end of its timeline.
pub proof fn law_actions_run_when_due(ops: Seq<Op>, ts: Seq<nat>)
    ensures
        position_ok(ops, run_steps(ops, ts).0, run_steps(ops, ts).1),
        run_steps(ops, ts).2 == emit_names(ops.take(run_steps(ops, ts).0 as int)),
        ts.len() > 0 ==> run_steps(ops, ts).2 == scheduled_names(ops, total(ts)),
        ts.len() > 0 ==> (run_steps(ops, ts).0 == ops.len() <==> op_time(ops, ops.len() as int)
            <= total(ts)),
        ts.len() > 0 && run_steps(ops, ts).0 < ops.len() ==> (run_steps(ops, ts).1 matches Some(rem)
            && rem > 0 && cursor(ops, run_steps(ops, ts).0, run_steps(ops, ts).1) == total(ts)),
        ts.len() > 0 && run_steps(ops, ts).0 == ops.len() ==> run_steps(ops, ts).1 is None,
    decreases ts.len(),
{
    if ts.len() == 0 {
        assert(ops.take(0) =~= Seq::<Op>::empty());
    } else {
        let pre = ts.drop_last();
        law_actions_run_when_due(ops, pre);
        let (p, r, ns) = run_steps(ops, pre);
        let t = ts.last();
        lemma_run(ops, p, r, t);
        let (p2, r2, ns2) = run(ops, p, r, t);
        // The cursor before this step is the time elapsed so far.
        if pre.len() == 0 {
            assert(p == 0 && r is None);
            assert(ops.take(0) =~= Seq::<Op>::empty());
        } else if p == ops.len() {
            assert(r is None);
        }
        let e = total(ts);
        assert(cursor(ops, p, r) <= total(pre)) by {
            if pre.len() > 0 && p == ops.len() {
                assert(p2 == p);
            }
        }
        lemma_emit_concat(ops, p as int, p2 as int);
        assert(ops.take(p2 as int).subrange(0, p as int) =~= ops.take(p as int));
        assert(ops.take(p2 as int).subrange(p as int, p2 as int) =~= ops.subrange(p as int, p2 as int));
        assert(ops.take(p2 as int) =~= ops.take(p as int) + ops.subrange(p as int, p2 as int));
        // Which moves start by the total time.
        if p2 < ops.len() {
            let ms = op_delay(ops[p2 as int]);
            lemma_op_time_next(ops, p2 as int);
            assert forall|q: int| 0 <= q < p2 implies op_time(ops, q) <= e by {
                lemma_op_time_mono(ops, q, p2 as int);
            }
            assert forall|q: int| p2 <= q < ops.len() && (ops[q] is Emit) implies op_time(ops, q) > e by {
                assert(q != p2);
                lemma_op_time_mono(ops, p2 as int + 1, q);
            }
            lemma_scheduled_prefix(ops, e, p2 as int);
            lemma_op_time_mono(ops, p2 as int + 1, ops.len() as int);
        } else {
            assert forall|q: int| 0 <= q < p2 implies op_time(ops, q) <= e by {
                lemma_op_time_mono(ops, q, ops.len() as int);
            }
            lemma_scheduled_prefix(ops, e, p2 as int);
        }
    }
}

/// Emits over two adjacent ranges concatenate.
proof fn lemma_emit_concat(ops: Seq<Op>, p: int, q: int)
    requires
        0 <= p <= q <= ops.len(),
    ensures
        emit_names(ops.take(p) + ops.subrange(p, q)) == emit_names(ops.take(p)) + emit_names(
            ops.subrange(p, q),
        ),
    decreases q - p,
{
    if p == q {
        assert(ops.subrange(p, q) =~= Seq::<Op>::empty());
        assert(ops.take(p) + ops.subrange(p, q) =~= ops.take(p));
        assert(emit_names(ops.take(p)) + Seq::<Seq<char>>::empty() =~= emit_names(ops.take(p)));
    } else {
        lemma_emit_concat(ops, p, q - 1);
        let a = ops.take(p) + ops.subrange(p, q - 1);
        assert(ops.take(p) + ops.subrange(p, q) =~= a.push(ops[q - 1]));
        assert(ops.subrange(p, q) =~= ops.subrange(p, q - 1).push(ops[q - 1]));
        lemma_emit_names_push(a, ops[q - 1]);
        lemma_emit_names_push(ops.subrange(p, q - 1), ops[q - 1]);
        match ops[q - 1] {
            Op::Emit(n) => {
                assert((emit_names(ops.take(p)) + emit_names(ops.subrange(p, q - 1))).push(n)
                    =~= emit_names(ops.take(p)) + emit_names(ops.subrange(p, q - 1)).push(n));
            },
            Op::Delay(_) => {},
        }
    }
}

} // verus!
verus! {

/// The moves of the first `k` items.
pub open spec fn prefix_ops(items: Seq<ActionItemView>, k: int) -> Seq<Op> {
    list_ops(items.take(k))
}

/// Where item `k`'s moves start.
pub open spec fn offset(items: Seq<ActionItemView>, k: int) -> nat {
    prefix_ops(items, k).len()
}

proof fn lemma_prefix_step(items: Seq<ActionItemView>, k: int)
    requires
        0 <= k < items.len(),
    ensures
        prefix_ops(items, k + 1) == prefix_ops(items, k) + item_ops(items[k]),
{
    assert(items.take(k + 1).drop_last() =~= items.take(k));
}

proof fn lemma_prefix_of(items: Seq<ActionItemView>, k1: int, k2: int)
    requires
        0 <= k1 <= k2 <= items.len(),
    ensures
        offset(items, k1) <= offset(items, k2),
        prefix_ops(items, k2).take(offset(items, k1) as int) == prefix_ops(items, k1),
    decreases k2 - k1,
{
    if k1 == k2 {
        assert(prefix_ops(items, k2).take(offset(items, k1) as int) =~= prefix_ops(items, k1));
    } else {
        lemma_prefix_of(items, k1, k2 - 1);
        lemma_prefix_step(items, k2 - 1);
        assert(prefix_ops(items, k2).take(offset(items, k1) as int) =~= prefix_ops(
            items,
            k2 - 1,
        ).take(offset(items, k1) as int));
    }
}

/// Move `j` of item `k` is move `offset(k) + j` of the list.
proof fn lemma_move_at(items: Seq<ActionItemView>, k: int, j: int)
    requires
        0 <= k < items.len(),
        0 <= j < item_ops(items[k]).len(),
    ensures
        offset(items, k) + j < list_ops(items).len(),
        list_ops(items)[offset(items, k) + j] == item_ops(items[k])[j],
        offset(items, k + 1) == offset(items, k) + item_ops(items[k]).len(),
{
    lemma_prefix_step(items, k);
    lemma_prefix_of(items, k + 1, items.len() as int);
    assert(items.take(items.len() as int) =~= items);
    let big = list_ops(items);
    assert(big.take(offset(items, k + 1) as int)[offset(items, k) + j] == big[offset(items, k) + j]);
}

proof fn lemma_offsets(items: Seq<ActionItemView>, k: int)
    requires
        0 <= k < items.len(),
    ensures
        offset(items, k + 1) == offset(items, k) + item_ops(items[k]).len(),
        offset(items, k + 1) <= list_ops(items).len(),
{
    lemma_prefix_step(items, k);
    lemma_prefix_of(items, k + 1, items.len() as int);
    assert(items.take(items.len() as int) =~= items);
}

proof fn lemma_repeat_ops(name: Seq<char>, interval: nat, c: nat)
    ensures
        repeat_ops(name, interval, c).len() == if c == 0 {
            0
        } else {
            2 * c - 1
        },
        forall|j: int| 0 <= j < repeat_ops(name, interval, c).len() ==> #[trigger] repeat_ops(
            name,
            interval,
            c,
        )[j] == if j % 2 == 0 {
            Op::Emit(name)
        } else {
            Op::Delay(interval)
        },
    decreases c,
{
    if c > 1 {
        lemma_repeat_ops(name, interval, (c - 1) as nat);
        let a = repeat_ops(name, interval, (c - 1) as nat);
        let s = repeat_ops(name, interval, c);
        assert forall|j: int| 0 <= j < s.len() implies #[trigger] s[j] == if j % 2 == 0 {
            Op::Emit(name)
        } else {
            Op::Delay(interval)
        } by {
            if j < a.len() {
                assert(s[j] == a[j]);
            }
        }
    }
}

/// A move as the scheduler reads it.
pub enum Move {
    Run(String),
    Wait(u64),
}

impl View for Move {
    type V = Op;

    open spec fn view(&self) -> Op {
        match self {
            Move::Run(n) => Op::Emit(n@),
            Move::Wait(ms) => Op::Delay(*ms as nat),
        }
    }
}

impl ActionItem {
    /// A copy of the item.
    pub fn duplicate(&self) -> (r: ActionItem)
        ensures
            r@ == self@,
    {
        match self {
            ActionItem::Wait(ms) => ActionItem::Wait(*ms),
            ActionItem::Repeat { action_name, interval_ms, count } => ActionItem::Repeat {
                action_name: action_name.clone(),
                interval_ms: *interval_ms,
                count: *count,
            },
            ActionItem::Named(n) => ActionItem::Named(n.clone()),
        }
    }

    /// How many moves the item makes.
    fn move_count(&self) -> (r: u64)
        ensures
            r == item_ops(self@).len(),
    {
        match self {
            ActionItem::Wait(_) => 1,
            ActionItem::Named(_) => 1,
            ActionItem::Repeat { action_name, interval_ms, count } => {
                proof {
                    lemma_repeat_ops(action_name@, *interval_ms as nat, *count as nat);
                }
                if *count == 0 {
                    0
                } else {
                    2 * (*count as u64) - 1
                }
            },
        }
    }

    /// Move `j` of the item.
    fn move_at(&self, j: u64) -> (r: Move)
        requires
            j < item_ops(self@).len(),
        ensures
            r@ == item_ops(self@)[j as int],
    {
        match self {
            ActionItem::Wait(ms) => Move::Wait(*ms),
            ActionItem::Named(n) => Move::Run(n.clone()),
            ActionItem::Repeat { action_name, interval_ms, count } => {
                proof {
                    lemma_repeat_ops(action_name@, *interval_ms as nat, *count as nat);
                }
                if j % 2 == 0 {
                    Move::Run(action_name.clone())
                } else {
                    Move::Wait(*interval_ms)
                }
            },
        }
    }
}

/// A copy of a list of items.
pub fn copy_items(v: &Vec<ActionItem>) -> (r: Vec<ActionItem>)
    ensures
        item_views(r@) == item_views(v@),
{
    let mut out: Vec<ActionItem> = Vec::new();
    let mut i: usize = 0;
    while i < v.len()
        invariant
            i <= v@.len(),
            out@.len() == i,
            item_views(out@) == item_views(v@).take(i as int),
        decreases v.len() - i,
    {
        let ghost before = out@;
        let d = v[i].duplicate();
        out.push(d);
        assert forall|j: int| 0 <= j < i + 1 implies item_views(out@)[j] == item_views(v@).take(
            i + 1,
        )[j] by {
            if j < i {
                assert(out@[j] == before[j]);
                assert(item_views(before)[j] == item_views(v@).take(i as int)[j]);
            }
        }
        assert(item_views(out@) =~= item_views(v@).take(i + 1));
        i = i + 1;
    }
    assert(item_views(v@).take(v@.len() as int) =~= item_views(v@));
    out
}

/// A running action list: the item being run, the move within it, and
/// what remains of a wait begun there.
#[derive(Debug, Clone)]
pub struct ListRun {
    steps: Vec<ActionItem>,
    item: usize,
    sub: u64,
    wait: Option<u64>,
}

pub open spec fn ov_nat(o: Option<u64>) -> Option<nat> {
    match o {
        Some(x) => Some(x as nat),
        None => None,
    }
}

impl ListRun {
    /// The list's moves.
    pub closed spec fn ops(&self) -> Seq<Op> {
        list_ops(item_views(self.steps@))
    }

    /// The position reached on them.
    pub closed spec fn pos(&self) -> nat {
        offset(item_views(self.steps@), self.item as int) + self.sub as nat
    }

    /// What remains of the wait begun at that position.
    pub closed spec fn rem(&self) -> Option<nat> {
        ov_nat(self.wait)
    }

    pub closed spec fn wf(&self) -> bool {
        let items = item_views(self.steps@);
        &&& self.item <= self.steps@.len()
        &&& self.item < self.steps@.len() ==> self.sub <= item_ops(items[self.item as int]).len()
        &&& self.item == self.steps@.len() ==> self.sub == 0
        &&& self.wait is Some ==> self.item < self.steps@.len() && self.sub < item_ops(
            items[self.item as int],
        ).len()
        &&& position_ok(self.ops(), self.pos(), self.rem())
    }

    /// A list about to run its first move.
    pub fn start(steps: Vec<ActionItem>) -> (r: Self)
        ensures
            r.wf(),
            r.ops() == list_ops(item_views(steps@)),
            r.pos() == 0,
            r.rem() is None,
    {
        let r = ListRun { steps, item: 0, sub: 0, wait: None };
        assert(item_views(r.steps@).take(0) =~= Seq::<ActionItemView>::empty());
        proof {
            let items = item_views(r.steps@);
            if items.len() > 0 {
                lemma_offsets(items, 0);
            } else {
                assert(items.take(0) =~= items);
            }
        }
        r
    }

    /// Runs the list for `t` more milliseconds, appending the actions it
    /// runs to `out`; returns whether the list has finished.
    pub fn advance(&mut self, t: u64, out: &mut Vec<String>) -> (done: bool)
        requires
            old(self).wf(),
        ensures
            final(self).wf(),
            final(self).ops() == old(self).ops(),
            (final(self).pos(), final(self).rem()) == (run(
                old(self).ops(),
                old(self).pos(),
                old(self).rem(),
                t as nat,
            ).0, run(old(self).ops(), old(self).pos(), old(self).rem(), t as nat).1),
            crate::text::views(final(out)@) == crate::text::views(old(out)@) + run(
                old(self).ops(),
                old(self).pos(),
                old(self).rem(),
                t as nat,
            ).2,
            done == (final(self).pos() >= final(self).ops().len()),
    {
        let ghost ops = self.ops();
        let ghost items = item_views(self.steps@);
        let ghost target = run(ops, self.pos(), self.rem(), t as nat);
        let ghost out0 = crate::text::views(out@);
        let mut left = t;
        proof {
            assert(items.take(items.len() as int) =~= items);
        }
        loop
            invariant
                self.wf(),
                self.ops() == ops,
                ops == old(self).ops(),
                target == run(old(self).ops(), old(self).pos(), old(self).rem(), t as nat),
                out0 == crate::text::views(old(out)@),
                items == item_views(self.steps@),
                prefix_ops(items, items.len() as int) == ops,
                run(ops, self.pos(), self.rem(), left as nat).0 == target.0,
                run(ops, self.pos(), self.rem(), left as nat).1 == target.1,
                crate::text::views(out@) + run(ops, self.pos(), self.rem(), left as nat).2 == out0
                    + target.2,
            decreases ops.len() - self.pos(), self.steps@.len() - self.item,
        {
            if self.item >= self.steps.len() {
                proof {
                    assert(self.pos() == ops.len());
                    assert(crate::text::views(out@) + Seq::<Seq<char>>::empty() =~= crate::text::views(out@));
                }
                return true;
            }
            let k = self.item;
            let cnt = self.steps[k].move_count();
            proof {
                lemma_offsets(items, k as int);
            }
            if self.sub >= cnt {
                self.item = k + 1;
                self.sub = 0;
                proof {
                    if k + 1 < items.len() {
                        lemma_offsets(items, k + 1);
                    } else {
                        assert(offset(items, k + 1) == ops.len());
                    }
                }
                continue;
            }
            let m = self.steps[k].move_at(self.sub);
            proof {
                lemma_move_at(items, k as int, self.sub as int);
            }
            let ghost p = self.pos();
            match m {
                Move::Run(name) => {
                    let ghost before = crate::text::views(out@);
                    out.push(name);
                    self.sub = self.sub + 1;
                    self.wait = None;
                    proof {
                        assert(crate::text::views(out@) =~= before.push(name@));
                        assert(before.push(name@) + run(ops, p + 1, None, left as nat).2 =~= before
                            + (seq![name@] + run(ops, p + 1, None, left as nat).2));
                    }
                },
                Move::Wait(ms) => {
                    let rem = match self.wait {
                        Some(x) => x,
                        None => ms,
                    };
                    if rem > left {
                        self.wait = Some(rem - left);
                        proof {
                            assert(crate::text::views(out@) + Seq::<Seq<char>>::empty() =~= crate::text::views(out@));
                        }
                        return false;
                    }
                    left = left - rem;
                    self.sub = self.sub + 1;
                    self.wait = None;
                },
            }
        }
    }

    /// Whether the list has run all its moves.
    pub fn finished(&self) -> (r: bool)
        requires
            self.wf(),
        ensures
            r == (self.pos() >= self.ops().len()),
    {
        proof {
            let items = item_views(self.steps@);
            assert(items.take(items.len() as int) =~= items);
            if self.item < self.steps@.len() {
                lemma_offsets(items, self.item as int);
                lemma_prefix_of(items, self.item + 1, items.len() as int);
            }
        }
        if self.item >= self.steps.len() {
            return true;
        }
        let k = self.item;
        let cnt = self.steps[k].move_count();
        if self.sub < cnt {
            return false;
        }
        let mut j = k + 1;
        while j < self.steps.len()
            invariant
                k < j <= self.steps@.len(),
                self.wf(),
                offset(item_views(self.steps@), j as int) == self.pos(),
            decreases self.steps.len() - j,
        {
            proof {
                lemma_offsets(item_views(self.steps@), j as int);
            }
            if self.steps[j].move_count() > 0 {
                proof {
                    let items = item_views(self.steps@);
                    lemma_prefix_of(items, j + 1, items.len() as int);
                    assert(items.take(items.len() as int) =~= items);
                }
                return false;
            }
            j = j + 1;
        }
        proof {
            let items = item_views(self.steps@);
            assert(items.take(items.len() as int) =~= items);
        }
        true
    }
}

} // verus!
verus! {

/// A running list as the schedule sees it: its number, its moves, the
/// position reached and the wait in progress.
pub type RunModel = (u32, Seq<Op>, nat, Option<nat>);

/// Every running list advanced by `t`: the actions run, list after list,
/// and the lists still running.
pub open spec fn step_runs(runs: Seq<RunModel>, t: nat) -> (Seq<RunModel>, Seq<Seq<char>>)
    decreases runs.len(),
{
    if runs.len() == 0 {
        (Seq::empty(), Seq::empty())
    } else {
        let (kept, names) = step_runs(runs.drop_last(), t);
        let (k, ops, p, r) = runs.last();
        let (p2, r2, ns) = run(ops, p, r, t);
        if p2 >= ops.len() {
            (kept, names + ns)
        } else {
            (kept.push((k, ops, p2, r2)), names + ns)
        }
    }
}

/// The lists defined for the plugin and the lists running.
#[derive(Debug, Clone)]
pub struct ActionSchedule {
    lists: Vec<(u32, Vec<ActionItem>)>,
    running: Vec<(u32, ListRun)>,
}

pub open spec fn list_entry_views(v: Seq<(u32, Vec<ActionItem>)>) -> Seq<(u32, Seq<ActionItemView>)> {
    Seq::new(v.len(), |i: int| (v[i].0, item_views(v[i].1@)))
}

/// The items defined as list `idx`.
pub open spec fn list_of(lists: Seq<(u32, Seq<ActionItemView>)>, idx: u32) -> Option<Seq<ActionItemView>>
    decreases lists.len(),
{
    if lists.len() == 0 {
        None
    } else if lists.last().0 == idx {
        Some(lists.last().1)
    } else {
        list_of(lists.drop_last(), idx)
    }
}

/// `runs` with list `idx` (re)started on `ops`: in place if it was
/// running, else added last.
pub open spec fn restarted(runs: Seq<RunModel>, idx: u32, ops: Seq<Op>) -> Seq<RunModel> {
    if exists|i: int| 0 <= i < runs.len() && (#[trigger] runs[i]).0 == idx {
        let i = choose|i: int| 0 <= i < runs.len() && (#[trigger] runs[i]).0 == idx;
        runs.update(i, (idx, ops, 0nat, None))
    } else {
        runs.push((idx, ops, 0nat, None))
    }
}

pub open spec fn distinct_runs(runs: Seq<RunModel>) -> bool {
    forall|i: int, j: int| 0 <= i < j < runs.len() ==> runs[i].0 != runs[j].0
}

proof fn lemma_restarted_at(runs: Seq<RunModel>, idx: u32, ops: Seq<Op>, i: int)
    requires
        distinct_runs(runs),
        0 <= i < runs.len(),
        runs[i].0 == idx,
    ensures
        restarted(runs, idx, ops) == runs.update(i, (idx, ops, 0nat, None)),
{
    let c = choose|j: int| 0 <= j < runs.len() && (#[trigger] runs[j]).0 == idx;
    assert(c == i);
}

impl ActionSchedule {
    pub closed spec fn lists_view(&self) -> Seq<(u32, Seq<ActionItemView>)> {
        list_entry_views(self.lists@)
    }

    pub closed spec fn runs(&self) -> Seq<RunModel> {
        Seq::new(
            self.running@.len(),
            |i: int|
                (
                    self.running@[i].0,
                    self.running@[i].1.ops(),
                    self.running@[i].1.pos(),
                    self.running@[i].1.rem(),
                ),
        )
    }

    pub closed spec fn wf(&self) -> bool {
        &&& forall|i: int| 0 <= i < self.running@.len() ==> (#[trigger] self.running@[i]).1.wf()
        &&& distinct_runs(self.runs())
    }

    /// No list defined, none running.
    pub fn new() -> (r: Self)
        ensures
            r.wf(),
            r.lists_view() == Seq::<(u32, Seq<ActionItemView>)>::empty(),
            r.runs() == Seq::<RunModel>::empty(),
    {
        let r = ActionSchedule { lists: Vec::new(), running: Vec::new() };
        assert(r.lists_view() =~= Seq::<(u32, Seq<ActionItemView>)>::empty());
        assert(r.runs() =~= Seq::<RunModel>::empty());
        r
    }

    /// Defines list `index` from its option text (replacing an earlier
    /// definition).
    pub fn add_action_list(&mut self, index: u32, actions_str: &str)
        requires
            old(self).wf(),
        ensures
            final(self).wf(),
            final(self).runs() == old(self).runs(),
            list_of(final(self).lists_view(), index) == Some(action_items(split_on(actions_str@, '|'))),
            forall|k: u32| k != index ==> list_of(final(self).lists_view(), k) == list_of(
                old(self).lists_view(),
                k,
            ),
    {
        let steps = parse_action_list(actions_str);
        let ghost old_lists = self.lists_view();
        self.lists.push((index, steps));
        proof {
            assert(self.lists_view().drop_last() =~= old_lists);
        }
    }

    /// Starts (or restarts) list `idx` when it is defined and not empty.
    pub fn execute(&mut self, idx: u32)
        requires
            old(self).wf(),
        ensures
            final(self).wf(),
            final(self).lists_view() == old(self).lists_view(),
            match list_of(old(self).lists_view(), idx) {
                Some(items) => if items.len() > 0 {
                    final(self).runs() == restarted(old(self).runs(), idx, list_ops(items))
                } else {
                    final(self).runs() == old(self).runs()
                },
                None => final(self).runs() == old(self).runs(),
            },
    {
        let ghost lv = self.lists_view();
        let mut i = self.lists.len();
        assert(lv.take(i as int) =~= lv);
        while i > 0
            invariant
                i <= self.lists@.len(),
                lv == self.lists_view(),
                lv == old(self).lists_view(),
                self.wf(),
                self.runs() == old(self).runs(),
                list_of(lv, idx) == list_of(lv.take(i as int), idx),
            decreases i,
        {
            assert(lv.take(i as int).drop_last() =~= lv.take(i - 1));
            if self.lists[i - 1].0 == idx {
                if self.lists[i - 1].1.len() == 0 {
                    return;
                }
                let steps = copy_items(&self.lists[i - 1].1);
                let run = ListRun::start(steps);
                let ghost ops = run.ops();
                self.restart(idx, run);
                return;
            }
            i = i - 1;
        }
        assert(lv.take(0) =~= Seq::<(u32, Seq<ActionItemView>)>::empty());
    }

    fn restart(&mut self, idx: u32, run: ListRun)
        requires
            old(self).wf(),
            run.wf(),
            run.pos() == 0,
            run.rem() is None,
        ensures
            final(self).wf(),
            final(self).lists == old(self).lists,
            final(self).runs() == restarted(old(self).runs(), idx, run.ops()),
    {
        let ghost old_runs = self.runs();
        let mut i: usize = 0;
        while i < self.running.len()
            invariant
                i <= self.running@.len(),
                old_runs == self.runs(),
                old_runs == old(self).runs(),
                self.wf(),
                self.lists == old(self).lists,
                run.wf(),
                run.pos() == 0,
                run.rem() is None,
                forall|j: int| 0 <= j < i ==> self.running@[j].0 != idx,
            decreases self.running.len() - i,
        {
            if self.running[i].0 == idx {
                let ghost before = self.running@;
                self.running.set(i, (idx, run));
                proof {
                    assert(old_runs[i as int].0 == idx);
                    lemma_restarted_at(old_runs, idx, run.ops(), i as int);
                    assert(self.runs() =~= old_runs.update(i as int, (idx, run.ops(), 0nat, None)));
                    assert forall|j: int| 0 <= j < self.running@.len() implies (#[trigger] self.running@[j]).1.wf() by {
                        if j != i {
                            assert(self.running@[j] == before[j]);
                        }
                    }
                }
                return;
            }
            i = i + 1;
        }
        let ghost before = self.running@;
        self.running.push((idx, run));
        proof {
            assert(self.runs() =~= old_runs.push((idx, run.ops(), 0nat, None)));
            assert forall|j: int| 0 <= j < self.running@.len() implies (#[trigger] self.running@[j]).1.wf() by {
                if j < before.len() {
                    assert(self.running@[j] == before[j]);
                }
            }
        }
    }

    /// Stops list `idx`, or every list when `None`.
    pub fn stop(&mut self, list_idx: Option<u32>)
        requires
            old(self).wf(),
        ensures
            final(self).wf(),
            final(self).lists_view() == old(self).lists_view(),
            match list_idx {
                Some(idx) => final(self).runs() == without_run(old(self).runs(), idx),
                None => final(self).runs() == Seq::<RunModel>::empty(),
            },
    {
        match list_idx {
            None => {
                self.running = Vec::new();
                assert(self.runs() =~= Seq::<RunModel>::empty());
            },
            Some(idx) => {
                let ghost old_runs = self.runs();
                let mut kept: Vec<(u32, ListRun)> = Vec::new();
                let mut rest: Vec<(u32, ListRun)> = Vec::new();
                std::mem::swap(&mut rest, &mut self.running);
                let ghost all = rest@;
                assert(all.len() == rest.len());
                let mut i: usize = 0;
                while rest.len() > 0
                    invariant
                        all.len() == old_runs.len(),
                        all.len() <= usize::MAX,
                        i + rest@.len() == all.len(),
                        rest@ == all.skip(i as int),
                        forall|j: int| 0 <= j < all.len() ==> (#[trigger] all[j]).1.wf(),
                        forall|j: int| 0 <= j < all.len() ==> run_model(#[trigger] all[j]) == old_runs[j],
                        forall|j: int| 0 <= j < kept@.len() ==> (#[trigger] kept@[j]).1.wf(),
                        run_models(kept@) == without_run(old_runs.take(i as int), idx),
                        distinct_runs(old_runs),
                    decreases rest.len(),
                {
                    let e = rest.remove(0);
                    let ghost before = kept@;
                    proof {
                        assert(e == all[i as int]);
                        assert(rest@ =~= all.skip(i + 1));
                        assert(old_runs.take(i + 1).drop_last() =~= old_runs.take(i as int));
                        assert(old_runs.take(i + 1).last() == run_model(e));
                    }
                    if e.0 != idx {
                        kept.push(e);
                        assert(run_models(kept@) =~= run_models(before).push(run_model(e)));
                    }
                    i = i + 1;
                }
                assert(old_runs.take(i as int) =~= old_runs);
                self.running = kept;
                assert(self.runs() =~= run_models(self.running@));
                proof {
                    lemma_without_distinct(old_runs, idx);
                }
            },
        }
    }

    /// Whether any list is running.
    pub fn is_running(&self) -> (r: bool)
        ensures
            r == (self.runs().len() > 0),
    {
        self.running.len() > 0
    }

    /// Advances every running list by `delta_ms` milliseconds and returns
    /// the actions to run, in order; finished lists stop.
    pub fn step(&mut self, delta_ms: u64) -> (r: Vec<String>)
        requires
            old(self).wf(),
        ensures
            final(self).wf(),
            final(self).lists_view() == old(self).lists_view(),
            final(self).runs() == step_runs(old(self).runs(), delta_ms as nat).0,
            crate::text::views(r@) == step_runs(old(self).runs(), delta_ms as nat).1,
    {
        let ghost old_runs = self.runs();
        let mut kept: Vec<(u32, ListRun)> = Vec::new();
        let mut out: Vec<String> = Vec::new();
        let mut rest: Vec<(u32, ListRun)> = Vec::new();
        std::mem::swap(&mut rest, &mut self.running);
        let ghost all = rest@;
        assert(all.len() == rest.len());
        let mut i: usize = 0;
        while rest.len() > 0
            invariant
                all.len() == old_runs.len(),
                all.len() <= usize::MAX,
                i + rest@.len() == all.len(),
                rest@ == all.skip(i as int),
                forall|j: int| 0 <= j < all.len() ==> (#[trigger] all[j]).1.wf(),
                forall|j: int| 0 <= j < all.len() ==> run_model(#[trigger] all[j]) == old_runs[j],
                forall|j: int| 0 <= j < kept@.len() ==> (#[trigger] kept@[j]).1.wf(),
                run_models(kept@) == step_runs(old_runs.take(i as int), delta_ms as nat).0,
                crate::text::views(out@) == step_runs(old_runs.take(i as int), delta_ms as nat).1,
                distinct_runs(old_runs),
            decreases rest.len(),
        {
            let mut e = rest.remove(0);
            let ghost before = kept@;
            let ghost e0 = e;
            proof {
                assert(e == all[i as int]);
                assert(rest@ =~= all.skip(i + 1));
                assert(old_runs.take(i + 1).drop_last() =~= old_runs.take(i as int));
                assert(old_runs.take(i + 1).last() == run_model(e));
            }
            let done = e.1.advance(delta_ms, &mut out);
            if !done {
                kept.push(e);
                assert(run_models(kept@) =~= run_models(before).push(run_model(e)));
            }
            i = i + 1;
        }
        assert(old_runs.take(i as int) =~= old_runs);
        self.running = kept;
        assert(self.runs() =~= run_models(self.running@));
        proof {
            lemma_step_distinct(old_runs, delta_ms as nat);
        }
        out
    }

    /// Carries out a command (`Execute N`, `Stop N`, `Stop`).
    pub fn command(&mut self, cmd: &str)
        requires
            old(self).wf(),
        ensures
            final(self).wf(),
            final(self).lists_view() == old(self).lists_view(),
            match timer_command(cmd@) {
                TimerCommand::Execute(idx) => match list_of(old(self).lists_view(), idx) {
                    Some(items) => if items.len() > 0 {
                        final(self).runs() == restarted(old(self).runs(), idx, list_ops(items))
                    } else {
                        final(self).runs() == old(self).runs()
                    },
                    None => final(self).runs() == old(self).runs(),
                },
                TimerCommand::Stop(Some(idx)) => final(self).runs() == without_run(old(self).runs(), idx),
                TimerCommand::Stop(None) => final(self).runs() == Seq::<RunModel>::empty(),
                TimerCommand::Ignore => final(self).runs() == old(self).runs(),
            },
    {
        match parse_timer_command(cmd) {
            TimerCommand::Execute(idx) => self.execute(idx),
            TimerCommand::Stop(which) => self.stop(which),
            TimerCommand::Ignore => {},
        }
    }
}

pub open spec fn run_model(e: (u32, ListRun)) -> RunModel {
    (e.0, e.1.ops(), e.1.pos(), e.1.rem())
}

pub open spec fn run_models(v: Seq<(u32, ListRun)>) -> Seq<RunModel> {
    Seq::new(v.len(), |i: int| run_model(v[i]))
}

/// `runs` without list `idx`.
pub open spec fn without_run(runs: Seq<RunModel>, idx: u32) -> Seq<RunModel>
    decreases runs.len(),
{
    if runs.len() == 0 {
        Seq::empty()
    } else if runs.last().0 == idx {
        without_run(runs.drop_last(), idx)
    } else {
        without_run(runs.drop_last(), idx).push(runs.last())
    }
}

proof fn lemma_without_keys(runs: Seq<RunModel>, idx: u32)
    ensures
        forall|j: int| 0 <= j < without_run(runs, idx).len() ==> exists|k: int|
            0 <= k < runs.len() && runs[k].0 == (#[trigger] without_run(runs, idx)[j]).0,
    decreases runs.len(),
{
    if runs.len() > 0 {
        lemma_without_keys(runs.drop_last(), idx);
        let d = runs.drop_last();
        let w = without_run(runs, idx);
        let wd = without_run(d, idx);
        assert forall|j: int| 0 <= j < w.len() implies exists|k: int|
            0 <= k < runs.len() && runs[k].0 == (#[trigger] w[j]).0 by {
            if j < wd.len() {
                assert(w[j] == wd[j]);
                let k = choose|k: int| 0 <= k < d.len() && d[k].0 == (#[trigger] wd[j]).0;
                assert(runs[k] == d[k]);
            } else {
                assert(runs[runs.len() - 1].0 == w[j].0);
            }
        }
    }
}

proof fn lemma_without_distinct(runs: Seq<RunModel>, idx: u32)
    requires
        distinct_runs(runs),
    ensures
        distinct_runs(without_run(runs, idx)),
    decreases runs.len(),
{
    if runs.len() > 0 {
        let d = runs.drop_last();
        assert(distinct_runs(d)) by {
            assert forall|i: int, j: int| 0 <= i < j < d.len() implies d[i].0 != d[j].0 by {
                assert(d[i] == runs[i] && d[j] == runs[j]);
            }
        }
        lemma_without_distinct(d, idx);
        lemma_without_keys(d, idx);
        let w = without_run(runs, idx);
        let wd = without_run(d, idx);
        if runs.last().0 != idx {
            assert forall|i: int, j: int| 0 <= i < j < w.len() implies w[i].0 != w[j].0 by {
                if j == w.len() - 1 {
                    assert(w[i] == wd[i]);
                    let k = choose|k: int| 0 <= k < d.len() && d[k].0 == (#[trigger] wd[i]).0;
                    assert(runs[k] == d[k]);
                } else {
                    assert(w[i] == wd[i] && w[j] == wd[j]);
                }
            }
        }
    }
}

proof fn lemma_step_keys(runs: Seq<RunModel>, t: nat)
    ensures
        forall|j: int| 0 <= j < step_runs(runs, t).0.len() ==> exists|k: int|
            0 <= k < runs.len() && runs[k].0 == (#[trigger] step_runs(runs, t).0[j]).0,
    decreases runs.len(),
{
    if runs.len() > 0 {
        lemma_step_keys(runs.drop_last(), t);
        let d = runs.drop_last();
        let w = step_runs(runs, t).0;
        let wd = step_runs(d, t).0;
        assert forall|j: int| 0 <= j < w.len() implies exists|k: int|
            0 <= k < runs.len() && runs[k].0 == (#[trigger] w[j]).0 by {
            if j < wd.len() {
                assert(w[j] == wd[j]);
                let k = choose|k: int| 0 <= k < d.len() && d[k].0 == (#[trigger] wd[j]).0;
                assert(runs[k] == d[k]);
            } else {
                assert(runs[runs.len() - 1].0 == w[j].0);
            }
        }
    }
}

proof fn lemma_step_distinct(runs: Seq<RunModel>, t: nat)
    requires
        distinct_runs(runs),
    ensures
        distinct_runs(step_runs(runs, t).0),
    decreases runs.len(),
{
    if runs.len() > 0 {
        let d = runs.drop_last();
        assert(distinct_runs(d)) by {
            assert forall|i: int, j: int| 0 <= i < j < d.len() implies d[i].0 != d[j].0 by {
                assert(d[i] == runs[i] && d[j] == runs[j]);
            }
        }
        lemma_step_distinct(d, t);
        lemma_step_keys(d, t);
        let w = step_runs(runs, t).0;
        let wd = step_runs(d, t).0;
        if w.len() > wd.len() {
            assert forall|i: int, j: int| 0 <= i < j < w.len() implies w[i].0 != w[j].0 by {
                if j == w.len() - 1 {
                    assert(w[i] == wd[i]);
                    let k = choose|k: int| 0 <= k < d.len() && d[k].0 == (#[trigger] wd[i]).0;
                    assert(runs[k] == d[k]);
                } else {
                    assert(w[i] == wd[i] && w[j] == wd[j]);
                }
            }
        }
    }
}

} // verus!
verus! {

/// The bangs of an action's definition: the trimmed text inside each
/// `[...]`, left to right, up to the first `[` with no `]` after it.
pub open spec fn bracket_bangs(s: Seq<char>) -> Seq<Seq<char>>
    decreases s.len(),
{
    let a = crate::variables::find_from(s, 0, '[');
    if a == -1 {
        Seq::empty()
    } else {
        let b = crate::variables::find_from(s, a, ']');
        if b < 0 || b + 1 > s.len() {
            Seq::empty()
        } else {
            seq![trim(s.subrange(a + 1, b))] + bracket_bangs(s.skip(b + 1))
        }
    }
}

/// Splits an action's definition into its bangs.
pub fn action_bangs(content: &str) -> (r: Vec<String>)
    ensures
        views(r@) == bracket_bangs(content@),
{
    let v = to_chars(content);
    let mut out: Vec<String> = Vec::new();
    let mut idx: usize = 0;
    assert(v@.skip(0) =~= v@);
    while idx < v.len()
        invariant
            v@ == content@,
            idx <= v@.len(),
            views(out@) + bracket_bangs(v@.skip(idx as int)) == bracket_bangs(content@),
        decreases v.len() - idx,
    {
        let ghost s = v@.skip(idx as int);
        let mut a = idx;
        while a < v.len() && v[a] != '['
            invariant
                idx <= a <= v@.len(),
                forall|k: int| idx <= k < a ==> v@[k] != '[',
            decreases v.len() - a,
        {
            a = a + 1;
        }
        proof {
            crate::variables::lemma_find_from(s, 0, '[');
            let f = crate::variables::find_from(s, 0, '[');
            if f != -1 && f < a - idx {
                assert(s[f] == v@[idx + f]);
            }
            if a < v.len() {
                assert(s[a - idx] == '[');
            }
        }
        if a == v.len() {
            assert(crate::variables::find_from(s, 0, '[') == -1);
            assert(views(out@) + Seq::<Seq<char>>::empty() =~= views(out@));
            return out;
        }
        let mut b = a;
        while b < v.len() && v[b] != ']'
            invariant
                a <= b <= v@.len(),
                forall|k: int| a <= k < b ==> v@[k] != ']',
            decreases v.len() - b,
        {
            b = b + 1;
        }
        proof {
            let ai = (a - idx) as int;
            crate::variables::lemma_find_from(s, ai, ']');
            let f = crate::variables::find_from(s, ai, ']');
            if f != -1 && f < b - idx {
                assert(s[f] == v@[idx + f]);
            }
            if b < v.len() {
                assert(s[b - idx] == ']');
            }
        }
        if b == v.len() {
            assert(views(out@) + Seq::<Seq<char>>::empty() =~= views(out@));
            return out;
        }
        let (c, d) = trim_bounds(&v, a + 1, b);
        let bang = string_of(&v, c, d);
        let ghost before = views(out@);
        out.push(bang);
        proof {
            assert(s.subrange(a - idx + 1, b - idx) =~= v@.subrange(a + 1, b as int));
            assert(s.skip(b - idx + 1) =~= v@.skip(b + 1));
            assert(views(out@) =~= before.push(bang@));
            assert(before.push(bang@) + bracket_bangs(v@.skip(b + 1)) =~= before + (seq![bang@]
                + bracket_bangs(v@.skip(b + 1))));
        }
        idx = b + 1;
    }
    assert(v@.skip(idx as int) =~= Seq::<char>::empty());
    assert(views(out@) + Seq::<Seq<char>>::empty() =~= views(out@));
    out
}

/// The text with one surrounding pair of `open` and `close` removed when
/// it has one.
pub open spec fn unwrap_pair(s: Seq<char>, open: char, close: char) -> Seq<char> {
    if s.len() >= 2 && s[0] == open && s.last() == close {
        s.subrange(1, s.len() - 1)
    } else {
        s
    }
}

/// What a `!SetVariable` bang inside an action asks for: the variable, the
/// value (expanded, without surrounding quotes, trimmed) and the formula
/// to try first (the value without surrounding parentheses).
pub open spec fn set_variable_parts(bang: Seq<char>, vars: Map<Seq<char>, Seq<char>>) -> Option<
    (Seq<char>, Seq<char>, Seq<char>),
> {
    let t = trim(bang);
    if !starts_with(lower(t), "!setvariable"@) {
        None
    } else {
        let rest = trim(t.skip(12));
        let w = first_ws(rest, 0);
        if w == -1 {
            None
        } else {
            let name = trim(rest.take(w));
            let value = trim(rest.skip(w + 1));
            let cleaned = trim(unwrap_pair(crate::variables::expand_spec(vars, value), '"', '"'));
            Some((name, cleaned, unwrap_pair(cleaned, '(', ')')))
        }
    }
}

/// First index from `i` holding white space, or -1.
pub open spec fn first_ws(s: Seq<char>, i: int) -> int
    decreases s.len() - i,
{
    if i < 0 || i >= s.len() {
        -1
    } else if crate::text::is_ws(s[i]) {
        i
    } else {
        first_ws(s, i + 1)
    }
}

fn unwrap_exec(v: &Vec<char>, open: char, close: char) -> (r: Vec<char>)
    ensures
        r@ == unwrap_pair(v@, open, close),
{
    if v.len() >= 2 && v[0] == open && v[v.len() - 1] == close {
        let mut r: Vec<char> = Vec::new();
        let mut i: usize = 1;
        while i < v.len() - 1
            invariant
                1 <= i <= v@.len() - 1,
                v@.len() >= 2,
                r@ == v@.subrange(1, i as int),
            decreases v.len() - 1 - i,
        {
            r.push(v[i]);
            i = i + 1;
            assert(r@ =~= v@.subrange(1, i as int));
        }
        r
    } else {
        let r = crate::text::to_chars(crate::text::string_of_all(v).as_str());
        r
    }
}

/// Reads a `!SetVariable` bang of an action, expanding its value with the
/// plugin's variables; the caller evaluates the formula.
pub fn set_variable_plan(bang: &str, vars: &crate::variables::VariableMap) -> (r: Option<(String, String, String)>)
    requires
        vars.wf(),
    ensures
        match r {
            Some((n, c, f)) => set_variable_parts(bang@, vars@) == Some((n@, c@, f@)),
            None => set_variable_parts(bang@, vars@) is None,
        },
{
    let v = to_chars(bang);
    assert(v@.subrange(0, v@.len() as int) =~= v@);
    let (a, b) = trim_bounds(&v, 0, v.len());
    let ghost t = v@.subrange(a as int, b as int);
    let l = lower_range(&v, a, b);
    proof {
        reveal_strlit("!setvariable");
    }
    if !starts_with_str(&l, "!setvariable") {
        return None;
    }
    let (c, d) = trim_bounds(&v, a + 12, b);
    assert(t.skip(12) =~= v@.subrange(a + 12, b as int));
    let ghost rest = v@.subrange(c as int, d as int);
    let mut w = c;
    while w < d && !crate::text::is_whitespace(v[w])
        invariant
            c <= w <= d <= v@.len(),
            rest == v@.subrange(c as int, d as int),
            first_ws(rest, 0) == first_ws(rest, w - c),
        decreases d - w,
    {
        w = w + 1;
    }
    if w == d {
        return None;
    }
    assert(first_ws(rest, 0) == w - c);
    let (n0, n1) = trim_bounds(&v, c, w);
    let (v0, v1) = trim_bounds(&v, w + 1, d);
    assert(rest.take(w - c) =~= v@.subrange(c as int, w as int));
    assert(rest.skip(w - c + 1) =~= v@.subrange(w + 1, d as int));
    let name = string_of(&v, n0, n1);
    let value = string_of(&v, v0, v1);
    let expanded = to_chars(vars.expand(value.as_str()).as_str());
    let unq = unwrap_exec(&expanded, '"', '"');
    let (q0, q1) = trim_bounds(&unq, 0, unq.len());
    assert(unq@.subrange(0, unq@.len() as int) =~= unq@);
    let cleaned_v = to_chars(string_of(&unq, q0, q1).as_str());
    let formula_v = unwrap_exec(&cleaned_v, '(', ')');
    Some((name, crate::text::string_of_all(&cleaned_v), crate::text::string_of_all(&formula_v)))
}

} // verus!
verus! {

/// The definition an action name stands for: the action of that name
/// (without case) when there is one, else the name itself.
pub open spec fn action_text(actions: Map<Seq<char>, Seq<char>>, name: Seq<char>) -> Seq<char> {
    if actions.contains_key(lower(name)) {
        actions[lower(name)]
    } else {
        name
    }
}

/// The bangs the actions `names` run, one action after the other.
pub open spec fn bangs_of_actions(actions: Map<Seq<char>, Seq<char>>, names: Seq<Seq<char>>) -> Seq<Seq<char>>
    decreases names.len(),
{
    if names.len() == 0 {
        Seq::empty()
    } else {
        bangs_of_actions(actions, names.drop_last()) + bracket_bangs(action_text(actions, names.last()))
    }
}

/// An ActionTimer measure: its action lists, its named actions and the
/// variables its `!SetVariable` bangs change.
pub struct ActionTimer {
    pub schedule: ActionSchedule,
    pub actions: crate::variables::VariableMap,
    pub variables: crate::variables::VariableMap,
}

impl ActionTimer {
    pub open spec fn wf(&self) -> bool {
        &&& self.schedule.wf()
        &&& self.actions.wf()
        &&& self.variables.wf()
    }

    /// No list, no action, the built-in variables.
    pub fn new() -> (r: Self)
        ensures
            r.wf(),
            r.schedule.lists_view() == Seq::<(u32, Seq<ActionItemView>)>::empty(),
            r.schedule.runs() == Seq::<RunModel>::empty(),
            r.actions@ == Map::<Seq<char>, Seq<char>>::empty(),
            r.variables@ == crate::variables::builtin_vars(),
    {
        ActionTimer {
            schedule: ActionSchedule::new(),
            actions: crate::variables::VariableMap::empty(),
            variables: crate::variables::VariableMap::new(),
        }
    }

    /// Defines the action `name` (kept without case).
    pub fn add_action(&mut self, name: &str, action_def: &str)
        requires
            old(self).wf(),
        ensures
            final(self).wf(),
            final(self).actions@ == old(self).actions@.insert(lower(name@), action_def@),
            final(self).variables@ == old(self).variables@,
            final(self).schedule.runs() == old(self).schedule.runs(),
            final(self).schedule.lists_view() == old(self).schedule.lists_view(),
    {
        self.actions.set(name, action_def);
    }

    pub fn set_variable(&mut self, key: &str, value: &str)
        requires
            old(self).wf(),
        ensures
            final(self).wf(),
            final(self).variables@ == old(self).variables@.insert(lower(key@), value@),
            final(self).actions@ == old(self).actions@,
            final(self).schedule.runs() == old(self).schedule.runs(),
            final(self).schedule.lists_view() == old(self).schedule.lists_view(),
    {
        self.variables.set(key, value);
    }

    pub fn get_variable(&self, key: &str) -> (r: Option<&str>)
        requires
            self.wf(),
        ensures
            match r {
                Some(v) => self.variables@.contains_key(lower(key@)) && v@ == self.variables@[lower(key@)],
                None => !self.variables@.contains_key(lower(key@)),
            },
    {
        self.variables.get(key)
    }

    /// The definition an action name runs.
    pub fn action_content(&self, name: &str) -> (r: String)
        requires
            self.wf(),
        ensures
            r@ == action_text(self.actions@, name@),
    {
        match self.actions.get(name) {
            Some(d) => d.to_string(),
            None => name.to_string(),
        }
    }

    /// Advances the running lists by `delta_ms` and returns the bangs of
    /// the actions that became due, in order.
    pub fn step(&mut self, delta_ms: u64) -> (r: Vec<String>)
        requires
            old(self).wf(),
        ensures
            final(self).wf(),
            final(self).schedule.runs() == step_runs(old(self).schedule.runs(), delta_ms as nat).0,
            final(self).schedule.lists_view() == old(self).schedule.lists_view(),
            final(self).actions@ == old(self).actions@,
            final(self).variables@ == old(self).variables@,
            views(r@) == bangs_of_actions(old(self).actions@, step_runs(old(self).schedule.runs(), delta_ms as nat).1),
    {
        let names = self.schedule.step(delta_ms);
        let ghost nv = views(names@);
        let mut out: Vec<String> = Vec::new();
        let mut i: usize = 0;
        while i < names.len()
            invariant
                self.wf(),
                nv == views(names@),
                i <= names@.len(),
                views(out@) == bangs_of_actions(self.actions@, nv.take(i as int)),
            decreases names.len() - i,
        {
            let content = self.action_content(names[i].as_str());
            let bangs = action_bangs(content.as_str());
            let ghost before = views(out@);
            let mut k: usize = 0;
            while k < bangs.len()
                invariant
                    k <= bangs@.len(),
                    views(out@) == before + views(bangs@).take(k as int),
                decreases bangs.len() - k,
            {
                let b = bangs[k].clone();
                let ghost prev = views(out@);
                out.push(b);
                proof {
                    assert(b@ == bangs@[k as int]@);
                    assert(views(out@) =~= prev.push(b@));
                    assert(views(bangs@)[k as int] == bangs@[k as int]@);
                    assert(views(out@) =~= before + views(bangs@).take(k + 1));
                }
                k = k + 1;
            }
            proof {
                assert(views(bangs@).take(bangs@.len() as int) =~= views(bangs@));
                assert(nv.take(i + 1).drop_last() =~= nv.take(i as int));
                assert(nv.take(i + 1).last() == names@[i as int]@);
            }
            i = i + 1;
        }
        proof {
            assert(nv.take(names@.len() as int) =~= nv);
        }
        out
    }

    /// Sets the variable a `!SetVariable` bang names to the value the
    /// caller computed from its formula, or to the bang's text when the
    /// formula did not compute; `false` when the bang is no `!SetVariable`.
    pub fn apply_set_variable(&mut self, bang: &str, computed: Option<&str>) -> (r: bool)
        requires
            old(self).wf(),
        ensures
            final(self).wf(),
            final(self).actions@ == old(self).actions@,
            final(self).schedule.runs() == old(self).schedule.runs(),
            final(self).schedule.lists_view() == old(self).schedule.lists_view(),
            match set_variable_parts(bang@, old(self).variables@) {
                Some((n, text, _)) => r && final(self).variables@ == old(self).variables@.insert(
                    lower(n),
                    match computed {
                        Some(c) => c@,
                        None => text,
                    },
                ),
                None => !r && final(self).variables@ == old(self).variables@,
            },
    {
        match set_variable_plan(bang, &self.variables) {
            Some((n, text, _formula)) => {
                match computed {
                    Some(c) => self.variables.set(n.as_str(), c),
                    None => self.variables.set(n.as_str(), text.as_str()),
                }
                true
            },
            None => false,
        }
    }

    /// The formula of a `!SetVariable` bang, for the caller to compute.
    pub fn set_variable_formula(&self, bang: &str) -> (r: Option<String>)
        requires
            self.wf(),
        ensures
            match set_variable_parts(bang@, self.variables@) {
                Some((_, _, f)) => r matches Some(s) && s@ == f,
                None => r is None,
            },
    {
        match set_variable_plan(bang, &self.variables) {
            Some((_, _, f)) => Some(f),
            None => None,
        }
    }
}

} // verus!
