//! The skin runtime's bookkeeping: errors, the state it reports, how a
//! loaded skin is named and found again from a user's query, and when a
//! skin is due for an update.
use crate::display::{as_i32, backend_name, BackendType, DisplayError, SurfaceBounds};
use crate::ini::ParseError;
use crate::text::{
    contains_chars, contains_seq, ends_with, ends_with_chars, eq_ignore_case, eq_ignore_case_str,
    lower, lower_range, replace_str, replaced, split_on, split_str, str_eq, string_of, to_chars,
    trim, trim_str, views,
};
use vstd::prelude::*;

verus! {

#[derive(Debug, Clone, PartialEq)]
pub enum RuntimeError {
    SkinNotFound(String),
    SkinAlreadyLoaded(String),
    Parse(ParseError),
    Display(DisplayError),
    Render(String),
    /// An I/O failure, with its message.
    Io(String),
}

/// What the daemon reports about itself.
#[derive(Debug, Clone)]
pub struct DaemonState {
    pub status: String,
    pub uptime_secs: u64,
    pub active_skins: Vec<String>,
    pub backend: String,
}

impl DaemonState {
    /// The state of a running daemon.
    pub fn running(uptime_secs: u64, active_skins: Vec<String>, backend: BackendType) -> (r: Self)
        ensures
            r.status@ == "running"@,
            r.uptime_secs == uptime_secs,
            r.active_skins@ == active_skins@,
            r.backend@ == backend_name(backend),
    {
        DaemonState {
            status: "running".to_string(),
            uptime_secs,
            active_skins,
            backend: backend.name(),
        }
    }
}

/// What the daemon reports about a loaded skin.
#[derive(Debug, Clone)]
pub struct SkinInfo {
    pub id: String,
    pub path: String,
    pub update_rate_ms: u64,
    pub measures_count: usize,
    pub meters_count: usize,
    pub bounds: SurfaceBounds,
}

pub open spec fn os(o: Option<&str>) -> Option<Seq<char>> {
    match o {
        Some(s) => Some(s@),
        None => None,
    }
}

/// The id a skin file gets from its stem and its folder: the stem alone
/// at the top of the skins tree (or with no folder), the folder alone when
/// the stem repeats it, else `folder/stem`. A missing stem reads `Skin`.
pub open spec fn base_id(stem: Option<Seq<char>>, parent: Option<Seq<char>>) -> Seq<char> {
    let s = match stem {
        Some(v) => v,
        None => "Skin"@,
    };
    let p = match parent {
        Some(v) => v,
        None => Seq::empty(),
    };
    if p.len() == 0 || eq_ignore_case(p, "skins"@) {
        s
    } else if eq_ignore_case(s, p) {
        p
    } else {
        p + seq!['/'] + s
    }
}

fn join_slash(a: &str, b: &str) -> (r: String)
    ensures
        r@ == a@ + seq!['/'] + b@,
{
    let mut v = to_chars(a);
    v.push('/');
    let bv = to_chars(b);
    let ghost pre = v@;
    let mut i: usize = 0;
    while i < bv.len()
        invariant
            i <= bv@.len(),
            v@ == pre + bv@.take(i as int),
        decreases bv.len() - i,
    {
        v.push(bv[i]);
        i = i + 1;
        assert(v@ =~= pre + bv@.take(i as int));
    }
    assert(bv@.take(bv@.len() as int) =~= bv@);
    crate::text::string_of_all(&v)
}

/// Names a skin from its file's stem and the name of its folder.
pub fn base_skin_id(stem: Option<&str>, parent: Option<&str>) -> (r: String)
    ensures
        r@ == base_id(os(stem), os(parent)),
{
    let s = match stem {
        Some(v) => v,
        None => "Skin",
    };
    let p = match parent {
        Some(v) => v,
        None => "",
    };
    proof {
        reveal_strlit("");
    }
    if to_chars(p).len() == 0 || eq_ignore_case_str(p, "skins") {
        s.to_string()
    } else if eq_ignore_case_str(s, p) {
        assert(eq_ignore_case(s@, p@) == eq_ignore_case(p@, s@));
        p.to_string()
    } else {
        join_slash(p, s)
    }
}

/// When the base id is already taken, the skin is named after its
/// grand-parent folder too, unless that is missing or the skins tree.
pub open spec fn qualified_id(base: Seq<char>, grand: Option<Seq<char>>, taken: bool) -> Seq<char> {
    match grand {
        Some(g) => if taken && g.len() > 0 && !eq_ignore_case(g, "skins"@) {
            g + seq!['/'] + base
        } else {
            base
        },
        None => base,
    }
}

/// Qualifies a skin id that is already taken.
pub fn qualified_skin_id(base: &str, grand: Option<&str>, taken: bool) -> (r: String)
    ensures
        r@ == qualified_id(base@, os(grand), taken),
{
    match grand {
        Some(g) => {
            if taken && to_chars(g).len() > 0 && !eq_ignore_case_str(g, "skins") {
                join_slash(g, base)
            } else {
                base.to_string()
            }
        },
        None => base.to_string(),
    }
}

/// A skin with a non-zero update rate is due once that many milliseconds
/// have passed since its last tick; a zero rate never updates.
pub fn tick_due(update_rate_ms: u64, elapsed_ms: u128) -> (r: bool)
    ensures
        r == (update_rate_ms != 0 && elapsed_ms >= update_rate_ms),
{
    update_rate_ms != 0 && elapsed_ms >= update_rate_ms as u128
}

/// The last component of a path as `Path::file_name` sees it: the last
/// segment that is neither empty nor `.`, unless that is `..`.
pub open spec fn last_segment(segs: Seq<Seq<char>>) -> Option<Seq<char>>
    decreases segs.len(),
{
    if segs.len() == 0 {
        None
    } else if segs.last().len() == 0 || segs.last() == "."@ {
        last_segment(segs.drop_last())
    } else if segs.last() == ".."@ {
        None
    } else {
        Some(segs.last())
    }
}

/// `Path::file_stem`: the file name before its last `.`, unless the only
/// `.` starts the name.
pub open spec fn file_stem(path: Seq<char>) -> Option<Seq<char>> {
    match last_segment(split_on(path, '/')) {
        Some(name) => {
            let d = last_dot(name, name.len() as int);
            if d <= 0 {
                Some(name)
            } else {
                Some(name.take(d))
            }
        },
        None => None,
    }
}

/// The last index below `i` holding a `.`, or -1.
pub open spec fn last_dot(s: Seq<char>, i: int) -> int
    decreases i,
{
    if i <= 0 {
        -1
    } else if s[i - 1] == '.' {
        i - 1
    } else {
        last_dot(s, i - 1)
    }
}

fn stem_exec(path: &str) -> (r: Option<String>)
    ensures
        match r {
            Some(s) => file_stem(path@) == Some(s@),
            None => file_stem(path@) is None,
        },
{
    let segs = split_str(path, '/');
    let ghost sv = views(segs@);
    let mut n = segs.len();
    assert(sv.take(n as int) =~= sv);
    while n > 0 && (to_chars(segs[n - 1].as_str()).len() == 0 || str_eq(segs[n - 1].as_str(), "."))
        invariant
            sv == views(segs@),
            sv == split_on(path@, '/'),
            n <= segs@.len(),
            last_segment(sv) == last_segment(sv.take(n as int)),
        decreases n,
    {
        assert(sv.take(n as int).drop_last() =~= sv.take(n - 1));
        assert(sv.take(n as int).last() == segs@[n - 1]@);
        n = n - 1;
    }
    if n == 0 {
        assert(sv.take(0) =~= Seq::<Seq<char>>::empty());
        return None;
    }
    assert(sv.take(n as int).last() == segs@[n - 1]@);
    if str_eq(segs[n - 1].as_str(), "..") {
        return None;
    }
    let name = to_chars(segs[n - 1].as_str());
    let mut d = name.len();
    while d > 0 && name[d - 1] != '.'
        invariant
            d <= name@.len(),
            last_dot(name@, name@.len() as int) == last_dot(name@, d as int),
        decreases d,
    {
        d = d - 1;
    }
    if d <= 1 {
        Some(crate::text::string_of_all(&name))
    } else {
        assert(name@.take(d - 1) =~= name@.subrange(0, d - 1));
        Some(string_of(&name, 0, d - 1))
    }
}

/// Slash-normalised, lower-case form of a query (` / ` and `\` become `/`).
pub open spec fn query_norm(q: Seq<char>) -> Seq<char> {
    lower(replaced(replaced(q, " / "@, "/"@), "\\"@, "/"@))
}

/// Slash-normalised, lower-case form of a path.
pub open spec fn path_norm(p: Seq<char>) -> Seq<char> {
    lower(replaced(p, "\\"@, "/"@))
}

/// Whether the loaded skin `key` at `path` answers the trimmed query `q`:
/// its id in any case, its path or an end of it, its normalised path
/// containing the normalised query, or its file stem in any case.
pub open spec fn skin_answers(key: Seq<char>, path: Seq<char>, q: Seq<char>) -> bool {
    ||| eq_ignore_case(key, q)
    ||| path == q
    ||| ends_with(path, q)
    ||| contains_seq(path_norm(path), query_norm(q))
    ||| ends_with(path_norm(path), query_norm(q))
    ||| (file_stem(path) matches Some(s) && eq_ignore_case(s, q))
}

fn answers_exec(key: &str, path: &str, q: &str) -> (r: bool)
    ensures
        r == skin_answers(key@, path@, q@),
{
    if eq_ignore_case_str(key, q) {
        return true;
    }
    let pv = to_chars(path);
    let qv = to_chars(q);
    if crate::text::eq_chars(&pv, &qv) || ends_with_chars(&pv, &qv) {
        return true;
    }
    let qn = crate::text::lower_str(replace_str(replace_str(q, " / ", "/").as_str(), "\\", "/").as_str());
    let pn = crate::text::lower_str(replace_str(path, "\\", "/").as_str());
    let qnv = to_chars(qn.as_str());
    let pnv = to_chars(pn.as_str());
    if contains_chars(&pnv, &qnv) || ends_with_chars(&pnv, &qnv) {
        return true;
    }
    match stem_exec(path) {
        Some(s) => eq_ignore_case_str(s.as_str(), q),
        None => false,
    }
}

/// The first entry (in the given order) that answers the query.
pub open spec fn first_answer(entries: Seq<(Seq<char>, Seq<char>)>, q: Seq<char>, i: int) -> int
    decreases entries.len() - i,
{
    if i < 0 || i >= entries.len() {
        -1
    } else if skin_answers(entries[i].0, entries[i].1, q) {
        i
    } else {
        first_answer(entries, q, i + 1)
    }
}

pub open spec fn entry_views(v: Seq<(String, String)>) -> Seq<(Seq<char>, Seq<char>)> {
    Seq::new(v.len(), |i: int| (v[i].0@, v[i].1@))
}

/// The loaded skin a user's query names: the skin whose id is exactly the
/// trimmed query, else the first (in the runtime's order) that answers it.
pub open spec fn skin_for_query(entries: Seq<(Seq<char>, Seq<char>)>, query: Seq<char>) -> Option<
    Seq<char>,
> {
    let q = trim(query);
    if exists|i: int| 0 <= i < entries.len() && #[trigger] entries[i].0 == q {
        Some(q)
    } else {
        let i = first_answer(entries, q, 0);
        if i == -1 {
            None
        } else {
            Some(entries[i].0)
        }
    }
}

/// Finds the id of the loaded skin a query names, among `(id, path)`
/// entries with distinct ids.
pub fn find_skin_key(entries: &Vec<(String, String)>, query: &str) -> (r: Option<String>)
    ensures
        crate::measures::ov(r) == skin_for_query(entry_views(entries@), query@),
{
    let ghost ev = entry_views(entries@);
    let q = trim_str(query);
    let qv = to_chars(q.as_str());
    let mut i: usize = 0;
    while i < entries.len()
        invariant
            ev == entry_views(entries@),
            qv@ == q@,
            q@ == trim(query@),
            i <= entries@.len(),
            forall|j: int| 0 <= j < i ==> ev[j].0 != q@,
        decreases entries.len() - i,
    {
        if crate::text::eq_str(&qv, entries[i].0.as_str()) {
            assert(ev[i as int].0 == q@);
            return Some(q);
        }
        i = i + 1;
    }
    let mut k: usize = 0;
    while k < entries.len()
        invariant
            ev == entry_views(entries@),
            q@ == trim(query@),
            forall|j: int| 0 <= j < ev.len() ==> ev[j].0 != q@,
            k <= entries@.len(),
            first_answer(ev, q@, 0) == first_answer(ev, q@, k as int),
        decreases entries.len() - k,
    {
        if answers_exec(entries[k].0.as_str(), entries[k].1.as_str(), q.as_str()) {
            return Some(entries[k].0.clone());
        }
        k = k + 1;
    }
    None
}

} // verus!
verus! {

/// Whether the regular expression `pattern` finds a match in `text` (an
/// invalid pattern finds none).
pub uninterp spec fn regex_finds(pattern: Seq<char>, text: Seq<char>) -> bool;

/// `regex::Regex::new` and `Regex::is_match`: whether the compiled pattern
/// matches somewhere in `text`; false when the pattern does not compile.
/// What the regex engine matches is left to that crate.
#[verifier::external_body]
fn regex_is_match(pattern: &str, text: &str) -> (r: bool)
    ensures
        r == regex_finds(pattern@, text@),
{
    match regex::Regex::new(pattern) {
        Ok(re) => re.is_match(text),
        Err(_) => false,
    }
}

/// A measure with update divider `d` updates on the ticks that are
/// multiples of `d` (every tick when `d` is 0 or 1).
pub fn measure_due(tick_count: u64, update_divider: u32) -> (r: bool)
    ensures
        r == (tick_count % (if update_divider == 0 {
            1
        } else {
            update_divider as u64
        }) == 0),
{
    let d: u64 = if update_divider == 0 {
        1
    } else {
        update_divider as u64
    };
    tick_count % d == 0
}

/// The actions a measure's new value sets off before its `IfMatch` test:
/// `OnUpdateAction` always, then `OnChangeAction` when the shown value
/// differs from the one before (or there was none).
pub open spec fn update_action_texts(props: Map<Seq<char>, Seq<char>>, old: Option<Seq<char>>, new: Seq<char>) -> Seq<
    Seq<char>,
> {
    (match crate::render::meters::opt_of(props, "onupdateaction"@) {
        Some(a) => seq![a],
        None => seq![],
    }) + (match crate::render::meters::opt_of(props, "onchangeaction"@) {
        Some(a) => if old != Some(new) {
            seq![a]
        } else {
            seq![]
        },
        None => seq![],
    })
}

fn get_owned(props: &crate::variables::VariableMap, key: &str) -> (r: Option<String>)
    requires
        props.wf(),
    ensures
        crate::measures::ov(r) == crate::render::meters::opt_of(props@, key@),
{
    match props.get(key) {
        Some(v) => Some(v.to_string()),
        None => None,
    }
}

/// The actions (as written) a measure's options run for a new value.
pub fn update_actions(props: &crate::variables::VariableMap, old_value: Option<&str>, new_value: &str) -> (r: Vec<
    String,
>)
    requires
        props.wf(),
    ensures
        views(r@) == update_action_texts(props@, crate::measures::opt_view(old_value), new_value@),
{
    let mut out: Vec<String> = Vec::new();
    match get_owned(props, "onupdateaction") {
        Some(a) => out.push(a),
        None => {},
    }
    let ghost first = views(out@);
    match get_owned(props, "onchangeaction") {
        Some(a) => {
            let changed = match old_value {
                Some(o) => !str_eq(o, new_value),
                None => true,
            };
            if changed {
                out.push(a);
                proof {
                    assert(views(out@) =~= first + seq![a@]);
                }
            } else {
                proof {
                    assert(views(out@) =~= first + Seq::<Seq<char>>::empty());
                }
            }
        },
        None => {
            proof {
                assert(views(out@) =~= first + Seq::<Seq<char>>::empty());
            }
        },
    }
    proof {
        assert(first =~= match crate::render::meters::opt_of(props@, "onupdateaction"@) {
            Some(a) => seq![a],
            None => seq![],
        });
    }
    out
}

/// The action the `IfMatch` test of a measure picks, given the expanded
/// pattern: `IfMatchAction` when the value equals the pattern or the
/// pattern (as a regular expression) matches it, else `IfNotMatchAction`.
pub open spec fn match_action_text(props: Map<Seq<char>, Seq<char>>, pattern: Seq<char>, value: Seq<char>) -> Option<
    Seq<char>,
> {
    if value == pattern || regex_finds(pattern, value) {
        crate::render::meters::opt_of(props, "ifmatchaction"@)
    } else {
        crate::render::meters::opt_of(props, "ifnotmatchaction"@)
    }
}

/// The `IfMatch` action of a measure for its new value: `None` without an
/// `IfMatch` option; the pattern is expanded with the skin's variables
/// and measure values, the measure being the current section.
pub fn match_action(
    vars: &crate::variables::VariableMap,
    name: &str,
    props: &crate::variables::VariableMap,
    values: &Vec<crate::variables::SectionValue>,
    new_value: &str,
) -> (r: Option<String>)
    requires
        vars.wf(),
        props.wf(),
        match crate::render::meters::opt_of(props@, "ifmatch"@) {
            Some(p) => crate::variables::cs_ends(p, name@),
            None => true,
        },
    ensures
        crate::measures::ov(r) == (match crate::render::meters::opt_of(props@, "ifmatch"@) {
            Some(p) => match_action_text(
                props@,
                crate::variables::full_context(vars@, p, Some(name@), Some(values@), None),
                new_value@,
            ),
            None => None,
        }),
{
    match props.get("ifmatch") {
        None => None,
        Some(p) => {
            let pattern = vars.expand_with_context(p, Some(name), Some(values));
            if str_eq(new_value, pattern.as_str()) || regex_is_match(pattern.as_str(), new_value) {
                get_owned(props, "ifmatchaction")
            } else {
                get_owned(props, "ifnotmatchaction")
            }
        },
    }
}

} // verus!
verus! {

/// The action a mouse button runs on a meter: button 1 its left-button-up
/// action, else its left-button-down action; 2 its middle-button action;
/// 3 its right-button action; other buttons none.
pub open spec fn button_action(a: crate::render::meters::MeterActions, button: u32) -> Option<Seq<char>> {
    if button == 1 {
        crate::measures::first_of(crate::measures::ov(a.left_mouse_up), crate::measures::ov(a.left_mouse_down))
    } else if button == 2 {
        crate::measures::ov(a.middle_mouse_up)
    } else if button == 3 {
        crate::measures::ov(a.right_mouse_up)
    } else {
        None
    }
}

/// The topmost of the first `n` hit boxes that holds the click and has an
/// action for the button (the last drawn is on top).
pub open spec fn click_target(hits: Seq<bool>, actions: Seq<crate::render::meters::MeterActions>, button: u32, n: int) -> Option<int>
    decreases n,
{
    if n <= 0 {
        None
    } else if hits[n - 1] && button_action(actions[n - 1], button) is Some {
        Some(n - 1)
    } else {
        click_target(hits, actions, button, n - 1)
    }
}

fn owned(o: &Option<String>) -> (r: Option<String>)
    ensures
        crate::measures::ov(r) == crate::measures::ov(*o),
{
    match o {
        Some(s) => Some(s.clone()),
        None => None,
    }
}

/// Which box a click lands on and the action it runs: `hits[i]` tells
/// whether box `i` holds the click point, `actions[i]` are its meter's
/// actions.
pub fn click_action(hits: &Vec<bool>, actions: &Vec<crate::render::meters::MeterActions>, button: u32) -> (r: Option<(usize, String)>)
    requires
        hits@.len() == actions@.len(),
    ensures
        match click_target(hits@, actions@, button, hits@.len() as int) {
            Some(k) => r matches Some((i, s)) && i == k && button_action(actions@[k], button) == Some(s@),
            None => r is None,
        },
{
    let mut n: usize = hits.len();
    while n > 0
        invariant
            hits@.len() == actions@.len(),
            n <= hits@.len(),
            click_target(hits@, actions@, button, hits@.len() as int) == click_target(hits@, actions@, button, n as int),
        decreases n,
    {
        let i = n - 1;
        if hits[i] {
            let a = &actions[i];
            let act = if button == 1 {
                match owned(&a.left_mouse_up) {
                    Some(s) => Some(s),
                    None => owned(&a.left_mouse_down),
                }
            } else if button == 2 {
                owned(&a.middle_mouse_up)
            } else if button == 3 {
                owned(&a.right_mouse_up)
            } else {
                None
            };
            match act {
                Some(s) => {
                    return Some((i, s));
                },
                None => {},
            }
        }
        n = i;
    }
    None
}

} // verus!
verus! {

/// What a `!ShowMeter`, `!HideMeter` or `!ToggleMeter` bang does.
#[derive(Debug, Clone, Copy, PartialEq, Eq)]
pub enum MeterVisibility {
    Show,
    Hide,
    Toggle,
}

/// The hidden flag after a visibility bang.
pub open spec fn hidden_after(hidden: bool, v: MeterVisibility) -> bool {
    match v {
        MeterVisibility::Show => false,
        MeterVisibility::Hide => true,
        MeterVisibility::Toggle => !hidden,
    }
}

/// The meter is the section `name` (without case).
pub open spec fn names_meter(m: crate::ini::MeterOptions, name: Seq<char>) -> bool {
    eq_ignore_case(m.name@, name)
}

/// Shows, hides or toggles the meter named `name`.
pub fn set_meter_visibility(meters: &mut Vec<crate::ini::MeterOptions>, name: &str, v: MeterVisibility)
    ensures
        final(meters)@.len() == old(meters)@.len(),
        forall|i: int|
            0 <= i < old(meters)@.len() ==> #[trigger] final(meters)@[i] == (if names_meter(old(meters)@[i], name@) {
                crate::ini::MeterOptions { hidden: hidden_after(old(meters)@[i].hidden, v), ..old(meters)@[i] }
            } else {
                old(meters)@[i]
            }),
{
    let ghost start = meters@;
    let mut i: usize = 0;
    while i < meters.len()
        invariant
            meters@.len() == start.len(),
            i <= meters@.len(),
            forall|j: int|
                0 <= j < start.len() ==> #[trigger] meters@[j] == (if j < i && names_meter(start[j], name@) {
                    crate::ini::MeterOptions { hidden: hidden_after(start[j].hidden, v), ..start[j] }
                } else {
                    start[j]
                }),
        decreases meters.len() - i,
    {
        if eq_ignore_case_str(meters[i].name.as_str(), name) {
            let ghost before = meters@;
            let mut m = meters.remove(i);
            m.hidden = match v {
                MeterVisibility::Show => false,
                MeterVisibility::Hide => true,
                MeterVisibility::Toggle => !m.hidden,
            };
            meters.insert(i, m);
            proof {
                assert(meters@ =~= before.update(i as int, m));
            }
        }
        i = i + 1;
    }
}

/// A field that follows option `name`: the new value when the option set
/// is that one, else the field as it was.
pub open spec fn follows(field: Option<String>, k: Seq<char>, name: Seq<char>, value: Seq<char>) -> Option<Seq<char>> {
    if k == name {
        Some(value)
    } else {
        crate::measures::ov(field)
    }
}

/// A meter after `!SetOption` sets `key` to `value` on it: the option is
/// stored, and the text, position, size and font colour follow it.
pub open spec fn option_set(n: crate::ini::MeterOptions, o: crate::ini::MeterOptions, key: Seq<char>, value: Seq<char>) -> bool {
    let k = lower(key);
    &&& n.properties@ == o.properties@.insert(k, value)
    &&& n.properties.wf()
    &&& crate::measures::ov(n.text) == follows(o.text, k, "text"@, value)
    &&& crate::measures::ov(n.x) == follows(o.x, k, "x"@, value)
    &&& crate::measures::ov(n.y) == follows(o.y, k, "y"@, value)
    &&& crate::measures::ov(n.w) == follows(o.w, k, "w"@, value)
    &&& crate::measures::ov(n.h) == follows(o.h, k, "h"@, value)
    &&& crate::measures::ov(n.font_color) == follows(o.font_color, k, "fontcolor"@, value)
    &&& n.name == o.name && n.meter_type == o.meter_type && n.measure_name == o.measure_name
    &&& n.measure_names == o.measure_names && n.font_face == o.font_face && n.font_size == o.font_size
    &&& n.anti_alias == o.anti_alias && n.solid_color == o.solid_color && n.hidden == o.hidden
    &&& n.dynamic_variables == o.dynamic_variables && n.meter_style == o.meter_style
}

/// Applies a `!SetOption` bang to the meter named `section`.
pub fn set_meter_option(meters: &mut Vec<crate::ini::MeterOptions>, section: &str, key: &str, value: &str)
    requires
        forall|i: int| 0 <= i < old(meters)@.len() ==> (#[trigger] old(meters)@[i]).properties.wf(),
    ensures
        final(meters)@.len() == old(meters)@.len(),
        forall|i: int|
            0 <= i < old(meters)@.len() ==> (if names_meter(old(meters)@[i], section@) {
                option_set(#[trigger] final(meters)@[i], old(meters)@[i], key@, value@)
            } else {
                final(meters)@[i] == old(meters)@[i]
            }),
{
    let ghost start = meters@;
    let lk = crate::text::lower_str(key);
    let mut i: usize = 0;
    while i < meters.len()
        invariant
            meters@.len() == start.len(),
            i <= meters@.len(),
            lk@ == lower(key@),
            forall|j: int| 0 <= j < start.len() ==> (#[trigger] start[j]).properties.wf(),
            forall|j: int|
                0 <= j < start.len() ==> (if j < i && names_meter(start[j], section@) {
                    option_set(#[trigger] meters@[j], start[j], key@, value@)
                } else {
                    meters@[j] == start[j]
                }),
        decreases meters.len() - i,
    {
        if eq_ignore_case_str(meters[i].name.as_str(), section) {
            let ghost before = meters@;
            let mut m = meters.remove(i);
            let ghost o = m;
            m.properties.set(key, value);
            let l = lk.as_str();
            if str_eq(l, "text") {
                m.text = Some(value.to_string());
            } else if str_eq(l, "x") {
                m.x = Some(value.to_string());
            } else if str_eq(l, "y") {
                m.y = Some(value.to_string());
            } else if str_eq(l, "w") {
                m.w = Some(value.to_string());
            } else if str_eq(l, "h") {
                m.h = Some(value.to_string());
            } else if str_eq(l, "fontcolor") {
                m.font_color = Some(value.to_string());
            }
            proof {
                reveal_strlit("text");
                reveal_strlit("x");
                reveal_strlit("y");
                reveal_strlit("w");
                reveal_strlit("h");
                reveal_strlit("fontcolor");
                assert("text"@.len() == 4 && "fontcolor"@.len() == 9);
                assert("x"@.len() == 1 && "y"@.len() == 1 && "w"@.len() == 1 && "h"@.len() == 1);
                assert("x"@[0] == 'x' && "y"@[0] == 'y' && "w"@[0] == 'w' && "h"@[0] == 'h');
                assert(m.properties@ == o.properties@.insert(lower(key@), value@));
                assert(crate::measures::ov(m.text) == follows(o.text, lower(key@), "text"@, value@));
                assert(crate::measures::ov(m.x) == follows(o.x, lower(key@), "x"@, value@));
                assert(crate::measures::ov(m.font_color) == follows(o.font_color, lower(key@), "fontcolor"@, value@));
                assert(option_set(m, o, key@, value@));
            }
            meters.insert(i, m);
            proof {
                assert(meters@ =~= before.update(i as int, m));
            }
        }
        i = i + 1;
    }
}

/// Window `w` covers the skin box `s` completely.
pub open spec fn covers_box(w: SurfaceBounds, s: SurfaceBounds) -> bool {
    &&& w.x <= s.x
    &&& w.y <= s.y
    &&& w.x + as_i32(w.width) >= s.x + as_i32(s.width)
    &&& w.y + as_i32(w.height) >= s.y + as_i32(s.height)
}

/// Some window covers the box.
pub open spec fn covered_by_any(windows: Seq<SurfaceBounds>, s: SurfaceBounds) -> bool {
    exists|i: int| 0 <= i < windows.len() && covers_box(#[trigger] windows[i], s)
}

/// The visibility a skin is switched to: hidden when a window newly covers
/// it, shown again when it is no longer covered after being hidden so;
/// `None` when nothing changes.
pub open spec fn visibility_change(covered: bool, was_hidden: bool) -> Option<bool> {
    if covered && !was_hidden {
        Some(false)
    } else if !covered && was_hidden {
        Some(true)
    } else {
        None
    }
}

/// Decides whether a skin at `skin` is auto-hidden or shown again, given
/// the normal windows on screen and whether it was auto-hidden before.
pub fn auto_hide_change(skin: SurfaceBounds, windows: &Vec<SurfaceBounds>, was_hidden: bool) -> (r: Option<bool>)
    requires
        skin.edges_fit(),
        forall|i: int| 0 <= i < windows@.len() ==> (#[trigger] windows@[i]).edges_fit(),
    ensures
        r == visibility_change(covered_by_any(windows@, skin), was_hidden),
{
    let sr = skin.x as i64 + crate::display::as_i32_exec(skin.width);
    let sb = skin.y as i64 + crate::display::as_i32_exec(skin.height);
    let mut covered = false;
    let mut i: usize = 0;
    while i < windows.len()
        invariant
            i <= windows@.len(),
            sr == skin.x + crate::display::as_i32(skin.width),
            sb == skin.y + crate::display::as_i32(skin.height),
            covered == (exists|j: int| 0 <= j < i && covers_box(#[trigger] windows@[j], skin)),
        decreases windows.len() - i,
    {
        let w = windows[i];
        let wr = w.x as i64 + crate::display::as_i32_exec(w.width);
        let wb = w.y as i64 + crate::display::as_i32_exec(w.height);
        if w.x <= skin.x && w.y <= skin.y && wr >= sr && wb >= sb {
            covered = true;
        }
        proof {
            assert(covers_box(windows@[i as int], skin) == (w.x <= skin.x && w.y <= skin.y && wr >= sr && wb >= sb));
        }
        i = i + 1;
    }
    if covered && !was_hidden {
        Some(false)
    } else if !covered && was_hidden {
        Some(true)
    } else {
        None
    }
}

} // verus!
