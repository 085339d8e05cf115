//! Meter-level decisions of the renderer: which meters take mouse
//! actions, which are drawn inside containers, and where a bar or
//! roundline meter takes its value range from.
use crate::ini::{os, MeasureConfig, MeterOptions};
use crate::measures::{first_of, opt_view, ov, prop};
use crate::text::{contains_seq, lower, trim, views};
use crate::variables::VariableMap;
use vstd::prelude::*;

verus! {

/// The mouse actions of a meter, as written.
#[derive(Debug, Clone)]
pub struct MeterActions {
    pub left_mouse_up: Option<String>,
    pub left_mouse_down: Option<String>,
    pub left_mouse_double_click: Option<String>,
    pub right_mouse_up: Option<String>,
    pub middle_mouse_up: Option<String>,
    pub mouse_over: Option<String>,
    pub mouse_leave: Option<String>,
    pub mouse_scroll_up: Option<String>,
    pub mouse_scroll_down: Option<String>,
}

/// An option of a property map, looked up without case.
pub open spec fn opt_of(m: Map<Seq<char>, Seq<char>>, key: Seq<char>) -> Option<Seq<char>> {
    if m.contains_key(lower(key)) {
        Some(m[lower(key)])
    } else {
        None
    }
}

fn get_opt(props: &VariableMap, key: &str) -> (r: Option<String>)
    requires
        props.wf(),
    ensures
        ov(r) == opt_of(props@, key@),
{
    match props.get(key) {
        Some(v) => Some(v.to_string()),
        None => None,
    }
}

impl MeterActions {
    /// The actions a meter's options give.
    pub fn of(props: &VariableMap) -> (r: MeterActions)
        requires
            props.wf(),
        ensures
            ov(r.left_mouse_up) == opt_of(props@, "leftmouseupaction"@),
            ov(r.left_mouse_down) == opt_of(props@, "leftmousedownaction"@),
            ov(r.left_mouse_double_click) == opt_of(props@, "leftmousedoubleclickaction"@),
            ov(r.right_mouse_up) == opt_of(props@, "rightmouseupaction"@),
            ov(r.middle_mouse_up) == opt_of(props@, "middlemouseupaction"@),
            ov(r.mouse_over) == opt_of(props@, "mouseoveraction"@),
            ov(r.mouse_leave) == opt_of(props@, "mouseleaveaction"@),
            ov(r.mouse_scroll_up) == opt_of(props@, "mousescrollupaction"@),
            ov(r.mouse_scroll_down) == opt_of(props@, "mousescrolldownaction"@),
    {
        MeterActions {
            left_mouse_up: get_opt(props, "leftmouseupaction"),
            left_mouse_down: get_opt(props, "leftmousedownaction"),
            left_mouse_double_click: get_opt(props, "leftmousedoubleclickaction"),
            right_mouse_up: get_opt(props, "rightmouseupaction"),
            middle_mouse_up: get_opt(props, "middlemouseupaction"),
            mouse_over: get_opt(props, "mouseoveraction"),
            mouse_leave: get_opt(props, "mouseleaveaction"),
            mouse_scroll_up: get_opt(props, "mousescrollupaction"),
            mouse_scroll_down: get_opt(props, "mousescrolldownaction"),
        }
    }

    /// Whether the meter takes any mouse action (and so gets a hit box).
    pub fn any(&self) -> (r: bool)
        ensures
            r == (self.left_mouse_up is Some || self.left_mouse_down is Some
                || self.left_mouse_double_click is Some || self.right_mouse_up is Some
                || self.middle_mouse_up is Some || self.mouse_over is Some
                || self.mouse_leave is Some || self.mouse_scroll_up is Some
                || self.mouse_scroll_down is Some),
    {
        self.left_mouse_up.is_some() || self.left_mouse_down.is_some()
            || self.left_mouse_double_click.is_some() || self.right_mouse_up.is_some()
            || self.middle_mouse_up.is_some() || self.mouse_over.is_some()
            || self.mouse_leave.is_some() || self.mouse_scroll_up.is_some()
            || self.mouse_scroll_down.is_some()
    }
}

/// The (lower-case, trimmed) containers the meters name, in meter order.
pub open spec fn containers_of(ms: Seq<MeterOptions>) -> Seq<Seq<char>>
    decreases ms.len(),
{
    if ms.len() == 0 {
        seq![]
    } else {
        containers_of(ms.drop_last()) + match opt_of(ms.last().properties@, "container"@) {
            Some(c) => seq![lower(trim(c))],
            None => seq![],
        }
    }
}

/// The meters that serve as containers for others; they are drawn only
/// inside the meters that name them, and take no mouse actions.
pub fn container_names(meters: &Vec<MeterOptions>) -> (r: Vec<String>)
    requires
        forall|i: int| 0 <= i < meters@.len() ==> (#[trigger] meters@[i]).properties.wf(),
    ensures
        views(r@) == containers_of(meters@),
{
    let mut out: Vec<String> = Vec::new();
    let mut i: usize = 0;
    while i < meters.len()
        invariant
            forall|k: int| 0 <= k < meters@.len() ==> (#[trigger] meters@[k]).properties.wf(),
            i <= meters@.len(),
            views(out@) == containers_of(meters@.take(i as int)),
        decreases meters.len() - i,
    {
        proof {
            assert(meters@.take(i + 1).drop_last() =~= meters@.take(i as int));
        }
        let ghost before = views(out@);
        match meters[i].properties.get("container") {
            Some(c) => {
                let t = crate::text::trim_str(c);
                let l = crate::text::lower_str(t.as_str());
                out.push(l);
                proof {
                    assert(views(out@) =~= before + seq![lower(trim(c@))]);
                }
            },
            None => {
                proof {
                    assert(views(out@) =~= before + Seq::<Seq<char>>::empty());
                }
            },
        }
        i = i + 1;
    }
    proof {
        assert(meters@.take(meters@.len() as int) =~= meters@);
    }
    out
}

/// The `MinValue` and `MaxValue` texts a meter reads: its own, else its
/// measure's.
pub open spec fn range_texts(meter: Map<Seq<char>, Seq<char>>, measure: Option<MeasureConfig>) -> (
    Option<Seq<char>>,
    Option<Seq<char>>,
) {
    let mm = |k: Seq<char>|
        match measure {
            Some(c) => prop(c, k),
            None => None,
        };
    (
        first_of(opt_of(meter, "minvalue"@), mm("minvalue"@)),
        first_of(opt_of(meter, "maxvalue"@), mm("maxvalue"@)),
    )
}

/// Whether a meter without `MaxValue` ranges to 100 by its measure: a CPU
/// or memory measure, or a NowPlaying measure of progress or volume.
pub open spec fn percent_measure(c: MeasureConfig) -> bool {
    let t = lower(c.measure_type@);
    let plugin = match c.plugin {
        Some(p) => lower(p@),
        None => seq![],
    };
    let player = lower(crate::measures::or_default(prop(c, "playertype"@), ""@));
    ||| t == "cpu"@ || t == "memory"@ || t == "physicalmemory"@ || t == "swapmemory"@
    ||| (t == "nowplaying"@ || contains_seq(plugin, "nowplaying"@)) && (player == "progress"@
        || player == "volume"@)
}

/// The range texts of a meter.
pub fn meter_range_texts(meter: &VariableMap, measure: Option<&MeasureConfig>) -> (r: (
    Option<String>,
    Option<String>,
))
    requires
        meter.wf(),
        match measure {
            Some(c) => c.properties.wf(),
            None => true,
        },
    ensures
        (ov(r.0), ov(r.1)) == range_texts(
            meter@,
            match measure {
                Some(c) => Some(*c),
                None => None,
            },
        ),
{
    let pick_opt = |k: &str| -> (o: Option<String>)
        ensures
            ov(o) == first_of(
                opt_of(meter@, k@),
                match measure {
                    Some(c) => prop(*c, k@),
                    None => None,
                },
            ),
        {
            match get_opt(meter, k) {
                Some(v) => Some(v),
                None => match measure {
                    Some(c) => match c.get(k) {
                        Some(v) => Some(v.to_string()),
                        None => None,
                    },
                    None => None,
                },
            }
        };
    (pick_opt("minvalue"), pick_opt("maxvalue"))
}

/// Whether a meter's measure makes its default maximum 100.
pub fn is_percent_measure(c: &MeasureConfig) -> (r: bool)
    requires
        c.properties.wf(),
    ensures
        r == percent_measure(*c),
{
    let t = crate::text::lower_str(c.measure_type.as_str());
    let ts = t.as_str();
    if crate::text::str_eq(ts, "cpu") || crate::text::str_eq(ts, "memory") || crate::text::str_eq(
        ts,
        "physicalmemory",
    ) || crate::text::str_eq(ts, "swapmemory") {
        return true;
    }
    let plugin = match &c.plugin {
        Some(p) => crate::text::lower_str(p.as_str()),
        None => String::new(),
    };
    let pv = crate::text::to_chars(plugin.as_str());
    let np = crate::text::to_chars("nowplaying");
    if crate::text::str_eq(ts, "nowplaying") || crate::text::contains_chars(&pv, &np) {
        let player = crate::measures::lower_or(crate::measures::option(c, "playertype"), "");
        crate::text::str_eq(player.as_str(), "progress") || crate::text::str_eq(
            player.as_str(),
            "volume",
        )
    } else {
        false
    }
}

} // verus!
verus! {

/// The text with `%k` replaced by the `k`-th value (counting from 1), for
/// `k` from `from + 1` on, one value after the other.
pub open spec fn numbered_substituted(t: Seq<char>, values: Seq<Seq<char>>, from: nat) -> Seq<char>
    decreases values.len() - from,
{
    if from >= values.len() {
        t
    } else {
        numbered_substituted(
            crate::text::replaced(t, seq!['%'] + crate::text::decimal(from + 1), values[from as int]),
            values,
            from + 1,
        )
    }
}

/// A meter's text with its measures' values put in: `%1`, `%2`, ... by the
/// values in order, then `%0` by the first value (by nothing when there is
/// none).
pub open spec fn measures_substituted(t: Seq<char>, values: Seq<Seq<char>>) -> Seq<char> {
    let r = numbered_substituted(t, values, 0);
    if crate::text::contains_seq(r, "%0"@) {
        crate::text::replaced(
            r,
            "%0"@,
            if values.len() > 0 {
                values[0]
            } else {
                ""@
            },
        )
    } else {
        r
    }
}

/// Puts the measures' values (as shown text, in the meter's measure
/// order) into a meter's text.
pub fn substitute_measures(template: &str, values: &Vec<String>) -> (r: String)
    requires
        values@.len() < u64::MAX,
    ensures
        r@ == measures_substituted(template@, views(values@)),
{
    let ghost vs = views(values@);
    let mut result = template.to_string();
    let mut i: usize = 0;
    while i < values.len()
        invariant
            vs == views(values@),
            values@.len() < u64::MAX,
            i <= values@.len(),
            numbered_substituted(result@, vs, i as nat) == numbered_substituted(template@, vs, 0),
        decreases values.len() - i,
    {
        let n = crate::text::decimal_string((i + 1) as u64);
        let placeholder = crate::bangs::concat3("%", n.as_str(), "");
        proof {
            reveal_strlit("%");
            reveal_strlit("");
            assert(placeholder@ =~= seq!['%'] + crate::text::decimal((i + 1) as nat));
            assert(vs[i as int] == values@[i as int]@);
        }
        result = crate::text::replace_str(result.as_str(), placeholder.as_str(), values[i].as_str());
        i = i + 1;
    }
    let rv = crate::text::to_chars(result.as_str());
    let pat = crate::text::to_chars("%0");
    if crate::text::contains_chars(&rv, &pat) {
        let first = if values.len() > 0 {
            values[0].as_str()
        } else {
            ""
        };
        crate::text::replace_str(result.as_str(), "%0", first)
    } else {
        result
    }
}

} // verus!
