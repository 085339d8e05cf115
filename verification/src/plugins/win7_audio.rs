//! The Win7Audio plugin's query type and the commands it accepts.
use crate::ini::MeasureConfig;
use crate::measures::{first_of, lower_or, option, or_default, pick, prop};
use crate::text::{lower, lower_range, starts_with, starts_with_str, str_eq, string_of, to_chars, trim, trim_bounds};
use vstd::prelude::*;

verus! {

#[derive(Debug, Clone, Copy, PartialEq, Eq)]
pub enum Win7AudioQueryType {
    Volume,
    Device,
}

/// `Type` (or `Target`) `device`, `devicename` or `name` queries the
/// device; anything else the volume.
pub open spec fn query_type_of(c: MeasureConfig) -> Win7AudioQueryType {
    let s = lower(or_default(first_of(prop(c, "type"@), prop(c, "target"@)), "volume"@));
    if s == "device"@ || s == "devicename"@ || s == "name"@ {
        Win7AudioQueryType::Device
    } else {
        Win7AudioQueryType::Volume
    }
}

impl Win7AudioQueryType {
    pub fn from_config(config: &MeasureConfig) -> (r: Win7AudioQueryType)
        requires
            config.properties.wf(),
        ensures
            r == query_type_of(*config),
    {
        let s = lower_or(pick(option(config, "type"), option(config, "target")), "volume");
        let s = s.as_str();
        if str_eq(s, "device") || str_eq(s, "devicename") || str_eq(s, "name") {
            Win7AudioQueryType::Device
        } else {
            Win7AudioQueryType::Volume
        }
    }
}

/// A command sent to the plugin with `!CommandMeasure`.
#[derive(Debug, Clone, PartialEq, Eq)]
pub enum Win7Command {
    /// `SetVolume <n>`, with the text of the number.
    SetVolume(String),
    /// `ChangeVolume <delta>`, with the text of the delta.
    ChangeVolume(String),
    ToggleMute,
    /// `SetMute 1|true|0|false`.
    SetMute(bool),
    /// Anything else, ignored.
    Unknown,
}

pub enum Win7CommandView {
    SetVolume(Seq<char>),
    ChangeVolume(Seq<char>),
    ToggleMute,
    SetMute(bool),
    Unknown,
}

impl View for Win7Command {
    type V = Win7CommandView;

    open spec fn view(&self) -> Win7CommandView {
        match self {
            Win7Command::SetVolume(s) => Win7CommandView::SetVolume(s@),
            Win7Command::ChangeVolume(s) => Win7CommandView::ChangeVolume(s@),
            Win7Command::ToggleMute => Win7CommandView::ToggleMute,
            Win7Command::SetMute(b) => Win7CommandView::SetMute(*b),
            Win7Command::Unknown => Win7CommandView::Unknown,
        }
    }
}

/// How a trimmed command reads: the keyword is matched without case at
/// the start (`ToggleMute` must be the whole command) and its argument is
/// the trimmed rest.
pub open spec fn win7_command(cmd: Seq<char>) -> Win7CommandView {
    let t = trim(cmd);
    let l = lower(t);
    if starts_with(l, "setvolume"@) {
        Win7CommandView::SetVolume(trim(t.skip(9)))
    } else if starts_with(l, "changevolume"@) {
        Win7CommandView::ChangeVolume(trim(t.skip(12)))
    } else if l == "togglemute"@ {
        Win7CommandView::ToggleMute
    } else if starts_with(l, "setmute"@) {
        let rest = trim(t.skip(7));
        if rest == "1"@ || rest == "true"@ {
            Win7CommandView::SetMute(true)
        } else if rest == "0"@ || rest == "false"@ {
            Win7CommandView::SetMute(false)
        } else {
            Win7CommandView::Unknown
        }
    } else {
        Win7CommandView::Unknown
    }
}

/// Reads a command; the volume numbers are left as text.
pub fn parse_win7_command(cmd: &str) -> (r: Win7Command)
    ensures
        r@ == win7_command(cmd@),
{
    let v = to_chars(cmd);
    assert(v@.subrange(0, v@.len() as int) =~= v@);
    let (a, b) = trim_bounds(&v, 0, v.len());
    let ghost t = v@.subrange(a as int, b as int);
    let l = lower_range(&v, a, b);
    proof {
        reveal_strlit("setvolume");
        reveal_strlit("changevolume");
        reveal_strlit("setmute");
    }
    if starts_with_str(&l, "setvolume") {
        let (c, d) = trim_bounds(&v, a + 9, b);
        assert(t.skip(9) =~= v@.subrange(a + 9, b as int));
        Win7Command::SetVolume(string_of(&v, c, d))
    } else if starts_with_str(&l, "changevolume") {
        let (c, d) = trim_bounds(&v, a + 12, b);
        assert(t.skip(12) =~= v@.subrange(a + 12, b as int));
        Win7Command::ChangeVolume(string_of(&v, c, d))
    } else if crate::text::eq_str(&l, "togglemute") {
        Win7Command::ToggleMute
    } else if starts_with_str(&l, "setmute") {
        let (c, d) = trim_bounds(&v, a + 7, b);
        assert(t.skip(7) =~= v@.subrange(a + 7, b as int));
        let rest = string_of(&v, c, d);
        if str_eq(rest.as_str(), "1") || str_eq(rest.as_str(), "true") {
            Win7Command::SetMute(true)
        } else if str_eq(rest.as_str(), "0") || str_eq(rest.as_str(), "false") {
            Win7Command::SetMute(false)
        } else {
            Win7Command::Unknown
        }
    } else {
        Win7Command::Unknown
    }
}

} // verus!
