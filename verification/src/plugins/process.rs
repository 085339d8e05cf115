//! The Process plugin: whether a running process has the configured name.
//! Names are compared without ASCII case, with or without `.exe`.
use crate::ini::MeasureConfig;
use crate::measures::{first_of, opt_view, option, or_default, pick, prop};
use crate::text::{ends_with, ends_with_chars, lower, lower_str, string_of, to_chars, trim, trim_str};
use vstd::prelude::*;

verus! {

/// `s` without one trailing `.exe`.
pub open spec fn without_exe(s: Seq<char>) -> Seq<char> {
    if ends_with(s, ".exe"@) {
        s.take(s.len() - 4)
    } else {
        s
    }
}

/// Whether a process name (from `comm`, trimmed, or the file name of the
/// program path) stands for the configured target name: lower-cased, it
/// equals the target, or the target without `.exe`, or the two agree once
/// both lose `.exe`. An empty target matches nothing.
pub open spec fn process_matches(candidate: Seq<char>, target: Seq<char>) -> bool {
    let t = lower(trim(target));
    let t_no = without_exe(t);
    let c = lower(candidate);
    t.len() > 0 && (c == t || c == t_no || without_exe(c) == t_no)
}

fn strip_exe(s: &str) -> (r: String)
    ensures
        r@ == without_exe(s@),
{
    let v = to_chars(s);
    let e = to_chars(".exe");
    proof {
        reveal_strlit(".exe");
    }
    if ends_with_chars(&v, &e) {
        proof {
            assert(v@.subrange(0, v@.len() - 4) =~= v@.take(v@.len() - 4));
        }
        string_of(&v, 0, v.len() - 4)
    } else {
        crate::text::string_of_all(&v)
    }
}

/// Whether a process name stands for the configured target name.
pub fn process_name_matches(candidate: &str, target: &str) -> (r: bool)
    ensures
        r == process_matches(candidate@, target@),
{
    let tt = trim_str(target);
    if tt.unicode_len() == 0 {
        proof {
            assert(lower(trim(target@)).len() == 0);
        }
        return false;
    }
    let t = lower_str(tt.as_str());
    let t_no = strip_exe(t.as_str());
    let c = lower_str(candidate);
    let c_no = strip_exe(c.as_str());
    crate::text::str_eq(c.as_str(), t.as_str()) || crate::text::str_eq(c.as_str(), t_no.as_str())
        || crate::text::str_eq(c_no.as_str(), t_no.as_str())
}

/// Whether a `/proc` entry name is a process id: ASCII digits only.
pub fn is_pid_name(name: &str) -> (r: bool)
    ensures
        r == crate::text::all_digits(name@),
{
    let v = to_chars(name);
    let mut i: usize = 0;
    while i < v.len()
        invariant
            v@ == name@,
            i <= v@.len(),
            forall|k: int| 0 <= k < i ==> crate::text::is_digit(#[trigger] v@[k]),
        decreases v.len() - i,
    {
        if !('0' <= v[i] && v[i] <= '9') {
            return false;
        }
        i = i + 1;
    }
    true
}

/// The process name a Process measure is configured with: the first of
/// `ProcessName`, `Process`, `Name`, else empty.
pub open spec fn process_name_of(c: MeasureConfig) -> Seq<char> {
    or_default(
        first_of(first_of(prop(c, "processname"@), prop(c, "process"@)), prop(c, "name"@)),
        ""@,
    )
}

/// The process name a Process measure's options give.
pub fn process_name_for(config: &MeasureConfig) -> (r: String)
    requires
        config.properties.wf(),
    ensures
        r@ == process_name_of(*config),
{
    match pick(pick(option(config, "processname"), option(config, "process")), option(config, "name"))
    {
        Some(s) => s.to_string(),
        None => "".to_string(),
    }
}

} // verus!
