//! Rainmeter bang commands: tokenising, bracket chains and the mapping of
//! command names onto the `Bang` AST.
use crate::text::{
    eq_str, is_whitespace, is_ws, lead_ws, lemma_lead_ws_bound, lemma_trail_ws_bound,
    lemma_trim_idempotent, lower, lower_range, string_of, to_chars, trail_ws,
    trim, trim_bounds, views,
};
use vstd::prelude::*;

verus! {

/// AST representation of Rainmeter Bang commands.
#[derive(Debug, Clone, PartialEq, Eq)]
pub enum Bang {
    /// `!SetVariable <VarName> <Value> [Config]`
    SetVariable { name: String, value: String, config: Option<String> },
    /// `!SetOption <Section> <Key> <Value> [Config]`
    SetOption { section: String, key: String, value: String, config: Option<String> },
    /// `!WriteKeyValue <Section> <Key> <Value> [FilePath]`
    WriteKeyValue { section: String, key: String, value: String, file: Option<String> },
    /// `!Update [Config]`
    Update { config: Option<String> },
    /// `!UpdateMeter <MeterName> [Config]` (or `*` for all meters)
    UpdateMeter { name: String, config: Option<String> },
    /// `!UpdateMeasure <MeasureName> [Config]` (or `*` for all measures)
    UpdateMeasure { name: String, config: Option<String> },
    /// `!Redraw [Config]`
    Redraw { config: Option<String> },
    /// `!ShowMeter <MeterName> [Config]`
    ShowMeter { name: String, config: Option<String> },
    /// `!HideMeter <MeterName> [Config]`
    HideMeter { name: String, config: Option<String> },
    /// `!ToggleMeter <MeterName> [Config]`
    ToggleMeter { name: String, config: Option<String> },
    /// `!EnableMeasure <MeasureName> [Config]`
    EnableMeasure { name: String, config: Option<String> },
    /// `!DisableMeasure <MeasureName> [Config]`
    DisableMeasure { name: String, config: Option<String> },
    /// `!ToggleMeasure <MeasureName> [Config]`
    ToggleMeasure { name: String, config: Option<String> },
    /// `!ActivateConfig <Config> [File]`
    ActivateConfig { config: String, file: Option<String> },
    /// `!DeactivateConfig [Config]`
    DeactivateConfig { config: Option<String> },
    /// `!ToggleConfig <Config> [File]`
    ToggleConfig { config: String, file: Option<String> },
    /// `!Refresh [Config]`
    Refresh { config: Option<String> },
    /// `!RefreshApp`
    RefreshApp,
    /// `!CommandMeasure <MeasureName> <Command> [Config]`
    CommandMeasure { measure: String, command: String, config: Option<String> },
    /// `!PauseMeasure <MeasureName> [Config]`
    PauseMeasure { name: String, config: Option<String> },
    /// `!UnpauseMeasure <MeasureName> [Config]`
    UnpauseMeasure { name: String, config: Option<String> },
    /// `!TogglePauseMeasure <MeasureName> [Config]`
    TogglePauseMeasure { name: String, config: Option<String> },
    /// `!UpdateMeterGroup <Group> [Config]`
    UpdateMeterGroup { group: String, config: Option<String> },
    /// `!UpdateMeasureGroup <Group> [Config]`
    UpdateMeasureGroup { group: String, config: Option<String> },
    /// `!RedrawGroup <Group> [Config]`
    RedrawGroup { group: String, config: Option<String> },
    /// `!ShowMeterGroup <Group> [Config]`
    ShowMeterGroup { group: String, config: Option<String> },
    /// `!HideMeterGroup <Group> [Config]`
    HideMeterGroup { group: String, config: Option<String> },
    /// `!ToggleMeterGroup <Group> [Config]`
    ToggleMeterGroup { group: String, config: Option<String> },
    /// `!ShowFade / !ShowFadeGroup`
    ShowFade { name: String, config: Option<String> },
    /// `!HideFade / !HideFadeGroup`
    HideFade { name: String, config: Option<String> },
    /// `!ToggleFade / !ToggleFadeGroup`
    ToggleFade { name: String, config: Option<String> },
    /// `!RefreshGroup <Group>`
    RefreshGroup { group: String },
    /// `!Log <Message>`
    Log { message: String },
    /// `!NoOp` (graceful fallback for aesthetic/unsupported bangs)
    NoOp,
    /// External command / shell execution (e.g. `["https://..."]`)
    Execute(String),
}

/// The mathematical model of a `Bang`: every string taken by its characters.
pub enum BangView {
    SetVariable { name: Seq<char>, value: Seq<char>, config: Option<Seq<char>> },
    SetOption { section: Seq<char>, key: Seq<char>, value: Seq<char>, config: Option<Seq<char>> },
    WriteKeyValue { section: Seq<char>, key: Seq<char>, value: Seq<char>, file: Option<Seq<char>> },
    Update { config: Option<Seq<char>> },
    UpdateMeter { name: Seq<char>, config: Option<Seq<char>> },
    UpdateMeasure { name: Seq<char>, config: Option<Seq<char>> },
    Redraw { config: Option<Seq<char>> },
    ShowMeter { name: Seq<char>, config: Option<Seq<char>> },
    HideMeter { name: Seq<char>, config: Option<Seq<char>> },
    ToggleMeter { name: Seq<char>, config: Option<Seq<char>> },
    EnableMeasure { name: Seq<char>, config: Option<Seq<char>> },
    DisableMeasure { name: Seq<char>, config: Option<Seq<char>> },
    ToggleMeasure { name: Seq<char>, config: Option<Seq<char>> },
    ActivateConfig { config: Seq<char>, file: Option<Seq<char>> },
    DeactivateConfig { config: Option<Seq<char>> },
    ToggleConfig { config: Seq<char>, file: Option<Seq<char>> },
    Refresh { config: Option<Seq<char>> },
    RefreshApp,
    CommandMeasure { measure: Seq<char>, command: Seq<char>, config: Option<Seq<char>> },
    PauseMeasure { name: Seq<char>, config: Option<Seq<char>> },
    UnpauseMeasure { name: Seq<char>, config: Option<Seq<char>> },
    TogglePauseMeasure { name: Seq<char>, config: Option<Seq<char>> },
    UpdateMeterGroup { group: Seq<char>, config: Option<Seq<char>> },
    UpdateMeasureGroup { group: Seq<char>, config: Option<Seq<char>> },
    RedrawGroup { group: Seq<char>, config: Option<Seq<char>> },
    ShowMeterGroup { group: Seq<char>, config: Option<Seq<char>> },
    HideMeterGroup { group: Seq<char>, config: Option<Seq<char>> },
    ToggleMeterGroup { group: Seq<char>, config: Option<Seq<char>> },
    ShowFade { name: Seq<char>, config: Option<Seq<char>> },
    HideFade { name: Seq<char>, config: Option<Seq<char>> },
    ToggleFade { name: Seq<char>, config: Option<Seq<char>> },
    RefreshGroup { group: Seq<char> },
    Log { message: Seq<char> },
    NoOp,
    Execute(Seq<char>),
}

pub open spec fn ov(o: Option<String>) -> Option<Seq<char>> {
    match o {
        Some(s) => Some(s@),
        None => None,
    }
}

impl View for Bang {
    type V = BangView;

    open spec fn view(&self) -> BangView {
        match self {
            Bang::SetVariable { name, value, config } => BangView::SetVariable {
                name: name@,
                value: value@,
                config: ov(*config),
            },
            Bang::SetOption { section, key, value, config } => BangView::SetOption {
                section: section@,
                key: key@,
                value: value@,
                config: ov(*config),
            },
            Bang::WriteKeyValue { section, key, value, file } => BangView::WriteKeyValue {
                section: section@,
                key: key@,
                value: value@,
                file: ov(*file),
            },
            Bang::Update { config } => BangView::Update { config: ov(*config) },
            Bang::UpdateMeter { name, config } => BangView::UpdateMeter {
                name: name@,
                config: ov(*config),
            },
            Bang::UpdateMeasure { name, config } => BangView::UpdateMeasure {
                name: name@,
                config: ov(*config),
            },
            Bang::Redraw { config } => BangView::Redraw { config: ov(*config) },
            Bang::ShowMeter { name, config } => BangView::ShowMeter {
                name: name@,
                config: ov(*config),
            },
            Bang::HideMeter { name, config } => BangView::HideMeter {
                name: name@,
                config: ov(*config),
            },
            Bang::ToggleMeter { name, config } => BangView::ToggleMeter {
                name: name@,
                config: ov(*config),
            },
            Bang::EnableMeasure { name, config } => BangView::EnableMeasure {
                name: name@,
                config: ov(*config),
            },
            Bang::DisableMeasure { name, config } => BangView::DisableMeasure {
                name: name@,
                config: ov(*config),
            },
            Bang::ToggleMeasure { name, config } => BangView::ToggleMeasure {
                name: name@,
                config: ov(*config),
            },
            Bang::ActivateConfig { config, file } => BangView::ActivateConfig {
                config: config@,
                file: ov(*file),
            },
            Bang::DeactivateConfig { config } => BangView::DeactivateConfig {
                config: ov(*config),
            },
            Bang::ToggleConfig { config, file } => BangView::ToggleConfig {
                config: config@,
                file: ov(*file),
            },
            Bang::Refresh { config } => BangView::Refresh { config: ov(*config) },
            Bang::RefreshApp => BangView::RefreshApp,
            Bang::CommandMeasure { measure, command, config } => BangView::CommandMeasure {
                measure: measure@,
                command: command@,
                config: ov(*config),
            },
            Bang::PauseMeasure { name, config } => BangView::PauseMeasure {
                name: name@,
                config: ov(*config),
            },
            Bang::UnpauseMeasure { name, config } => BangView::UnpauseMeasure {
                name: name@,
                config: ov(*config),
            },
            Bang::TogglePauseMeasure { name, config } => BangView::TogglePauseMeasure {
                name: name@,
                config: ov(*config),
            },
            Bang::UpdateMeterGroup { group, config } => BangView::UpdateMeterGroup {
                group: group@,
                config: ov(*config),
            },
            Bang::UpdateMeasureGroup { group, config } => BangView::UpdateMeasureGroup {
                group: group@,
                config: ov(*config),
            },
            Bang::RedrawGroup { group, config } => BangView::RedrawGroup {
                group: group@,
                config: ov(*config),
            },
            Bang::ShowMeterGroup { group, config } => BangView::ShowMeterGroup {
                group: group@,
                config: ov(*config),
            },
            Bang::HideMeterGroup { group, config } => BangView::HideMeterGroup {
                group: group@,
                config: ov(*config),
            },
            Bang::ToggleMeterGroup { group, config } => BangView::ToggleMeterGroup {
                group: group@,
                config: ov(*config),
            },
            Bang::ShowFade { name, config } => BangView::ShowFade {
                name: name@,
                config: ov(*config),
            },
            Bang::HideFade { name, config } => BangView::HideFade {
                name: name@,
                config: ov(*config),
            },
            Bang::ToggleFade { name, config } => BangView::ToggleFade {
                name: name@,
                config: ov(*config),
            },
            Bang::RefreshGroup { group } => BangView::RefreshGroup { group: group@ },
            Bang::Log { message } => BangView::Log { message: message@ },
            Bang::NoOp => BangView::NoOp,
            Bang::Execute(cmd) => BangView::Execute(cmd@),
        }
    }
}

/// Views of a sequence of strings.
pub open spec fn strs(v: Seq<String>) -> Seq<Seq<char>> {
    Seq::new(v.len(), |i: int| v[i]@)
}

pub open spec fn is_quote(c: char) -> bool {
    c == '"' || c == '\''
}

/// State of the argument tokenizer after a prefix of the input.
pub struct TokState {
    pub tokens: Seq<Seq<char>>,
    pub current: Seq<char>,
    pub in_quotes: bool,
    pub quote: char,
}

pub open spec fn tok_init() -> TokState {
    TokState { tokens: seq![], current: seq![], in_quotes: false, quote: '"' }
}

/// One character of tokenizing: quotes group words, unquoted white space
/// separates them, every other character is kept.
pub open spec fn tok_step(st: TokState, c: char) -> TokState {
    if is_quote(c) {
        if st.in_quotes && c == st.quote {
            TokState { in_quotes: false, ..st }
        } else if !st.in_quotes {
            TokState { in_quotes: true, quote: c, ..st }
        } else {
            TokState { current: st.current.push(c), ..st }
        }
    } else if is_ws(c) && !st.in_quotes {
        if st.current.len() > 0 {
            TokState { tokens: st.tokens.push(st.current), current: seq![], ..st }
        } else {
            st
        }
    } else {
        TokState { current: st.current.push(c), ..st }
    }
}

pub open spec fn tok_fold(s: Seq<char>) -> TokState
    decreases s.len(),
{
    if s.len() == 0 {
        tok_init()
    } else {
        tok_step(tok_fold(s.drop_last()), s.last())
    }
}

/// The tokens of a command line, as `tokenize_args` returns them.
pub open spec fn tokenize(s: Seq<char>) -> Seq<Seq<char>> {
    let st = tok_fold(s);
    if st.current.len() > 0 {
        st.tokens.push(st.current)
    } else {
        st.tokens
    }
}

/// Tokenizes a single command line into arguments, respecting quotes.
pub fn tokenize_args(input: &str) -> (r: Vec<String>)
    ensures
        strs(r@) == tokenize(input@),
{
    let v = to_chars(input);
    assert(v@.subrange(0, v@.len() as int) =~= v@);
    tokenize_chars(&v, 0, v.len())
}

/// Tokenizes `v[lo..hi]`.
pub fn tokenize_chars(v: &[char], lo: usize, hi: usize) -> (r: Vec<String>)
    requires
        lo <= hi <= v@.len(),
    ensures
        strs(r@) == tokenize(v@.subrange(lo as int, hi as int)),
{
    let ghost s = v@.subrange(lo as int, hi as int);
    let mut tokens: Vec<String> = Vec::new();
    let mut current = String::new();
    let mut in_quotes = false;
    let mut quote_char = '"';
    let mut i = lo;
    while i < hi
        invariant
            lo <= i <= hi <= v@.len(),
            s == v@.subrange(lo as int, hi as int),
            ({
                let st = tok_fold(s.take(i - lo));
                &&& strs(tokens@) == st.tokens
                &&& current@ == st.current
                &&& in_quotes == st.in_quotes
                &&& quote_char == st.quote
            }),
        decreases hi - i,
    {
        let c = v[i];
        proof {
            assert(s.take(i + 1 - lo).drop_last() =~= s.take(i - lo));
            assert(s.take(i + 1 - lo).last() == c);
        }
        if c == '"' || c == '\'' {
            if in_quotes && c == quote_char {
                in_quotes = false;
            } else if !in_quotes {
                in_quotes = true;
                quote_char = c;
            } else {
                current.push(c);
            }
        } else if is_whitespace(c) && !in_quotes {
            if current.unicode_len() > 0 {
                let ghost old_tokens = tokens@;
                tokens.push(current);
                current = String::new();
                assert(strs(tokens@) =~= strs(old_tokens).push(strs(tokens@).last()));
            }
        } else {
            current.push(c);
        }
        i = i + 1;
    }
    assert(s.take(hi - lo) =~= s);
    if current.unicode_len() > 0 {
        let ghost old_tokens = tokens@;
        tokens.push(current);
        assert(strs(tokens@) =~= strs(old_tokens).push(strs(tokens@).last()));
    }
    tokens
}

} // verus!
verus! {

/// The `i`-th argument, if there is one.
pub open spec fn sarg(args: Seq<Seq<char>>, i: int) -> Option<Seq<char>> {
    if 0 <= i < args.len() {
        Some(args[i])
    } else {
        None
    }
}

/// The `i`-th argument, or `default` when there is none.
pub open spec fn sarg_or(args: Seq<Seq<char>>, i: int, default: Seq<char>) -> Seq<char> {
    if 0 <= i < args.len() {
        args[i]
    } else {
        default
    }
}

/// `args.join(sep)`.
pub open spec fn join(args: Seq<Seq<char>>, sep: Seq<char>) -> Seq<char>
    decreases args.len(),
{
    if args.len() == 0 {
        seq![]
    } else if args.len() == 1 {
        args[0]
    } else {
        join(args.drop_last(), sep) + sep + args.last()
    }
}

/// Bang named `lower` (lower-cased, without `!`) with arguments `args`;
/// `whole` is the trimmed command, `explicit` whether it began with `!`.
pub open spec fn bang_of(
    lower: Seq<char>,
    args: Seq<Seq<char>>,
    whole: Seq<char>,
    explicit: bool,
) -> Option<BangView> {
    let a0 = sarg(args, 0);
    let a1 = sarg(args, 1);
    if lower == "setvariable"@ {
        if args.len() == 0 {
            None
        } else {
            Some(
                BangView::SetVariable {
                    name: args[0],
                    value: sarg_or(args, 1, seq![]),
                    config: sarg(args, 2),
                },
            )
        }
    } else if lower == "setoption"@ {
        if args.len() < 2 {
            None
        } else {
            Some(
                BangView::SetOption {
                    section: args[0],
                    key: args[1],
                    value: sarg_or(args, 2, seq![]),
                    config: sarg(args, 3),
                },
            )
        }
    } else if lower == "writekeyvalue"@ {
        if args.len() < 2 {
            None
        } else {
            Some(
                BangView::WriteKeyValue {
                    section: args[0],
                    key: args[1],
                    value: sarg_or(args, 2, seq![]),
                    file: sarg(args, 3),
                },
            )
        }
    } else if lower == "update"@ {
        Some(BangView::Update { config: a0 })
    } else if lower == "updatemeter"@ {
        Some(BangView::UpdateMeter { name: sarg_or(args, 0, "*"@), config: a1 })
    } else if lower == "updatemeasure"@ {
        Some(BangView::UpdateMeasure { name: sarg_or(args, 0, "*"@), config: a1 })
    } else if lower == "redraw"@ {
        Some(BangView::Redraw { config: a0 })
    } else if lower == "showmeter"@ {
        if args.len() == 0 {
            None
        } else {
            Some(BangView::ShowMeter { name: args[0], config: a1 })
        }
    } else if lower == "hidemeter"@ {
        if args.len() == 0 {
            None
        } else {
            Some(BangView::HideMeter { name: args[0], config: a1 })
        }
    } else if lower == "togglemeter"@ {
        if args.len() == 0 {
            None
        } else {
            Some(BangView::ToggleMeter { name: args[0], config: a1 })
        }
    } else if lower == "updatemetergroup"@ {
        if args.len() == 0 {
            None
        } else {
            Some(BangView::UpdateMeterGroup { group: args[0], config: a1 })
        }
    } else if lower == "updatemeasuregroup"@ {
        if args.len() == 0 {
            None
        } else {
            Some(BangView::UpdateMeasureGroup { group: args[0], config: a1 })
        }
    } else if lower == "redrawgroup"@ {
        if args.len() == 0 {
            None
        } else {
            Some(BangView::RedrawGroup { group: args[0], config: a1 })
        }
    } else if lower == "showmetergroup"@ {
        if args.len() == 0 {
            None
        } else {
            Some(BangView::ShowMeterGroup { group: args[0], config: a1 })
        }
    } else if lower == "hidemetergroup"@ {
        if args.len() == 0 {
            None
        } else {
            Some(BangView::HideMeterGroup { group: args[0], config: a1 })
        }
    } else if lower == "togglemetergroup"@ {
        if args.len() == 0 {
            None
        } else {
            Some(BangView::ToggleMeterGroup { group: args[0], config: a1 })
        }
    } else {
        bang_of_rest(lower, args, whole, explicit)
    }
}

/// Continuation of `bang_of` for the remaining command names.
pub open spec fn bang_of_rest(
    lower: Seq<char>,
    args: Seq<Seq<char>>,
    whole: Seq<char>,
    explicit: bool,
) -> Option<BangView> {
    let a0 = sarg(args, 0);
    let a1 = sarg(args, 1);
    if lower == "showfade"@ || lower == "showfadegroup"@ {
        Some(BangView::ShowFade { name: sarg_or(args, 0, seq![]), config: a1 })
    } else if lower == "hidefade"@ || lower == "hidefadegroup"@ {
        Some(BangView::HideFade { name: sarg_or(args, 0, seq![]), config: a1 })
    } else if lower == "togglefade"@ || lower == "togglefadegroup"@ {
        Some(BangView::ToggleFade { name: sarg_or(args, 0, seq![]), config: a1 })
    } else if lower == "enablemeasure"@ {
        if args.len() == 0 {
            None
        } else {
            Some(BangView::EnableMeasure { name: args[0], config: a1 })
        }
    } else if lower == "disablemeasure"@ {
        if args.len() == 0 {
            None
        } else {
            Some(BangView::DisableMeasure { name: args[0], config: a1 })
        }
    } else if lower == "togglemeasure"@ {
        if args.len() == 0 {
            None
        } else {
            Some(BangView::ToggleMeasure { name: args[0], config: a1 })
        }
    } else if lower == "pausemeasure"@ {
        if args.len() == 0 {
            None
        } else {
            Some(BangView::PauseMeasure { name: args[0], config: a1 })
        }
    } else if lower == "unpausemeasure"@ {
        if args.len() == 0 {
            None
        } else {
            Some(BangView::UnpauseMeasure { name: args[0], config: a1 })
        }
    } else if lower == "togglepausemeasure"@ {
        if args.len() == 0 {
            None
        } else {
            Some(BangView::TogglePauseMeasure { name: args[0], config: a1 })
        }
    } else if lower == "activateconfig"@ {
        if args.len() == 0 {
            None
        } else {
            Some(BangView::ActivateConfig { config: args[0], file: a1 })
        }
    } else if lower == "deactivateconfig"@ {
        Some(BangView::DeactivateConfig { config: a0 })
    } else if lower == "toggleconfig"@ {
        if args.len() == 0 {
            None
        } else {
            Some(BangView::ToggleConfig { config: args[0], file: a1 })
        }
    } else if lower == "refresh"@ {
        Some(BangView::Refresh { config: a0 })
    } else if lower == "refreshgroup"@ {
        Some(BangView::RefreshGroup { group: sarg_or(args, 0, seq![]) })
    } else if lower == "refreshapp"@ {
        Some(BangView::RefreshApp)
    } else if lower == "log"@ || lower == "logmessage"@ {
        Some(BangView::Log { message: join(args, " "@) })
    } else if lower == "commandmeasure"@ {
        if args.len() < 2 {
            None
        } else {
            Some(
                BangView::CommandMeasure {
                    measure: args[0],
                    command: args[1],
                    config: sarg(args, 2),
                },
            )
        }
    } else if lower == "execute"@ {
        Some(BangView::Execute(join(args, " "@)))
    } else if explicit {
        Some(BangView::NoOp)
    } else {
        Some(BangView::Execute(whole))
    }
}

/// A trimmed command made of one quote character only: slicing its inner
/// part would panic, so no function here accepts it.
pub open spec fn lone_quote(t: Seq<char>) -> bool {
    t.len() == 1 && is_quote(t[0])
}

/// What `parse_single_bang` makes of a command.
pub open spec fn single_bang(s: Seq<char>) -> Option<BangView> {
    let t = trim(s);
    if t.len() == 0 {
        None
    } else if (t[0] == '"' && t.last() == '"') || (t[0] == '\'' && t.last() == '\'') {
        Some(BangView::Execute(trim(t.subrange(1, t.len() - 1))))
    } else {
        let toks = tokenize(t);
        if toks.len() == 0 {
            None
        } else {
            let first = toks[0];
            let explicit = first.len() > 0 && first[0] == '!';
            let name = if explicit {
                first.drop_first()
            } else {
                first
            };
            bang_of(lower(name), toks.drop_first(), t, explicit)
        }
    }
}

pub open spec fn obv(r: Option<Bang>) -> Option<BangView> {
    match r {
        Some(b) => Some(b@),
        None => None,
    }
}

/// The argument `tokens[i + 1]`, if there is one.
fn arg(tokens: &Vec<String>, i: usize) -> (r: Option<String>)
    requires
        tokens.len() > 0,
    ensures
        ov(r) == sarg(strs(tokens@).drop_first(), i as int),
{
    if i < tokens.len() - 1 {
        Some(tokens[i + 1].clone())
    } else {
        None
    }
}

/// The argument `tokens[i + 1]`, or `default`.
fn arg_or(tokens: &Vec<String>, i: usize, default: &str) -> (r: String)
    requires
        tokens.len() > 0,
    ensures
        r@ == sarg_or(strs(tokens@).drop_first(), i as int, default@),
{
    if i < tokens.len() - 1 {
        tokens[i + 1].clone()
    } else {
        default.to_string()
    }
}

/// The argument `tokens[i + 1]`, or the empty string.
fn arg_or_empty(tokens: &Vec<String>, i: usize) -> (r: String)
    requires
        tokens.len() > 0,
    ensures
        r@ == sarg_or(strs(tokens@).drop_first(), i as int, seq![]),
{
    if i < tokens.len() - 1 {
        tokens[i + 1].clone()
    } else {
        String::new()
    }
}

/// The arguments `tokens[1..]` joined by single spaces.
fn join_args(tokens: &Vec<String>) -> (r: String)
    requires
        tokens.len() > 0,
    ensures
        r@ == join(strs(tokens@).drop_first(), " "@),
{
    let ghost args = strs(tokens@).drop_first();
    let mut r = String::new();
    let mut i: usize = 1;
    while i < tokens.len()
        invariant
            1 <= i <= tokens.len(),
            args == strs(tokens@).drop_first(),
            r@ == join(args.take(i - 1), " "@),
        decreases tokens.len() - i,
    {
        proof {
            assert(args.take(i as int).drop_last() =~= args.take(i - 1));
            assert(args.take(i as int).last() == tokens@[i as int]@);
        }
        if i > 1 {
            r.append(" ");
        }
        r.append(tokens[i].as_str());
        proof {
            if i == 1 {
                assert(args.take(0) =~= seq![]);
                assert(r@ =~= join(args.take(i as int), " "@));
            }
        }
        i = i + 1;
    }
    assert(args.take(tokens.len() - 1) =~= args);
    r
}

} // verus!
verus! {

/// Builds the bang named `lower` from its tokens (`tokens[0]` is the name).
fn bang_from_tokens(
    lower: &[char],
    tokens: &Vec<String>,
    whole: &[char],
    lo: usize,
    hi: usize,
    explicit: bool,
) -> (r: Option<Bang>)
    requires
        tokens.len() > 0,
        lo <= hi <= whole@.len(),
    ensures
        obv(r) == bang_of(
            lower@,
            strs(tokens@).drop_first(),
            whole@.subrange(lo as int, hi as int),
            explicit,
        ),
{
    let n = tokens.len() - 1;
    let ghost args = strs(tokens@).drop_first();
    assert(args.len() == n);
    assert(forall|i: int| 0 <= i < n ==> #[trigger] args[i] == tokens@[i + 1]@);
    if eq_str(lower, "setvariable") {
        if n == 0 {
            None
        } else {
            Some(
                Bang::SetVariable {
                    name: tokens[1].clone(),
                    value: arg_or_empty(tokens, 1),
                    config: arg(tokens, 2),
                },
            )
        }
    } else if eq_str(lower, "setoption") {
        if n < 2 {
            None
        } else {
            Some(
                Bang::SetOption {
                    section: tokens[1].clone(),
                    key: tokens[2].clone(),
                    value: arg_or_empty(tokens, 2),
                    config: arg(tokens, 3),
                },
            )
        }
    } else if eq_str(lower, "writekeyvalue") {
        if n < 2 {
            None
        } else {
            Some(
                Bang::WriteKeyValue {
                    section: tokens[1].clone(),
                    key: tokens[2].clone(),
                    value: arg_or_empty(tokens, 2),
                    file: arg(tokens, 3),
                },
            )
        }
    } else if eq_str(lower, "update") {
        Some(Bang::Update { config: arg(tokens, 0) })
    } else if eq_str(lower, "updatemeter") {
        Some(Bang::UpdateMeter { name: arg_or(tokens, 0, "*"), config: arg(tokens, 1) })
    } else if eq_str(lower, "updatemeasure") {
        Some(Bang::UpdateMeasure { name: arg_or(tokens, 0, "*"), config: arg(tokens, 1) })
    } else if eq_str(lower, "redraw") {
        Some(Bang::Redraw { config: arg(tokens, 0) })
    } else if eq_str(lower, "showmeter") {
        if n == 0 {
            None
        } else {
            Some(Bang::ShowMeter { name: tokens[1].clone(), config: arg(tokens, 1) })
        }
    } else if eq_str(lower, "hidemeter") {
        if n == 0 {
            None
        } else {
            Some(Bang::HideMeter { name: tokens[1].clone(), config: arg(tokens, 1) })
        }
    } else if eq_str(lower, "togglemeter") {
        if n == 0 {
            None
        } else {
            Some(Bang::ToggleMeter { name: tokens[1].clone(), config: arg(tokens, 1) })
        }
    } else if eq_str(lower, "updatemetergroup") {
        if n == 0 {
            None
        } else {
            Some(Bang::UpdateMeterGroup { group: tokens[1].clone(), config: arg(tokens, 1) })
        }
    } else if eq_str(lower, "updatemeasuregroup") {
        if n == 0 {
            None
        } else {
            Some(Bang::UpdateMeasureGroup { group: tokens[1].clone(), config: arg(tokens, 1) })
        }
    } else if eq_str(lower, "redrawgroup") {
        if n == 0 {
            None
        } else {
            Some(Bang::RedrawGroup { group: tokens[1].clone(), config: arg(tokens, 1) })
        }
    } else if eq_str(lower, "showmetergroup") {
        if n == 0 {
            None
        } else {
            Some(Bang::ShowMeterGroup { group: tokens[1].clone(), config: arg(tokens, 1) })
        }
    } else if eq_str(lower, "hidemetergroup") {
        if n == 0 {
            None
        } else {
            Some(Bang::HideMeterGroup { group: tokens[1].clone(), config: arg(tokens, 1) })
        }
    } else if eq_str(lower, "togglemetergroup") {
        if n == 0 {
            None
        } else {
            Some(Bang::ToggleMeterGroup { group: tokens[1].clone(), config: arg(tokens, 1) })
        }
    } else {
        bang_from_tokens_rest(lower, tokens, whole, lo, hi, explicit)
    }
}

/// Continuation of `bang_from_tokens` for the remaining command names.
fn bang_from_tokens_rest(
    lower: &[char],
    tokens: &Vec<String>,
    whole: &[char],
    lo: usize,
    hi: usize,
    explicit: bool,
) -> (r: Option<Bang>)
    requires
        tokens.len() > 0,
        lo <= hi <= whole@.len(),
    ensures
        obv(r) == bang_of_rest(
            lower@,
            strs(tokens@).drop_first(),
            whole@.subrange(lo as int, hi as int),
            explicit,
        ),
{
    let n = tokens.len() - 1;
    let ghost args = strs(tokens@).drop_first();
    assert(args.len() == n);
    assert(forall|i: int| 0 <= i < n ==> #[trigger] args[i] == tokens@[i + 1]@);
    if eq_str(lower, "showfade") || eq_str(lower, "showfadegroup") {
        Some(Bang::ShowFade { name: arg_or_empty(tokens, 0), config: arg(tokens, 1) })
    } else if eq_str(lower, "hidefade") || eq_str(lower, "hidefadegroup") {
        Some(Bang::HideFade { name: arg_or_empty(tokens, 0), config: arg(tokens, 1) })
    } else if eq_str(lower, "togglefade") || eq_str(lower, "togglefadegroup") {
        Some(Bang::ToggleFade { name: arg_or_empty(tokens, 0), config: arg(tokens, 1) })
    } else if eq_str(lower, "enablemeasure") {
        if n == 0 {
            None
        } else {
            Some(Bang::EnableMeasure { name: tokens[1].clone(), config: arg(tokens, 1) })
        }
    } else if eq_str(lower, "disablemeasure") {
        if n == 0 {
            None
        } else {
            Some(Bang::DisableMeasure { name: tokens[1].clone(), config: arg(tokens, 1) })
        }
    } else if eq_str(lower, "togglemeasure") {
        if n == 0 {
            None
        } else {
            Some(Bang::ToggleMeasure { name: tokens[1].clone(), config: arg(tokens, 1) })
        }
    } else if eq_str(lower, "pausemeasure") {
        if n == 0 {
            None
        } else {
            Some(Bang::PauseMeasure { name: tokens[1].clone(), config: arg(tokens, 1) })
        }
    } else if eq_str(lower, "unpausemeasure") {
        if n == 0 {
            None
        } else {
            Some(Bang::UnpauseMeasure { name: tokens[1].clone(), config: arg(tokens, 1) })
        }
    } else if eq_str(lower, "togglepausemeasure") {
        if n == 0 {
            None
        } else {
            Some(Bang::TogglePauseMeasure { name: tokens[1].clone(), config: arg(tokens, 1) })
        }
    } else if eq_str(lower, "activateconfig") {
        if n == 0 {
            None
        } else {
            Some(Bang::ActivateConfig { config: tokens[1].clone(), file: arg(tokens, 1) })
        }
    } else if eq_str(lower, "deactivateconfig") {
        Some(Bang::DeactivateConfig { config: arg(tokens, 0) })
    } else if eq_str(lower, "toggleconfig") {
        if n == 0 {
            None
        } else {
            Some(Bang::ToggleConfig { config: tokens[1].clone(), file: arg(tokens, 1) })
        }
    } else if eq_str(lower, "refresh") {
        Some(Bang::Refresh { config: arg(tokens, 0) })
    } else if eq_str(lower, "refreshgroup") {
        Some(Bang::RefreshGroup { group: arg_or_empty(tokens, 0) })
    } else if eq_str(lower, "refreshapp") {
        Some(Bang::RefreshApp)
    } else if eq_str(lower, "log") || eq_str(lower, "logmessage") {
        Some(Bang::Log { message: join_args(tokens) })
    } else if eq_str(lower, "commandmeasure") {
        if n < 2 {
            None
        } else {
            Some(
                Bang::CommandMeasure {
                    measure: tokens[1].clone(),
                    command: tokens[2].clone(),
                    config: arg(tokens, 2),
                },
            )
        }
    } else if eq_str(lower, "execute") {
        Some(Bang::Execute(join_args(tokens)))
    } else if explicit {
        Some(Bang::NoOp)
    } else {
        Some(Bang::Execute(string_of(whole, lo, hi)))
    }
}

/// Parses a single bang command string.
pub fn parse_single_bang(input: &str) -> (r: Option<Bang>)
    requires
        !lone_quote(trim(input@)),
    ensures
        obv(r) == single_bang(input@),
{
    let v = to_chars(input);
    assert(v@.subrange(0, v@.len() as int) =~= v@);
    parse_single_chars(&v, 0, v.len())
}

/// Parses the command `v[lo..hi]`.
fn parse_single_chars(v: &[char], lo: usize, hi: usize) -> (r: Option<Bang>)
    requires
        lo <= hi <= v@.len(),
        !lone_quote(trim(v@.subrange(lo as int, hi as int))),
    ensures
        obv(r) == single_bang(v@.subrange(lo as int, hi as int)),
{
    let (a, b) = trim_bounds(v, lo, hi);
    let ghost t = v@.subrange(a as int, b as int);
    if a == b {
        return None;
    }
    if (v[a] == '"' && v[b - 1] == '"') || (v[a] == '\'' && v[b - 1] == '\'') {
        assert(b - a >= 2);
        let (c, d) = trim_bounds(v, a + 1, b - 1);
        assert(t.subrange(1, t.len() - 1) =~= v@.subrange(a + 1, b - 1));
        return Some(Bang::Execute(string_of(v, c, d)));
    }
    let tokens = tokenize_chars(v, a, b);
    if tokens.len() == 0 {
        return None;
    }
    let first = to_chars(tokens[0].as_str());
    let explicit = first.len() > 0 && first[0] == '!';
    let start: usize = if explicit {
        1
    } else {
        0
    };
    let low = lower_range(&first, start, first.len());
    proof {
        assert(strs(tokens@)[0] == first@);
        if explicit {
            assert(first@.subrange(1, first@.len() as int) =~= first@.drop_first());
        } else {
            assert(first@.subrange(0, first@.len() as int) =~= first@);
        }
    }
    bang_from_tokens(&low, &tokens, v, a, b, explicit)
}

} // verus!
verus! {

/// Views of a sequence of bangs.
pub open spec fn bang_views(v: Seq<Bang>) -> Seq<BangView> {
    Seq::new(v.len(), |i: int| v[i]@)
}

/// Number of quote characters in a sequence.
pub open spec fn qcount(s: Seq<char>) -> nat
    decreases s.len(),
{
    if s.len() == 0 {
        0
    } else {
        qcount(s.drop_last()) + if is_quote(s.last()) {
            1nat
        } else {
            0nat
        }
    }
}

proof fn lemma_qcount_concat(x: Seq<char>, y: Seq<char>)
    ensures
        qcount(x + y) == qcount(x) + qcount(y),
    decreases y.len(),
{
    if y.len() > 0 {
        assert((x + y).drop_last() =~= x + y.drop_last());
        lemma_qcount_concat(x, y.drop_last());
    } else {
        assert(x + y =~= x);
    }
}

proof fn lemma_qcount_ws(x: Seq<char>)
    requires
        forall|j: int| 0 <= j < x.len() ==> is_ws(#[trigger] x[j]),
    ensures
        qcount(x) == 0,
    decreases x.len(),
{
    if x.len() > 0 {
        assert(is_ws(x[x.len() - 1]));
        lemma_qcount_ws(x.drop_last());
    }
}

/// A sequence whose trimmed form is one quote holds exactly one quote.
proof fn lemma_lone_quote_count(s: Seq<char>)
    requires
        lone_quote(trim(s)),
    ensures
        qcount(s) == 1,
{
    let a = lead_ws(s);
    lemma_lead_ws_bound(s);
    let t = s.skip(a as int);
    lemma_trail_ws_bound(t);
    let b = trail_ws(t);
    let u = t.take(t.len() - b);
    let p = s.take(a as int);
    let q = t.skip(t.len() - b);
    assert(s =~= p + u + q);
    assert forall|j: int| 0 <= j < p.len() implies is_ws(#[trigger] p[j]) by {
        assert(p[j] == s[j]);
    }
    assert forall|j: int| 0 <= j < q.len() implies is_ws(#[trigger] q[j]) by {
        assert(q[j] == t[t.len() - b + j]);
    }
    lemma_qcount_ws(p);
    lemma_qcount_ws(q);
    lemma_qcount_concat(p, u);
    lemma_qcount_concat(p + u, q);
    assert(u == trim(s));
    assert(u.drop_last() =~= Seq::<char>::empty());
    assert(qcount(u.drop_last()) == 0);
    assert(u.last() == u[0]);
    assert(qcount(u) == 1);
}

/// State of the bracket-chain scanner after a prefix of the input.
pub struct BrState {
    pub bangs: Seq<BangView>,
    pub current: Seq<char>,
    pub in_quotes: bool,
    pub quote: char,
    pub depth: nat,
}

pub open spec fn br_init() -> BrState {
    BrState { bangs: seq![], current: seq![], in_quotes: false, quote: '"', depth: 0 }
}

/// Closing the outermost bracket: the trimmed segment, when not empty,
/// is parsed as one bang and kept when it parses.
pub open spec fn br_close(st: BrState) -> BrState {
    let t = trim(st.current);
    let bangs = if t.len() > 0 && single_bang(t) is Some {
        st.bangs.push(single_bang(t).unwrap())
    } else {
        st.bangs
    };
    BrState { bangs, current: seq![], depth: 0, ..st }
}

/// One character of scanning `[...][...]` chains: quotes protect brackets,
/// nested brackets are kept in the segment, closing the outermost bracket
/// yields a bang.
pub open spec fn br_step(st: BrState, c: char) -> BrState {
    if is_quote(c) {
        let (iq, q) = if st.in_quotes && c == st.quote {
            (false, st.quote)
        } else if !st.in_quotes {
            (true, c)
        } else {
            (true, st.quote)
        };
        BrState {
            in_quotes: iq,
            quote: q,
            current: if st.depth > 0 {
                st.current.push(c)
            } else {
                st.current
            },
            ..st
        }
    } else if c == '[' && !st.in_quotes {
        BrState {
            current: if st.depth == 0 {
                seq![]
            } else {
                st.current.push('[')
            },
            depth: st.depth + 1,
            ..st
        }
    } else if c == ']' && !st.in_quotes {
        if st.depth == 0 {
            st
        } else if st.depth == 1 {
            br_close(st)
        } else {
            BrState { current: st.current.push(']'), depth: (st.depth - 1) as nat, ..st }
        }
    } else if st.depth > 0 {
        BrState { current: st.current.push(c), ..st }
    } else {
        st
    }
}

pub open spec fn br_fold(s: Seq<char>) -> BrState
    decreases s.len(),
{
    if s.len() == 0 {
        br_init()
    } else {
        br_step(br_fold(s.drop_last()), s.last())
    }
}

/// Inside a segment, an open quote has put a quote into the segment, and a
/// segment outside quotes never holds exactly one quote.
proof fn lemma_br_quotes(s: Seq<char>)
    ensures
        br_fold(s).depth > 0 ==> (br_fold(s).in_quotes ==> qcount(br_fold(s).current) >= 1),
        br_fold(s).depth > 0 ==> (!br_fold(s).in_quotes ==> qcount(br_fold(s).current) != 1),
    decreases s.len(),
{
    if s.len() > 0 {
        lemma_br_quotes(s.drop_last());
        let st = br_fold(s.drop_last());
        let c = s.last();
        assert forall|x: Seq<char>, d: char| #[trigger] qcount(x.push(d)) == qcount(x) + if is_quote(
            d,
        ) {
            1nat
        } else {
            0nat
        } by {
            assert(x.push(d).drop_last() =~= x);
        }
        assert(qcount(seq![]) == 0);
    }
}

/// What `parse_bangs` makes of its input.
pub open spec fn bangs_of(s: Seq<char>) -> Seq<BangView> {
    let t = trim(s);
    if t.len() == 0 {
        seq![]
    } else if t[0] == '[' && t.last() == ']' {
        br_fold(t).bangs
    } else {
        match single_bang(t) {
            Some(b) => seq![b],
            None => seq![],
        }
    }
}

/// Parses the segment collected between an outermost bracket pair.
fn close_segment(bangs: &mut Vec<Bang>, current: &String)
    requires
        !lone_quote(trim(current@)),
    ensures
        ({
            let t = trim(current@);
            bang_views(final(bangs)@) == if t.len() > 0 && single_bang(t) is Some {
                bang_views(old(bangs)@).push(single_bang(t).unwrap())
            } else {
                bang_views(old(bangs)@)
            }
        }),
{
    let cv = to_chars(current.as_str());
    assert(cv@.subrange(0, cv@.len() as int) =~= cv@);
    let (x, y) = trim_bounds(&cv, 0, cv.len());
    proof {
        lemma_trim_idempotent(current@);
    }
    if x < y {
        if let Some(b) = parse_single_chars(&cv, x, y) {
            let ghost old_bangs = bangs@;
            bangs.push(b);
            assert(bang_views(bangs@) =~= bang_views(old_bangs).push(b@));
        }
    }
}

/// Parses a string containing one or multiple Rainmeter bangs.
///
/// Supports chained bracket syntax: `[!SetVariable Var 1][!UpdateMeter *][!Redraw]`
/// as well as unbracketed single bangs: `!SetVariable Var 1` or `["xdg-open url"]`.
pub fn parse_bangs(input: &str) -> (r: Vec<Bang>)
    requires
        !lone_quote(trim(input@)),
    ensures
        bang_views(r@) == bangs_of(input@),
{
    let v = to_chars(input);
    assert(v@.subrange(0, v@.len() as int) =~= v@);
    let (a, b) = trim_bounds(&v, 0, v.len());
    let ghost t = v@.subrange(a as int, b as int);
    if a == b {
        return Vec::new();
    }
    if v[a] == '[' && v[b - 1] == ']' {
        let mut bangs: Vec<Bang> = Vec::new();
        let mut current = String::new();
        let mut in_quotes = false;
        let mut quote_char = '"';
        let mut depth: usize = 0;
        let mut i = a;
        while i < b
            invariant
                a <= i <= b <= v@.len(),
                t == v@.subrange(a as int, b as int),
                depth <= i - a,
                ({
                    let st = br_fold(t.take(i - a));
                    &&& bang_views(bangs@) == st.bangs
                    &&& current@ == st.current
                    &&& in_quotes == st.in_quotes
                    &&& quote_char == st.quote
                    &&& depth == st.depth
                }),
            decreases b - i,
        {
            let c = v[i];
            proof {
                assert(t.take(i + 1 - a).drop_last() =~= t.take(i - a));
                assert(t.take(i + 1 - a).last() == c);
                lemma_br_quotes(t.take(i - a));
            }
            if c == '"' || c == '\'' {
                if in_quotes && c == quote_char {
                    in_quotes = false;
                } else if !in_quotes {
                    in_quotes = true;
                    quote_char = c;
                }
                if depth > 0 {
                    current.push(c);
                }
            } else if c == '[' && !in_quotes {
                if depth == 0 {
                    current = String::new();
                } else {
                    current.push('[');
                }
                depth = depth + 1;
            } else if c == ']' && !in_quotes {
                if depth > 0 {
                    depth = depth - 1;
                    if depth == 0 {
                        proof {
                            if lone_quote(trim(current@)) {
                                lemma_lone_quote_count(current@);
                            }
                        }
                        close_segment(&mut bangs, &current);
                        current = String::new();
                    } else {
                        current.push(']');
                    }
                }
            } else {
                if depth > 0 {
                    current.push(c);
                }
            }
            i = i + 1;
        }
        assert(t.take(b - a) =~= t);
        bangs
    } else {
        let mut bangs: Vec<Bang> = Vec::new();
        proof {
            lemma_trim_idempotent(v@);
        }
        if let Some(bang) = parse_single_chars(&v, a, b) {
            bangs.push(bang);
        }
        assert(bang_views(bangs@) =~= bangs_of(input@));
        bangs
    }
}

} // verus!
verus! {

/// Where `!WriteKeyValue` puts its line in a file's lines.
pub enum KeyPlace {
    /// Overwrite the existing line of the key.
    Replace(int),
    /// The section exists without the key: insert before this line (the
    /// next section's header, or the end).
    InsertAt(int),
    /// The section does not exist: append it.
    NewSection,
}

/// A trimmed line that opens a section.
pub open spec fn is_header(t: Seq<char>) -> bool {
    t.len() > 0 && t[0] == '[' && t.last() == ']'
}

/// The lower-case name a header opens.
pub open spec fn header_name(t: Seq<char>) -> Seq<char> {
    lower(trim(t.subrange(1, t.len() - 1)))
}

/// The lower-case key of a trimmed `key=value` line.
pub open spec fn line_key(t: Seq<char>) -> Seq<char> {
    lower(trim(t.take(crate::variables::find_from(t, 0, '='))))
}

/// Scans `lines` from `i`, inside the target section or not, for the
/// place of the key (`sec` and `key` lower-case).
pub open spec fn key_place(
    lines: Seq<Seq<char>>,
    i: int,
    in_sec: bool,
    sec: Seq<char>,
    key: Seq<char>,
) -> KeyPlace
    decreases lines.len() - i,
{
    if i < 0 || i >= lines.len() {
        if in_sec {
            KeyPlace::InsertAt(lines.len() as int)
        } else {
            KeyPlace::NewSection
        }
    } else {
        let t = trim(lines[i]);
        if is_header(t) {
            if in_sec {
                KeyPlace::InsertAt(i)
            } else {
                key_place(lines, i + 1, header_name(t) == sec, sec, key)
            }
        } else if in_sec && crate::variables::find_from(t, 0, '=') != -1 && line_key(t) == key {
            KeyPlace::Replace(i)
        } else {
            key_place(lines, i + 1, in_sec, sec, key)
        }
    }
}

pub open spec fn kv_line(key: Seq<char>, value: Seq<char>) -> Seq<char> {
    key + seq!['='] + value
}

/// The lines of a settings file after `!WriteKeyValue section key value`:
/// the key's line in the section is overwritten, or added at the end of the
/// section, or the section is appended (after a blank line when the file
/// does not end with one).
pub open spec fn written_lines(
    lines: Seq<Seq<char>>,
    section: Seq<char>,
    key: Seq<char>,
    value: Seq<char>,
) -> Seq<Seq<char>> {
    match key_place(lines, 0, false, lower(section), lower(key)) {
        KeyPlace::Replace(i) => lines.update(i, kv_line(key, value)),
        KeyPlace::InsertAt(i) => lines.insert(i, kv_line(key, value)),
        KeyPlace::NewSection => {
            let base = if lines.len() > 0 && lines.last().len() > 0 {
                lines.push(Seq::empty())
            } else {
                lines
            };
            base.push(seq!['['] + section + seq![']']).push(kv_line(key, value))
        },
    }
}

/// Lines joined with `\n` between them.
pub open spec fn join_lines(ls: Seq<Seq<char>>) -> Seq<char>
    decreases ls.len(),
{
    if ls.len() == 0 {
        Seq::empty()
    } else if ls.len() == 1 {
        ls[0]
    } else {
        join_lines(ls.drop_last()) + seq!['\n'] + ls.last()
    }
}

proof fn lemma_key_place_range(
    lines: Seq<Seq<char>>,
    i: int,
    in_sec: bool,
    sec: Seq<char>,
    key: Seq<char>,
)
    requires
        0 <= i <= lines.len(),
    ensures
        match key_place(lines, i, in_sec, sec, key) {
            KeyPlace::Replace(j) => i <= j < lines.len(),
            KeyPlace::InsertAt(j) => i <= j <= lines.len(),
            KeyPlace::NewSection => true,
        },
    decreases lines.len() - i,
{
    if i < lines.len() {
        let t = trim(lines[i]);
        if is_header(t) {
            if !in_sec {
                lemma_key_place_range(lines, i + 1, header_name(t) == sec, sec, key);
            }
        } else if !(in_sec && crate::variables::find_from(t, 0, '=') != -1 && line_key(t)
            == key) {
            lemma_key_place_range(lines, i + 1, in_sec, sec, key);
        }
    }
}

pub(crate) fn concat3(a: &str, b: &str, c: &str) -> (r: String)
    ensures
        r@ == a@ + b@ + c@,
{
    let mut v = to_chars(a);
    let bv = to_chars(b);
    let cv = to_chars(c);
    let mut i: usize = 0;
    let ghost a0 = v@;
    while i < bv.len()
        invariant
            i <= bv@.len(),
            v@ == a0 + bv@.take(i as int),
        decreases bv.len() - i,
    {
        v.push(bv[i]);
        i = i + 1;
        assert(v@ =~= a0 + bv@.take(i as int));
    }
    assert(bv@.take(bv@.len() as int) =~= bv@);
    let ghost a1 = v@;
    let mut j: usize = 0;
    while j < cv.len()
        invariant
            j <= cv@.len(),
            v@ == a1 + cv@.take(j as int),
        decreases cv.len() - j,
    {
        v.push(cv[j]);
        j = j + 1;
        assert(v@ =~= a1 + cv@.take(j as int));
    }
    assert(cv@.take(cv@.len() as int) =~= cv@);
    crate::text::string_of_all(&v)
}

/// The trimmed line is a header; returns its lower-case name.
fn header_of(t: &[char]) -> (r: Option<Vec<char>>)
    ensures
        match r {
            Some(n) => is_header(t@) && n@ == header_name(t@),
            None => !is_header(t@),
        },
{
    if t.len() > 0 && t[0] == '[' && t[t.len() - 1] == ']' {
        assert(t@.len() >= 2);
        let (a, b) = trim_bounds(t, 1, t.len() - 1);
        Some(lower_range(t, a, b))
    } else {
        None
    }
}

/// The lower-case key of a trimmed line, if it has an `=`.
fn key_of(t: &[char]) -> (r: Option<Vec<char>>)
    ensures
        match r {
            Some(k) => crate::variables::find_from(t@, 0, '=') != -1 && k@ == line_key(t@),
            None => crate::variables::find_from(t@, 0, '=') == -1,
        },
{
    let mut e: usize = 0;
    while e < t.len() && t[e] != '='
        invariant
            e <= t@.len(),
            forall|k: int| 0 <= k < e ==> t@[k] != '=',
        decreases t.len() - e,
    {
        e = e + 1;
    }
    proof {
        crate::variables::lemma_find_from(t@, 0, '=');
        let f = crate::variables::find_from(t@, 0, '=');
        if f != -1 && f < e {
            assert(t@[f] == '=');
        }
    }
    if e == t.len() {
        return None;
    }
    assert(crate::variables::find_from(t@, 0, '=') == e);
    let (a, b) = trim_bounds(t, 0, e);
    assert(t@.take(e as int) =~= t@.subrange(0, e as int));
    Some(lower_range(t, a, b))
}

/// Finds where the key goes.
fn find_key_place(lines: &Vec<String>, sec: &[char], key: &[char]) -> (r: (u8, usize))
    ensures
        match key_place(views(lines@), 0, false, sec@, key@) {
            KeyPlace::Replace(i) => r.0 == 0 && r.1 == i,
            KeyPlace::InsertAt(i) => r.0 == 1 && r.1 == i,
            KeyPlace::NewSection => r.0 == 2,
        },
{
    let ghost ls = views(lines@);
    let mut in_sec = false;
    let mut i: usize = 0;
    while i < lines.len()
        invariant
            ls == views(lines@),
            i <= lines@.len(),
            key_place(ls, 0, false, sec@, key@) == key_place(ls, i as int, in_sec, sec@, key@),
        decreases lines.len() - i,
    {
        let v = to_chars(lines[i].as_str());
        assert(v@.subrange(0, v@.len() as int) =~= v@);
        let (a, b) = trim_bounds(&v, 0, v.len());
        let t = crate::text::to_chars(string_of(&v, a, b).as_str());
        assert(t@ == trim(ls[i as int]));
        match header_of(&t) {
            Some(name) => {
                if in_sec {
                    return (1, i);
                }
                in_sec = crate::text::eq_chars(&name, sec);
            },
            None => {
                if in_sec {
                    match key_of(&t) {
                        Some(k) => {
                            if crate::text::eq_chars(&k, key) {
                                return (0, i);
                            }
                        },
                        None => {},
                    }
                }
            },
        }
        i = i + 1;
    }
    if in_sec {
        (1, lines.len())
    } else {
        (2, 0)
    }
}

/// Joins lines with `\n` and ends the text with one more `\n`.
fn join_with_newlines(ls: &Vec<String>) -> (r: String)
    ensures
        r@ == join_lines(views(ls@)) + seq!['\n'],
{
    let mut out: Vec<char> = Vec::new();
    let mut i: usize = 0;
    while i < ls.len()
        invariant
            i <= ls@.len(),
            out@ == join_lines(views(ls@).take(i as int)),
        decreases ls.len() - i,
    {
        let v = to_chars(ls[i].as_str());
        let ghost before = out@;
        if i > 0 {
            out.push('\n');
        }
        let mut j: usize = 0;
        let ghost mid = out@;
        while j < v.len()
            invariant
                j <= v@.len(),
                out@ == mid + v@.take(j as int),
            decreases v.len() - j,
        {
            out.push(v[j]);
            j = j + 1;
            assert(out@ =~= mid + v@.take(j as int));
        }
        assert(v@.take(v@.len() as int) =~= v@);
        proof {
            let t = views(ls@).take(i + 1);
            assert(t.drop_last() =~= views(ls@).take(i as int));
            assert(t.last() == ls@[i as int]@);
            if i == 0 {
                assert(out@ =~= t[0]);
            } else {
                assert(out@ =~= join_lines(t.drop_last()) + seq!['\n'] + t.last());
            }
        }
        i = i + 1;
    }
    assert(views(ls@).take(ls@.len() as int) =~= views(ls@));
    out.push('\n');
    crate::text::string_of_all(&out)
}

/// The new text of a settings file after `!WriteKeyValue section key
/// value` (see `written_lines`); the file ends with a newline.
pub fn write_key_value_content(content: &str, section: &str, key: &str, value: &str) -> (r:
    String)
    ensures
        r@ == join_lines(written_lines(crate::text::lines_spec(content@), section@, key@, value@))
            + seq!['\n'],
{
    let mut ls = crate::text::lines(content);
    let ghost orig = views(ls@);
    let sv = to_chars(section);
    let kv = to_chars(key);
    let sl = lower_range(&sv, 0, sv.len());
    let kl = lower_range(&kv, 0, kv.len());
    assert(sv@.subrange(0, sv@.len() as int) =~= sv@);
    assert(kv@.subrange(0, kv@.len() as int) =~= kv@);
    let line = concat3(key, "=", value);
    proof {
        reveal_strlit("=");
        assert(line@ =~= kv_line(key@, value@));
        lemma_key_place_range(orig, 0, false, lower(section@), lower(key@));
    }
    let (kind, at) = find_key_place(&ls, &sl, &kl);
    if kind == 0 {
        ls.set(at, line);
        assert(views(ls@) =~= orig.update(at as int, kv_line(key@, value@)));
    } else if kind == 1 {
        ls.insert(at, line);
        assert(views(ls@) =~= orig.insert(at as int, kv_line(key@, value@)));
    } else {
        let n = ls.len();
        if n > 0 && ls[n - 1].unicode_len() > 0 {
            ls.push(String::new());
        }
        let ghost base = views(ls@);
        let header = concat3("[", section, "]");
        proof {
            reveal_strlit("[");
            reveal_strlit("]");
            assert(header@ =~= seq!['['] + section@ + seq![']']);
        }
        ls.push(header);
        ls.push(line);
        assert(views(ls@) =~= base.push(seq!['['] + section@ + seq![']']).push(
            kv_line(key@, value@),
        ));
        proof {
            if n > 0 && orig.last().len() > 0 {
                assert(base =~= orig.push(Seq::empty()));
            } else {
                assert(base =~= orig);
            }
        }
    }
    join_with_newlines(&ls)
}

/// What `execute_command` does with a command.
#[derive(Debug, Clone, PartialEq, Eq)]
pub enum CommandAction {
    /// Blank: nothing to run.
    Nothing,
    /// An `http://` or `https://` address, opened with `xdg-open`.
    OpenUrl(String),
    /// Anything else, run by `sh -c`.
    Shell(String),
}

/// Decides how a command from `!Execute` or a bare action is run; the
/// command is trimmed first.
pub fn command_action(cmd: &str) -> (r: CommandAction)
    ensures
        trim(cmd@).len() == 0 ==> r == CommandAction::Nothing,
        trim(cmd@).len() > 0 && (crate::text::starts_with(trim(cmd@), "http://"@)
            || crate::text::starts_with(trim(cmd@), "https://"@)) ==> (r matches CommandAction::OpenUrl(u)
            && u@ == trim(cmd@)),
        trim(cmd@).len() > 0 && !(crate::text::starts_with(trim(cmd@), "http://"@)
            || crate::text::starts_with(trim(cmd@), "https://"@)) ==> (r matches CommandAction::Shell(s)
            && s@ == trim(cmd@)),
{
    let t = crate::text::trim_str(cmd);
    let tv = to_chars(t.as_str());
    if tv.len() == 0 {
        CommandAction::Nothing
    } else if crate::text::starts_with_str(&tv, "http://") || crate::text::starts_with_str(
        &tv,
        "https://",
    ) {
        CommandAction::OpenUrl(t)
    } else {
        CommandAction::Shell(t)
    }
}

} // verus!
verus! {

/// Without quote characters the tokenizer never enters quotes and follows
/// the white-space split step by step; every token it completes is
/// non-empty.
proof fn lemma_tok_fold(s: Seq<char>)
    ensures
        forall|i: int| 0 <= i < tok_fold(s).tokens.len() ==> (#[trigger] tok_fold(s).tokens[i]).len() > 0,
        (forall|i: int| 0 <= i < s.len() ==> !is_quote(#[trigger] s[i])) ==> {
            &&& !tok_fold(s).in_quotes
            &&& tok_fold(s).tokens == crate::measures::system::words_fold(s).done
            &&& tok_fold(s).current == crate::measures::system::words_fold(s).cur
        },
    decreases s.len(),
{
    if s.len() > 0 {
        lemma_tok_fold(s.drop_last());
        let st = tok_fold(s.drop_last());
        let nt = tok_fold(s);
        assert forall|i: int| 0 <= i < nt.tokens.len() implies (#[trigger] nt.tokens[i]).len() > 0 by {
            if i < st.tokens.len() {
                assert(nt.tokens[i] == st.tokens[i]);
            }
        }
        if forall|i: int| 0 <= i < s.len() ==> !is_quote(#[trigger] s[i]) {
            assert forall|i: int| 0 <= i < s.drop_last().len() implies !is_quote(#[trigger] s.drop_last()[i]) by {
                assert(s.drop_last()[i] == s[i]);
            }
            assert(!is_quote(s[s.len() - 1]));
        }
    }
}

/// Law: every argument of a command line is non-empty, and a line without
/// quotes splits exactly at white space (as `str::split_whitespace`).
pub proof fn law_tokens_split_at_white_space(s: Seq<char>)
    ensures
        forall|i: int| 0 <= i < tokenize(s).len() ==> (#[trigger] tokenize(s)[i]).len() > 0,
        (forall|i: int| 0 <= i < s.len() ==> !is_quote(#[trigger] s[i])) ==> tokenize(s)
            == crate::measures::system::words(s),
{
    lemma_tok_fold(s);
    let st = tok_fold(s);
    assert forall|i: int| 0 <= i < tokenize(s).len() implies (#[trigger] tokenize(s)[i]).len() > 0 by {
        if i < st.tokens.len() {
            assert(tokenize(s)[i] == st.tokens[i]);
        }
    }
}

/// A word of a command line: characters that neither separate (white
/// space) nor group (quotes).
pub open spec fn plain_word(w: Seq<char>) -> bool {
    &&& w.len() > 0
    &&& forall|i: int| 0 <= i < w.len() ==> !is_ws(#[trigger] w[i]) && !is_quote(w[i])
}

/// The command line `!name arg`.
pub open spec fn bang_line(name: Seq<char>, arg: Seq<char>) -> Seq<char> {
    seq!['!'] + name + seq![' '] + arg
}

/// The command line `!name a b`.
pub open spec fn bang_line2(name: Seq<char>, a: Seq<char>, b: Seq<char>) -> Seq<char> {
    seq!['!'] + name + seq![' '] + a + seq![' '] + b
}

/// Plain characters add to the word being read.
proof fn lemma_fold_plain(p: Seq<char>, w: Seq<char>)
    requires
        !tok_fold(p).in_quotes,
        forall|i: int| 0 <= i < w.len() ==> !is_ws(#[trigger] w[i]) && !is_quote(w[i]),
    ensures
        tok_fold(p + w) == (TokState { current: tok_fold(p).current + w, ..tok_fold(p) }),
    decreases w.len(),
{
    if w.len() == 0 {
        assert(p + w =~= p);
        assert(tok_fold(p).current + w =~= tok_fold(p).current);
    } else {
        assert((p + w).drop_last() =~= p + w.drop_last());
        assert((p + w).last() == w.last());
        lemma_fold_plain(p, w.drop_last());
        assert((tok_fold(p).current + w.drop_last()).push(w.last()) =~= tok_fold(p).current + w);
    }
}

/// A space after a word ends it.
proof fn lemma_fold_space(p: Seq<char>)
    requires
        !tok_fold(p).in_quotes,
        tok_fold(p).current.len() > 0,
    ensures
        tok_fold(p.push(' ')) == (TokState {
            tokens: tok_fold(p).tokens.push(tok_fold(p).current),
            current: seq![],
            ..tok_fold(p)
        }),
{
    assert(p.push(' ').drop_last() =~= p);
    assert(is_ws(' '));
    assert(!is_quote(' '));
}

/// `!name a` splits into `!name` and `a`; `!name a b` into three words.
proof fn lemma_bang_words(name: Seq<char>, a: Seq<char>, b: Seq<char>)
    requires
        plain_word(name),
        plain_word(a),
        plain_word(b),
    ensures
        tokenize(bang_line(name, a)) == seq![seq!['!'] + name, a],
        tokenize(bang_line2(name, a, b)) == seq![seq!['!'] + name, a, b],
{
    let c = seq!['!'] + name;
    assert forall|i: int| 0 <= i < c.len() implies !is_ws(#[trigger] c[i]) && !is_quote(c[i]) by {
        if i > 0 {
            assert(c[i] == name[i - 1]);
        }
    }
    assert(Seq::<char>::empty() + c =~= c);
    lemma_fold_plain(Seq::empty(), c);
    lemma_fold_space(c);
    let c1 = c.push(' ');
    lemma_fold_plain(c1, a);
    assert(c1 + a =~= bang_line(name, a));
    assert(seq![c].push(a) =~= seq![c, a]);
    let c2 = (c1 + a).push(' ');
    lemma_fold_space(c1 + a);
    lemma_fold_plain(c2, b);
    assert(c2 + b =~= bang_line2(name, a, b));
    assert(seq![c].push(a).push(b) =~= seq![c, a, b]);
}

/// A line whose ends are no white space is its own trim.
proof fn lemma_trim_plain_ends(t: Seq<char>)
    requires
        t.len() > 0,
        !is_ws(t[0]),
        !is_ws(t.last()),
    ensures
        trim(t) == t,
{
    assert(crate::text::lead_ws(t) == 0);
    assert(t.skip(0) =~= t);
    assert(crate::text::trail_ws(t) == 0);
    assert(t.take(t.len() as int) =~= t);
}

/// `!name a` reads as the bang `lower(name)` names, with argument `a`.
proof fn lemma_bang_line(name: Seq<char>, a: Seq<char>, b: Seq<char>)
    requires
        plain_word(name),
        plain_word(a),
        plain_word(b),
    ensures
        single_bang(bang_line(name, a)) == bang_of(lower(name), seq![a], bang_line(name, a), true),
        single_bang(bang_line2(name, a, b)) == bang_of(lower(name), seq![a, b], bang_line2(name, a, b), true),
{
    lemma_bang_words(name, a, b);
    let t = bang_line(name, a);
    assert(t[0] == '!');
    assert(t.last() == a.last());
    assert(!is_ws(a[a.len() - 1]));
    lemma_trim_plain_ends(t);
    let c = seq!['!'] + name;
    assert(c.drop_first() =~= name);
    assert(seq![c, a].drop_first() =~= seq![a]);
    let t2 = bang_line2(name, a, b);
    assert(t2[0] == '!');
    assert(t2.last() == b.last());
    assert(!is_ws(b[b.len() - 1]));
    lemma_trim_plain_ends(t2);
    assert(seq![c, a, b].drop_first() =~= seq![a, b]);
}

/// Law: the meter bangs name their variant: `!ShowMeter m`, `!HideMeter m`, `!ToggleMeter m`, `!UpdateMeter m` and their `Group` forms act on the meter or group `m`; `!Update c` and `!Redraw c` act on the config `c`.
pub proof fn law_meter_bangs(name: Seq<char>, a: Seq<char>)
    requires
        plain_word(name),
        plain_word(a),
    ensures
        lower(name) == "update"@ ==> single_bang(bang_line(name, a)) == Some(BangView::Update { config: Some(a) }),
        lower(name) == "updatemeter"@ ==> single_bang(bang_line(name, a)) == Some(BangView::UpdateMeter { name: a, config: None }),
        lower(name) == "updatemeasure"@ ==> single_bang(bang_line(name, a)) == Some(BangView::UpdateMeasure { name: a, config: None }),
        lower(name) == "redraw"@ ==> single_bang(bang_line(name, a)) == Some(BangView::Redraw { config: Some(a) }),
        lower(name) == "showmeter"@ ==> single_bang(bang_line(name, a)) == Some(BangView::ShowMeter { name: a, config: None }),
        lower(name) == "hidemeter"@ ==> single_bang(bang_line(name, a)) == Some(BangView::HideMeter { name: a, config: None }),
        lower(name) == "togglemeter"@ ==> single_bang(bang_line(name, a)) == Some(BangView::ToggleMeter { name: a, config: None }),
        lower(name) == "updatemetergroup"@ ==> single_bang(bang_line(name, a)) == Some(BangView::UpdateMeterGroup { group: a, config: None }),
        lower(name) == "updatemeasuregroup"@ ==> single_bang(bang_line(name, a)) == Some(BangView::UpdateMeasureGroup { group: a, config: None }),
        lower(name) == "redrawgroup"@ ==> single_bang(bang_line(name, a)) == Some(BangView::RedrawGroup { group: a, config: None }),
        lower(name) == "showmetergroup"@ ==> single_bang(bang_line(name, a)) == Some(BangView::ShowMeterGroup { group: a, config: None }),
        lower(name) == "hidemetergroup"@ ==> single_bang(bang_line(name, a)) == Some(BangView::HideMeterGroup { group: a, config: None }),
        lower(name) == "togglemetergroup"@ ==> single_bang(bang_line(name, a)) == Some(BangView::ToggleMeterGroup { group: a, config: None }),
{
    lemma_bang_line(name, a, a);
    reveal_strlit("setvariable");
    reveal_strlit("setoption");
    reveal_strlit("writekeyvalue");
    reveal_strlit("update");
    reveal_strlit("updatemeter");
    reveal_strlit("updatemeasure");
    reveal_strlit("redraw");
    reveal_strlit("showmeter");
    reveal_strlit("hidemeter");
    reveal_strlit("togglemeter");
    reveal_strlit("updatemetergroup");
    reveal_strlit("updatemeasuregroup");
    reveal_strlit("redrawgroup");
    reveal_strlit("showmetergroup");
    reveal_strlit("hidemetergroup");
    reveal_strlit("togglemetergroup");
    reveal_strlit("showfade");
    reveal_strlit("showfadegroup");
    reveal_strlit("hidefade");
    reveal_strlit("hidefadegroup");
    reveal_strlit("togglefade");
    reveal_strlit("togglefadegroup");
    reveal_strlit("enablemeasure");
    reveal_strlit("disablemeasure");
    reveal_strlit("togglemeasure");
    reveal_strlit("pausemeasure");
    reveal_strlit("unpausemeasure");
    reveal_strlit("togglepausemeasure");
    reveal_strlit("activateconfig");
    reveal_strlit("deactivateconfig");
    reveal_strlit("toggleconfig");
    reveal_strlit("refresh");
    reveal_strlit("refreshgroup");
    reveal_strlit("refreshapp");
    reveal_strlit("log");
    reveal_strlit("logmessage");
    reveal_strlit("commandmeasure");
    reveal_strlit("execute");
    if lower(name) == "update"@ {
        assert("update"@.len() != "setvariable"@.len());
        assert("update"@.len() != "setoption"@.len());
        assert("update"@.len() != "writekeyvalue"@.len());
    }
    if lower(name) == "updatemeter"@ {
        assert("updatemeter"@[0] != "setvariable"@[0]);
        assert("updatemeter"@.len() != "setoption"@.len());
        assert("updatemeter"@.len() != "writekeyvalue"@.len());
        assert("updatemeter"@.len() != "update"@.len());
    }
    if lower(name) == "updatemeasure"@ {
        assert("updatemeasure"@.len() != "setvariable"@.len());
        assert("updatemeasure"@.len() != "setoption"@.len());
        assert("updatemeasure"@[0] != "writekeyvalue"@[0]);
        assert("updatemeasure"@.len() != "update"@.len());
        assert("updatemeasure"@.len() != "updatemeter"@.len());
    }
    if lower(name) == "redraw"@ {
        assert("redraw"@.len() != "setvariable"@.len());
        assert("redraw"@.len() != "setoption"@.len());
        assert("redraw"@.len() != "writekeyvalue"@.len());
        assert("redraw"@[0] != "update"@[0]);
        assert("redraw"@.len() != "updatemeter"@.len());
        assert("redraw"@.len() != "updatemeasure"@.len());
    }
    if lower(name) == "showmeter"@ {
        assert("showmeter"@.len() != "setvariable"@.len());
        assert("showmeter"@[1] != "setoption"@[1]);
        assert("showmeter"@.len() != "writekeyvalue"@.len());
        assert("showmeter"@.len() != "update"@.len());
        assert("showmeter"@.len() != "updatemeter"@.len());
        assert("showmeter"@.len() != "updatemeasure"@.len());
        assert("showmeter"@.len() != "redraw"@.len());
    }
    if lower(name) == "hidemeter"@ {
        assert("hidemeter"@.len() != "setvariable"@.len());
        assert("hidemeter"@[0] != "setoption"@[0]);
        assert("hidemeter"@.len() != "writekeyvalue"@.len());
        assert("hidemeter"@.len() != "update"@.len());
        assert("hidemeter"@.len() != "updatemeter"@.len());
        assert("hidemeter"@.len() != "updatemeasure"@.len());
        assert("hidemeter"@.len() != "redraw"@.len());
        assert("hidemeter"@[0] != "showmeter"@[0]);
    }
    if lower(name) == "togglemeter"@ {
        assert("togglemeter"@[0] != "setvariable"@[0]);
        assert("togglemeter"@.len() != "setoption"@.len());
        assert("togglemeter"@.len() != "writekeyvalue"@.len());
        assert("togglemeter"@.len() != "update"@.len());
        assert("togglemeter"@[0] != "updatemeter"@[0]);
        assert("togglemeter"@.len() != "updatemeasure"@.len());
        assert("togglemeter"@.len() != "redraw"@.len());
        assert("togglemeter"@.len() != "showmeter"@.len());
        assert("togglemeter"@.len() != "hidemeter"@.len());
    }
    if lower(name) == "updatemetergroup"@ {
        assert("updatemetergroup"@.len() != "setvariable"@.len());
        assert("updatemetergroup"@.len() != "setoption"@.len());
        assert("updatemetergroup"@.len() != "writekeyvalue"@.len());
        assert("updatemetergroup"@.len() != "update"@.len());
        assert("updatemetergroup"@.len() != "updatemeter"@.len());
        assert("updatemetergroup"@.len() != "updatemeasure"@.len());
        assert("updatemetergroup"@.len() != "redraw"@.len());
        assert("updatemetergroup"@.len() != "showmeter"@.len());
        assert("updatemetergroup"@.len() != "hidemeter"@.len());
        assert("updatemetergroup"@.len() != "togglemeter"@.len());
    }
    if lower(name) == "updatemeasuregroup"@ {
        assert("updatemeasuregroup"@.len() != "setvariable"@.len());
        assert("updatemeasuregroup"@.len() != "setoption"@.len());
        assert("updatemeasuregroup"@.len() != "writekeyvalue"@.len());
        assert("updatemeasuregroup"@.len() != "update"@.len());
        assert("updatemeasuregroup"@.len() != "updatemeter"@.len());
        assert("updatemeasuregroup"@.len() != "updatemeasure"@.len());
        assert("updatemeasuregroup"@.len() != "redraw"@.len());
        assert("updatemeasuregroup"@.len() != "showmeter"@.len());
        assert("updatemeasuregroup"@.len() != "hidemeter"@.len());
        assert("updatemeasuregroup"@.len() != "togglemeter"@.len());
        assert("updatemeasuregroup"@.len() != "updatemetergroup"@.len());
    }
    if lower(name) == "redrawgroup"@ {
        assert("redrawgroup"@[0] != "setvariable"@[0]);
        assert("redrawgroup"@.len() != "setoption"@.len());
        assert("redrawgroup"@.len() != "writekeyvalue"@.len());
        assert("redrawgroup"@.len() != "update"@.len());
        assert("redrawgroup"@[0] != "updatemeter"@[0]);
        assert("redrawgroup"@.len() != "updatemeasure"@.len());
        assert("redrawgroup"@.len() != "redraw"@.len());
        assert("redrawgroup"@.len() != "showmeter"@.len());
        assert("redrawgroup"@.len() != "hidemeter"@.len());
        assert("redrawgroup"@[0] != "togglemeter"@[0]);
        assert("redrawgroup"@.len() != "updatemetergroup"@.len());
        assert("redrawgroup"@.len() != "updatemeasuregroup"@.len());
    }
    if lower(name) == "showmetergroup"@ {
        assert("showmetergroup"@.len() != "setvariable"@.len());
        assert("showmetergroup"@.len() != "setoption"@.len());
        assert("showmetergroup"@.len() != "writekeyvalue"@.len());
        assert("showmetergroup"@.len() != "update"@.len());
        assert("showmetergroup"@.len() != "updatemeter"@.len());
        assert("showmetergroup"@.len() != "updatemeasure"@.len());
        assert("showmetergroup"@.len() != "redraw"@.len());
        assert("showmetergroup"@.len() != "showmeter"@.len());
        assert("showmetergroup"@.len() != "hidemeter"@.len());
        assert("showmetergroup"@.len() != "togglemeter"@.len());
        assert("showmetergroup"@.len() != "updatemetergroup"@.len());
        assert("showmetergroup"@.len() != "updatemeasuregroup"@.len());
        assert("showmetergroup"@.len() != "redrawgroup"@.len());
    }
    if lower(name) == "hidemetergroup"@ {
        assert("hidemetergroup"@.len() != "setvariable"@.len());
        assert("hidemetergroup"@.len() != "setoption"@.len());
        assert("hidemetergroup"@.len() != "writekeyvalue"@.len());
        assert("hidemetergroup"@.len() != "update"@.len());
        assert("hidemetergroup"@.len() != "updatemeter"@.len());
        assert("hidemetergroup"@.len() != "updatemeasure"@.len());
        assert("hidemetergroup"@.len() != "redraw"@.len());
        assert("hidemetergroup"@.len() != "showmeter"@.len());
        assert("hidemetergroup"@.len() != "hidemeter"@.len());
        assert("hidemetergroup"@.len() != "togglemeter"@.len());
        assert("hidemetergroup"@.len() != "updatemetergroup"@.len());
        assert("hidemetergroup"@.len() != "updatemeasuregroup"@.len());
        assert("hidemetergroup"@.len() != "redrawgroup"@.len());
        assert("hidemetergroup"@[0] != "showmetergroup"@[0]);
    }
    if lower(name) == "togglemetergroup"@ {
        assert("togglemetergroup"@.len() != "setvariable"@.len());
        assert("togglemetergroup"@.len() != "setoption"@.len());
        assert("togglemetergroup"@.len() != "writekeyvalue"@.len());
        assert("togglemetergroup"@.len() != "update"@.len());
        assert("togglemetergroup"@.len() != "updatemeter"@.len());
        assert("togglemetergroup"@.len() != "updatemeasure"@.len());
        assert("togglemetergroup"@.len() != "redraw"@.len());
        assert("togglemetergroup"@.len() != "showmeter"@.len());
        assert("togglemetergroup"@.len() != "hidemeter"@.len());
        assert("togglemetergroup"@.len() != "togglemeter"@.len());
        assert("togglemetergroup"@[0] != "updatemetergroup"@[0]);
        assert("togglemetergroup"@.len() != "updatemeasuregroup"@.len());
        assert("togglemetergroup"@.len() != "redrawgroup"@.len());
        assert("togglemetergroup"@.len() != "showmetergroup"@.len());
        assert("togglemetergroup"@.len() != "hidemetergroup"@.len());
    }
}

/// Law: the measure and fade bangs name their variant: `!EnableMeasure m`, `!DisableMeasure m`, `!ToggleMeasure m`, `!PauseMeasure m`, `!UnpauseMeasure m` and `!TogglePauseMeasure m` act on the measure `m`; `!ShowFade m`, `!HideFade m` and `!ToggleFade m` (and their `Group` spellings) fade `m`.
pub proof fn law_measure_bangs(name: Seq<char>, a: Seq<char>)
    requires
        plain_word(name),
        plain_word(a),
    ensures
        lower(name) == "showfade"@ ==> single_bang(bang_line(name, a)) == Some(BangView::ShowFade { name: a, config: None }),
        lower(name) == "showfadegroup"@ ==> single_bang(bang_line(name, a)) == Some(BangView::ShowFade { name: a, config: None }),
        lower(name) == "hidefade"@ ==> single_bang(bang_line(name, a)) == Some(BangView::HideFade { name: a, config: None }),
        lower(name) == "hidefadegroup"@ ==> single_bang(bang_line(name, a)) == Some(BangView::HideFade { name: a, config: None }),
        lower(name) == "togglefade"@ ==> single_bang(bang_line(name, a)) == Some(BangView::ToggleFade { name: a, config: None }),
        lower(name) == "togglefadegroup"@ ==> single_bang(bang_line(name, a)) == Some(BangView::ToggleFade { name: a, config: None }),
        lower(name) == "enablemeasure"@ ==> single_bang(bang_line(name, a)) == Some(BangView::EnableMeasure { name: a, config: None }),
        lower(name) == "disablemeasure"@ ==> single_bang(bang_line(name, a)) == Some(BangView::DisableMeasure { name: a, config: None }),
        lower(name) == "togglemeasure"@ ==> single_bang(bang_line(name, a)) == Some(BangView::ToggleMeasure { name: a, config: None }),
        lower(name) == "pausemeasure"@ ==> single_bang(bang_line(name, a)) == Some(BangView::PauseMeasure { name: a, config: None }),
        lower(name) == "unpausemeasure"@ ==> single_bang(bang_line(name, a)) == Some(BangView::UnpauseMeasure { name: a, config: None }),
        lower(name) == "togglepausemeasure"@ ==> single_bang(bang_line(name, a)) == Some(BangView::TogglePauseMeasure { name: a, config: None }),
{
    lemma_bang_line(name, a, a);
    reveal_strlit("setvariable");
    reveal_strlit("setoption");
    reveal_strlit("writekeyvalue");
    reveal_strlit("update");
    reveal_strlit("updatemeter");
    reveal_strlit("updatemeasure");
    reveal_strlit("redraw");
    reveal_strlit("showmeter");
    reveal_strlit("hidemeter");
    reveal_strlit("togglemeter");
    reveal_strlit("updatemetergroup");
    reveal_strlit("updatemeasuregroup");
    reveal_strlit("redrawgroup");
    reveal_strlit("showmetergroup");
    reveal_strlit("hidemetergroup");
    reveal_strlit("togglemetergroup");
    reveal_strlit("showfade");
    reveal_strlit("showfadegroup");
    reveal_strlit("hidefade");
    reveal_strlit("hidefadegroup");
    reveal_strlit("togglefade");
    reveal_strlit("togglefadegroup");
    reveal_strlit("enablemeasure");
    reveal_strlit("disablemeasure");
    reveal_strlit("togglemeasure");
    reveal_strlit("pausemeasure");
    reveal_strlit("unpausemeasure");
    reveal_strlit("togglepausemeasure");
    reveal_strlit("activateconfig");
    reveal_strlit("deactivateconfig");
    reveal_strlit("toggleconfig");
    reveal_strlit("refresh");
    reveal_strlit("refreshgroup");
    reveal_strlit("refreshapp");
    reveal_strlit("log");
    reveal_strlit("logmessage");
    reveal_strlit("commandmeasure");
    reveal_strlit("execute");
    if lower(name) == "showfade"@ {
        assert("showfade"@.len() != "setvariable"@.len());
        assert("showfade"@.len() != "setoption"@.len());
        assert("showfade"@.len() != "writekeyvalue"@.len());
        assert("showfade"@.len() != "update"@.len());
        assert("showfade"@.len() != "updatemeter"@.len());
        assert("showfade"@.len() != "updatemeasure"@.len());
        assert("showfade"@.len() != "redraw"@.len());
        assert("showfade"@.len() != "showmeter"@.len());
        assert("showfade"@.len() != "hidemeter"@.len());
        assert("showfade"@.len() != "togglemeter"@.len());
        assert("showfade"@.len() != "updatemetergroup"@.len());
        assert("showfade"@.len() != "updatemeasuregroup"@.len());
        assert("showfade"@.len() != "redrawgroup"@.len());
        assert("showfade"@.len() != "showmetergroup"@.len());
        assert("showfade"@.len() != "hidemetergroup"@.len());
        assert("showfade"@.len() != "togglemetergroup"@.len());
    }
    if lower(name) == "showfadegroup"@ {
        assert("showfadegroup"@.len() != "setvariable"@.len());
        assert("showfadegroup"@.len() != "setoption"@.len());
        assert("showfadegroup"@[0] != "writekeyvalue"@[0]);
        assert("showfadegroup"@.len() != "update"@.len());
        assert("showfadegroup"@.len() != "updatemeter"@.len());
        assert("showfadegroup"@[0] != "updatemeasure"@[0]);
        assert("showfadegroup"@.len() != "redraw"@.len());
        assert("showfadegroup"@.len() != "showmeter"@.len());
        assert("showfadegroup"@.len() != "hidemeter"@.len());
        assert("showfadegroup"@.len() != "togglemeter"@.len());
        assert("showfadegroup"@.len() != "updatemetergroup"@.len());
        assert("showfadegroup"@.len() != "updatemeasuregroup"@.len());
        assert("showfadegroup"@.len() != "redrawgroup"@.len());
        assert("showfadegroup"@.len() != "showmetergroup"@.len());
        assert("showfadegroup"@.len() != "hidemetergroup"@.len());
        assert("showfadegroup"@.len() != "togglemetergroup"@.len());
        assert("showfadegroup"@.len() != "showfade"@.len());
    }
    if lower(name) == "hidefade"@ {
        assert("hidefade"@.len() != "setvariable"@.len());
        assert("hidefade"@.len() != "setoption"@.len());
        assert("hidefade"@.len() != "writekeyvalue"@.len());
        assert("hidefade"@.len() != "update"@.len());
        assert("hidefade"@.len() != "updatemeter"@.len());
        assert("hidefade"@.len() != "updatemeasure"@.len());
        assert("hidefade"@.len() != "redraw"@.len());
        assert("hidefade"@.len() != "showmeter"@.len());
        assert("hidefade"@.len() != "hidemeter"@.len());
        assert("hidefade"@.len() != "togglemeter"@.len());
        assert("hidefade"@.len() != "updatemetergroup"@.len());
        assert("hidefade"@.len() != "updatemeasuregroup"@.len());
        assert("hidefade"@.len() != "redrawgroup"@.len());
        assert("hidefade"@.len() != "showmetergroup"@.len());
        assert("hidefade"@.len() != "hidemetergroup"@.len());
        assert("hidefade"@.len() != "togglemetergroup"@.len());
        assert("hidefade"@[0] != "showfade"@[0]);
        assert("hidefade"@.len() != "showfadegroup"@.len());
    }
    if lower(name) == "hidefadegroup"@ {
        assert("hidefadegroup"@.len() != "setvariable"@.len());
        assert("hidefadegroup"@.len() != "setoption"@.len());
        assert("hidefadegroup"@[0] != "writekeyvalue"@[0]);
        assert("hidefadegroup"@.len() != "update"@.len());
        assert("hidefadegroup"@.len() != "updatemeter"@.len());
        assert("hidefadegroup"@[0] != "updatemeasure"@[0]);
        assert("hidefadegroup"@.len() != "redraw"@.len());
        assert("hidefadegroup"@.len() != "showmeter"@.len());
        assert("hidefadegroup"@.len() != "hidemeter"@.len());
        assert("hidefadegroup"@.len() != "togglemeter"@.len());
        assert("hidefadegroup"@.len() != "updatemetergroup"@.len());
        assert("hidefadegroup"@.len() != "updatemeasuregroup"@.len());
        assert("hidefadegroup"@.len() != "redrawgroup"@.len());
        assert("hidefadegroup"@.len() != "showmetergroup"@.len());
        assert("hidefadegroup"@.len() != "hidemetergroup"@.len());
        assert("hidefadegroup"@.len() != "togglemetergroup"@.len());
        assert("hidefadegroup"@.len() != "showfade"@.len());
        assert("hidefadegroup"@[0] != "showfadegroup"@[0]);
        assert("hidefadegroup"@.len() != "hidefade"@.len());
    }
    if lower(name) == "togglefade"@ {
        assert("togglefade"@.len() != "setvariable"@.len());
        assert("togglefade"@.len() != "setoption"@.len());
        assert("togglefade"@.len() != "writekeyvalue"@.len());
        assert("togglefade"@.len() != "update"@.len());
        assert("togglefade"@.len() != "updatemeter"@.len());
        assert("togglefade"@.len() != "updatemeasure"@.len());
        assert("togglefade"@.len() != "redraw"@.len());
        assert("togglefade"@.len() != "showmeter"@.len());
        assert("togglefade"@.len() != "hidemeter"@.len());
        assert("togglefade"@.len() != "togglemeter"@.len());
        assert("togglefade"@.len() != "updatemetergroup"@.len());
        assert("togglefade"@.len() != "updatemeasuregroup"@.len());
        assert("togglefade"@.len() != "redrawgroup"@.len());
        assert("togglefade"@.len() != "showmetergroup"@.len());
        assert("togglefade"@.len() != "hidemetergroup"@.len());
        assert("togglefade"@.len() != "togglemetergroup"@.len());
        assert("togglefade"@.len() != "showfade"@.len());
        assert("togglefade"@.len() != "showfadegroup"@.len());
        assert("togglefade"@.len() != "hidefade"@.len());
        assert("togglefade"@.len() != "hidefadegroup"@.len());
    }
    if lower(name) == "togglefadegroup"@ {
        assert("togglefadegroup"@.len() != "setvariable"@.len());
        assert("togglefadegroup"@.len() != "setoption"@.len());
        assert("togglefadegroup"@.len() != "writekeyvalue"@.len());
        assert("togglefadegroup"@.len() != "update"@.len());
        assert("togglefadegroup"@.len() != "updatemeter"@.len());
        assert("togglefadegroup"@.len() != "updatemeasure"@.len());
        assert("togglefadegroup"@.len() != "redraw"@.len());
        assert("togglefadegroup"@.len() != "showmeter"@.len());
        assert("togglefadegroup"@.len() != "hidemeter"@.len());
        assert("togglefadegroup"@.len() != "togglemeter"@.len());
        assert("togglefadegroup"@.len() != "updatemetergroup"@.len());
        assert("togglefadegroup"@.len() != "updatemeasuregroup"@.len());
        assert("togglefadegroup"@.len() != "redrawgroup"@.len());
        assert("togglefadegroup"@.len() != "showmetergroup"@.len());
        assert("togglefadegroup"@.len() != "hidemetergroup"@.len());
        assert("togglefadegroup"@.len() != "togglemetergroup"@.len());
        assert("togglefadegroup"@.len() != "showfade"@.len());
        assert("togglefadegroup"@.len() != "showfadegroup"@.len());
        assert("togglefadegroup"@.len() != "hidefade"@.len());
        assert("togglefadegroup"@.len() != "hidefadegroup"@.len());
        assert("togglefadegroup"@.len() != "togglefade"@.len());
    }
    if lower(name) == "enablemeasure"@ {
        assert("enablemeasure"@.len() != "setvariable"@.len());
        assert("enablemeasure"@.len() != "setoption"@.len());
        assert("enablemeasure"@[0] != "writekeyvalue"@[0]);
        assert("enablemeasure"@.len() != "update"@.len());
        assert("enablemeasure"@.len() != "updatemeter"@.len());
        assert("enablemeasure"@[0] != "updatemeasure"@[0]);
        assert("enablemeasure"@.len() != "redraw"@.len());
        assert("enablemeasure"@.len() != "showmeter"@.len());
        assert("enablemeasure"@.len() != "hidemeter"@.len());
        assert("enablemeasure"@.len() != "togglemeter"@.len());
        assert("enablemeasure"@.len() != "updatemetergroup"@.len());
        assert("enablemeasure"@.len() != "updatemeasuregroup"@.len());
        assert("enablemeasure"@.len() != "redrawgroup"@.len());
        assert("enablemeasure"@.len() != "showmetergroup"@.len());
        assert("enablemeasure"@.len() != "hidemetergroup"@.len());
        assert("enablemeasure"@.len() != "togglemetergroup"@.len());
        assert("enablemeasure"@.len() != "showfade"@.len());
        assert("enablemeasure"@[0] != "showfadegroup"@[0]);
        assert("enablemeasure"@.len() != "hidefade"@.len());
        assert("enablemeasure"@[0] != "hidefadegroup"@[0]);
        assert("enablemeasure"@.len() != "togglefade"@.len());
        assert("enablemeasure"@.len() != "togglefadegroup"@.len());
    }
    if lower(name) == "disablemeasure"@ {
        assert("disablemeasure"@.len() != "setvariable"@.len());
        assert("disablemeasure"@.len() != "setoption"@.len());
        assert("disablemeasure"@.len() != "writekeyvalue"@.len());
        assert("disablemeasure"@.len() != "update"@.len());
        assert("disablemeasure"@.len() != "updatemeter"@.len());
        assert("disablemeasure"@.len() != "updatemeasure"@.len());
        assert("disablemeasure"@.len() != "redraw"@.len());
        assert("disablemeasure"@.len() != "showmeter"@.len());
        assert("disablemeasure"@.len() != "hidemeter"@.len());
        assert("disablemeasure"@.len() != "togglemeter"@.len());
        assert("disablemeasure"@.len() != "updatemetergroup"@.len());
        assert("disablemeasure"@.len() != "updatemeasuregroup"@.len());
        assert("disablemeasure"@.len() != "redrawgroup"@.len());
        assert("disablemeasure"@[0] != "showmetergroup"@[0]);
        assert("disablemeasure"@[0] != "hidemetergroup"@[0]);
        assert("disablemeasure"@.len() != "togglemetergroup"@.len());
        assert("disablemeasure"@.len() != "showfade"@.len());
        assert("disablemeasure"@.len() != "showfadegroup"@.len());
        assert("disablemeasure"@.len() != "hidefade"@.len());
        assert("disablemeasure"@.len() != "hidefadegroup"@.len());
        assert("disablemeasure"@.len() != "togglefade"@.len());
        assert("disablemeasure"@.len() != "togglefadegroup"@.len());
        assert("disablemeasure"@.len() != "enablemeasure"@.len());
    }
    if lower(name) == "togglemeasure"@ {
        assert("togglemeasure"@.len() != "setvariable"@.len());
        assert("togglemeasure"@.len() != "setoption"@.len());
        assert("togglemeasure"@[0] != "writekeyvalue"@[0]);
        assert("togglemeasure"@.len() != "update"@.len());
        assert("togglemeasure"@.len() != "updatemeter"@.len());
        assert("togglemeasure"@[0] != "updatemeasure"@[0]);
        assert("togglemeasure"@.len() != "redraw"@.len());
        assert("togglemeasure"@.len() != "showmeter"@.len());
        assert("togglemeasure"@.len() != "hidemeter"@.len());
        assert("togglemeasure"@.len() != "togglemeter"@.len());
        assert("togglemeasure"@.len() != "updatemetergroup"@.len());
        assert("togglemeasure"@.len() != "updatemeasuregroup"@.len());
        assert("togglemeasure"@.len() != "redrawgroup"@.len());
        assert("togglemeasure"@.len() != "showmetergroup"@.len());
        assert("togglemeasure"@.len() != "hidemetergroup"@.len());
        assert("togglemeasure"@.len() != "togglemetergroup"@.len());
        assert("togglemeasure"@.len() != "showfade"@.len());
        assert("togglemeasure"@[0] != "showfadegroup"@[0]);
        assert("togglemeasure"@.len() != "hidefade"@.len());
        assert("togglemeasure"@[0] != "hidefadegroup"@[0]);
        assert("togglemeasure"@.len() != "togglefade"@.len());
        assert("togglemeasure"@.len() != "togglefadegroup"@.len());
        assert("togglemeasure"@[0] != "enablemeasure"@[0]);
        assert("togglemeasure"@.len() != "disablemeasure"@.len());
    }
    if lower(name) == "pausemeasure"@ {
        assert("pausemeasure"@.len() != "setvariable"@.len());
        assert("pausemeasure"@.len() != "setoption"@.len());
        assert("pausemeasure"@.len() != "writekeyvalue"@.len());
        assert("pausemeasure"@.len() != "update"@.len());
        assert("pausemeasure"@.len() != "updatemeter"@.len());
        assert("pausemeasure"@.len() != "updatemeasure"@.len());
        assert("pausemeasure"@.len() != "redraw"@.len());
        assert("pausemeasure"@.len() != "showmeter"@.len());
        assert("pausemeasure"@.len() != "hidemeter"@.len());
        assert("pausemeasure"@.len() != "togglemeter"@.len());
        assert("pausemeasure"@.len() != "updatemetergroup"@.len());
        assert("pausemeasure"@.len() != "updatemeasuregroup"@.len());
        assert("pausemeasure"@.len() != "redrawgroup"@.len());
        assert("pausemeasure"@.len() != "showmetergroup"@.len());
        assert("pausemeasure"@.len() != "hidemetergroup"@.len());
        assert("pausemeasure"@.len() != "togglemetergroup"@.len());
        assert("pausemeasure"@.len() != "showfade"@.len());
        assert("pausemeasure"@.len() != "showfadegroup"@.len());
        assert("pausemeasure"@.len() != "hidefade"@.len());
        assert("pausemeasure"@.len() != "hidefadegroup"@.len());
        assert("pausemeasure"@.len() != "togglefade"@.len());
        assert("pausemeasure"@.len() != "togglefadegroup"@.len());
        assert("pausemeasure"@.len() != "enablemeasure"@.len());
        assert("pausemeasure"@.len() != "disablemeasure"@.len());
        assert("pausemeasure"@.len() != "togglemeasure"@.len());
    }
    if lower(name) == "unpausemeasure"@ {
        assert("unpausemeasure"@.len() != "setvariable"@.len());
        assert("unpausemeasure"@.len() != "setoption"@.len());
        assert("unpausemeasure"@.len() != "writekeyvalue"@.len());
        assert("unpausemeasure"@.len() != "update"@.len());
        assert("unpausemeasure"@.len() != "updatemeter"@.len());
        assert("unpausemeasure"@.len() != "updatemeasure"@.len());
        assert("unpausemeasure"@.len() != "redraw"@.len());
        assert("unpausemeasure"@.len() != "showmeter"@.len());
        assert("unpausemeasure"@.len() != "hidemeter"@.len());
        assert("unpausemeasure"@.len() != "togglemeter"@.len());
        assert("unpausemeasure"@.len() != "updatemetergroup"@.len());
        assert("unpausemeasure"@.len() != "updatemeasuregroup"@.len());
        assert("unpausemeasure"@.len() != "redrawgroup"@.len());
        assert("unpausemeasure"@[0] != "showmetergroup"@[0]);
        assert("unpausemeasure"@[0] != "hidemetergroup"@[0]);
        assert("unpausemeasure"@.len() != "togglemetergroup"@.len());
        assert("unpausemeasure"@.len() != "showfade"@.len());
        assert("unpausemeasure"@.len() != "showfadegroup"@.len());
        assert("unpausemeasure"@.len() != "hidefade"@.len());
        assert("unpausemeasure"@.len() != "hidefadegroup"@.len());
        assert("unpausemeasure"@.len() != "togglefade"@.len());
        assert("unpausemeasure"@.len() != "togglefadegroup"@.len());
        assert("unpausemeasure"@.len() != "enablemeasure"@.len());
        assert("unpausemeasure"@[0] != "disablemeasure"@[0]);
        assert("unpausemeasure"@.len() != "togglemeasure"@.len());
        assert("unpausemeasure"@.len() != "pausemeasure"@.len());
    }
    if lower(name) == "togglepausemeasure"@ {
        assert("togglepausemeasure"@.len() != "setvariable"@.len());
        assert("togglepausemeasure"@.len() != "setoption"@.len());
        assert("togglepausemeasure"@.len() != "writekeyvalue"@.len());
        assert("togglepausemeasure"@.len() != "update"@.len());
        assert("togglepausemeasure"@.len() != "updatemeter"@.len());
        assert("togglepausemeasure"@.len() != "updatemeasure"@.len());
        assert("togglepausemeasure"@.len() != "redraw"@.len());
        assert("togglepausemeasure"@.len() != "showmeter"@.len());
        assert("togglepausemeasure"@.len() != "hidemeter"@.len());
        assert("togglepausemeasure"@.len() != "togglemeter"@.len());
        assert("togglepausemeasure"@.len() != "updatemetergroup"@.len());
        assert("togglepausemeasure"@[0] != "updatemeasuregroup"@[0]);
        assert("togglepausemeasure"@.len() != "redrawgroup"@.len());
        assert("togglepausemeasure"@.len() != "showmetergroup"@.len());
        assert("togglepausemeasure"@.len() != "hidemetergroup"@.len());
        assert("togglepausemeasure"@.len() != "togglemetergroup"@.len());
        assert("togglepausemeasure"@.len() != "showfade"@.len());
        assert("togglepausemeasure"@.len() != "showfadegroup"@.len());
        assert("togglepausemeasure"@.len() != "hidefade"@.len());
        assert("togglepausemeasure"@.len() != "hidefadegroup"@.len());
        assert("togglepausemeasure"@.len() != "togglefade"@.len());
        assert("togglepausemeasure"@.len() != "togglefadegroup"@.len());
        assert("togglepausemeasure"@.len() != "enablemeasure"@.len());
        assert("togglepausemeasure"@.len() != "disablemeasure"@.len());
        assert("togglepausemeasure"@.len() != "togglemeasure"@.len());
        assert("togglepausemeasure"@.len() != "pausemeasure"@.len());
        assert("togglepausemeasure"@.len() != "unpausemeasure"@.len());
    }
}

/// Law: the config and message bangs name their variant: `!ActivateConfig c`, `!DeactivateConfig c`, `!ToggleConfig c` and `!Refresh c` act on the config `c`, `!RefreshGroup g` on the group `g`, `!RefreshApp` on the application; `!Log w` and `!LogMessage w` log `w`, `!Execute w` runs `w`, and `!SetVariable v` sets `v` to the empty value.
pub proof fn law_config_bangs(name: Seq<char>, a: Seq<char>)
    requires
        plain_word(name),
        plain_word(a),
    ensures
        lower(name) == "setvariable"@ ==> single_bang(bang_line(name, a)) == Some(BangView::SetVariable { name: a, value: seq![], config: None }),
        lower(name) == "activateconfig"@ ==> single_bang(bang_line(name, a)) == Some(BangView::ActivateConfig { config: a, file: None }),
        lower(name) == "deactivateconfig"@ ==> single_bang(bang_line(name, a)) == Some(BangView::DeactivateConfig { config: Some(a) }),
        lower(name) == "toggleconfig"@ ==> single_bang(bang_line(name, a)) == Some(BangView::ToggleConfig { config: a, file: None }),
        lower(name) == "refresh"@ ==> single_bang(bang_line(name, a)) == Some(BangView::Refresh { config: Some(a) }),
        lower(name) == "refreshgroup"@ ==> single_bang(bang_line(name, a)) == Some(BangView::RefreshGroup { group: a }),
        lower(name) == "refreshapp"@ ==> single_bang(bang_line(name, a)) == Some(BangView::RefreshApp),
        lower(name) == "log"@ ==> single_bang(bang_line(name, a)) == Some(BangView::Log { message: a }),
        lower(name) == "logmessage"@ ==> single_bang(bang_line(name, a)) == Some(BangView::Log { message: a }),
        lower(name) == "execute"@ ==> single_bang(bang_line(name, a)) == Some(BangView::Execute(a)),
{
    lemma_bang_line(name, a, a);
    reveal_strlit("setvariable");
    reveal_strlit("setoption");
    reveal_strlit("writekeyvalue");
    reveal_strlit("update");
    reveal_strlit("updatemeter");
    reveal_strlit("updatemeasure");
    reveal_strlit("redraw");
    reveal_strlit("showmeter");
    reveal_strlit("hidemeter");
    reveal_strlit("togglemeter");
    reveal_strlit("updatemetergroup");
    reveal_strlit("updatemeasuregroup");
    reveal_strlit("redrawgroup");
    reveal_strlit("showmetergroup");
    reveal_strlit("hidemetergroup");
    reveal_strlit("togglemetergroup");
    reveal_strlit("showfade");
    reveal_strlit("showfadegroup");
    reveal_strlit("hidefade");
    reveal_strlit("hidefadegroup");
    reveal_strlit("togglefade");
    reveal_strlit("togglefadegroup");
    reveal_strlit("enablemeasure");
    reveal_strlit("disablemeasure");
    reveal_strlit("togglemeasure");
    reveal_strlit("pausemeasure");
    reveal_strlit("unpausemeasure");
    reveal_strlit("togglepausemeasure");
    reveal_strlit("activateconfig");
    reveal_strlit("deactivateconfig");
    reveal_strlit("toggleconfig");
    reveal_strlit("refresh");
    reveal_strlit("refreshgroup");
    reveal_strlit("refreshapp");
    reveal_strlit("log");
    reveal_strlit("logmessage");
    reveal_strlit("commandmeasure");
    reveal_strlit("execute");
    if lower(name) == "activateconfig"@ {
        assert("activateconfig"@.len() != "setvariable"@.len());
        assert("activateconfig"@.len() != "setoption"@.len());
        assert("activateconfig"@.len() != "writekeyvalue"@.len());
        assert("activateconfig"@.len() != "update"@.len());
        assert("activateconfig"@.len() != "updatemeter"@.len());
        assert("activateconfig"@.len() != "updatemeasure"@.len());
        assert("activateconfig"@.len() != "redraw"@.len());
        assert("activateconfig"@.len() != "showmeter"@.len());
        assert("activateconfig"@.len() != "hidemeter"@.len());
        assert("activateconfig"@.len() != "togglemeter"@.len());
        assert("activateconfig"@.len() != "updatemetergroup"@.len());
        assert("activateconfig"@.len() != "updatemeasuregroup"@.len());
        assert("activateconfig"@.len() != "redrawgroup"@.len());
        assert("activateconfig"@[0] != "showmetergroup"@[0]);
        assert("activateconfig"@[0] != "hidemetergroup"@[0]);
        assert("activateconfig"@.len() != "togglemetergroup"@.len());
        assert("activateconfig"@.len() != "showfade"@.len());
        assert("activateconfig"@.len() != "showfadegroup"@.len());
        assert("activateconfig"@.len() != "hidefade"@.len());
        assert("activateconfig"@.len() != "hidefadegroup"@.len());
        assert("activateconfig"@.len() != "togglefade"@.len());
        assert("activateconfig"@.len() != "togglefadegroup"@.len());
        assert("activateconfig"@.len() != "enablemeasure"@.len());
        assert("activateconfig"@[0] != "disablemeasure"@[0]);
        assert("activateconfig"@.len() != "togglemeasure"@.len());
        assert("activateconfig"@.len() != "pausemeasure"@.len());
        assert("activateconfig"@[0] != "unpausemeasure"@[0]);
        assert("activateconfig"@.len() != "togglepausemeasure"@.len());
    }
    if lower(name) == "deactivateconfig"@ {
        assert("deactivateconfig"@.len() != "setvariable"@.len());
        assert("deactivateconfig"@.len() != "setoption"@.len());
        assert("deactivateconfig"@.len() != "writekeyvalue"@.len());
        assert("deactivateconfig"@.len() != "update"@.len());
        assert("deactivateconfig"@.len() != "updatemeter"@.len());
        assert("deactivateconfig"@.len() != "updatemeasure"@.len());
        assert("deactivateconfig"@.len() != "redraw"@.len());
        assert("deactivateconfig"@.len() != "showmeter"@.len());
        assert("deactivateconfig"@.len() != "hidemeter"@.len());
        assert("deactivateconfig"@.len() != "togglemeter"@.len());
        assert("deactivateconfig"@[0] != "updatemetergroup"@[0]);
        assert("deactivateconfig"@.len() != "updatemeasuregroup"@.len());
        assert("deactivateconfig"@.len() != "redrawgroup"@.len());
        assert("deactivateconfig"@.len() != "showmetergroup"@.len());
        assert("deactivateconfig"@.len() != "hidemetergroup"@.len());
        assert("deactivateconfig"@[0] != "togglemetergroup"@[0]);
        assert("deactivateconfig"@.len() != "showfade"@.len());
        assert("deactivateconfig"@.len() != "showfadegroup"@.len());
        assert("deactivateconfig"@.len() != "hidefade"@.len());
        assert("deactivateconfig"@.len() != "hidefadegroup"@.len());
        assert("deactivateconfig"@.len() != "togglefade"@.len());
        assert("deactivateconfig"@.len() != "togglefadegroup"@.len());
        assert("deactivateconfig"@.len() != "enablemeasure"@.len());
        assert("deactivateconfig"@.len() != "disablemeasure"@.len());
        assert("deactivateconfig"@.len() != "togglemeasure"@.len());
        assert("deactivateconfig"@.len() != "pausemeasure"@.len());
        assert("deactivateconfig"@.len() != "unpausemeasure"@.len());
        assert("deactivateconfig"@.len() != "togglepausemeasure"@.len());
        assert("deactivateconfig"@.len() != "activateconfig"@.len());
    }
    if lower(name) == "toggleconfig"@ {
        assert("toggleconfig"@.len() != "setvariable"@.len());
        assert("toggleconfig"@.len() != "setoption"@.len());
        assert("toggleconfig"@.len() != "writekeyvalue"@.len());
        assert("toggleconfig"@.len() != "update"@.len());
        assert("toggleconfig"@.len() != "updatemeter"@.len());
        assert("toggleconfig"@.len() != "updatemeasure"@.len());
        assert("toggleconfig"@.len() != "redraw"@.len());
        assert("toggleconfig"@.len() != "showmeter"@.len());
        assert("toggleconfig"@.len() != "hidemeter"@.len());
        assert("toggleconfig"@.len() != "togglemeter"@.len());
        assert("toggleconfig"@.len() != "updatemetergroup"@.len());
        assert("toggleconfig"@.len() != "updatemeasuregroup"@.len());
        assert("toggleconfig"@.len() != "redrawgroup"@.len());
        assert("toggleconfig"@.len() != "showmetergroup"@.len());
        assert("toggleconfig"@.len() != "hidemetergroup"@.len());
        assert("toggleconfig"@.len() != "togglemetergroup"@.len());
        assert("toggleconfig"@.len() != "showfade"@.len());
        assert("toggleconfig"@.len() != "showfadegroup"@.len());
        assert("toggleconfig"@.len() != "hidefade"@.len());
        assert("toggleconfig"@.len() != "hidefadegroup"@.len());
        assert("toggleconfig"@.len() != "togglefade"@.len());
        assert("toggleconfig"@.len() != "togglefadegroup"@.len());
        assert("toggleconfig"@.len() != "enablemeasure"@.len());
        assert("toggleconfig"@.len() != "disablemeasure"@.len());
        assert("toggleconfig"@.len() != "togglemeasure"@.len());
        assert("toggleconfig"@[0] != "pausemeasure"@[0]);
        assert("toggleconfig"@.len() != "unpausemeasure"@.len());
        assert("toggleconfig"@.len() != "togglepausemeasure"@.len());
        assert("toggleconfig"@.len() != "activateconfig"@.len());
        assert("toggleconfig"@.len() != "deactivateconfig"@.len());
    }
    if lower(name) == "refresh"@ {
        assert("refresh"@.len() != "setvariable"@.len());
        assert("refresh"@.len() != "setoption"@.len());
        assert("refresh"@.len() != "writekeyvalue"@.len());
        assert("refresh"@.len() != "update"@.len());
        assert("refresh"@.len() != "updatemeter"@.len());
        assert("refresh"@.len() != "updatemeasure"@.len());
        assert("refresh"@.len() != "redraw"@.len());
        assert("refresh"@.len() != "showmeter"@.len());
        assert("refresh"@.len() != "hidemeter"@.len());
        assert("refresh"@.len() != "togglemeter"@.len());
        assert("refresh"@.len() != "updatemetergroup"@.len());
        assert("refresh"@.len() != "updatemeasuregroup"@.len());
        assert("refresh"@.len() != "redrawgroup"@.len());
        assert("refresh"@.len() != "showmetergroup"@.len());
        assert("refresh"@.len() != "hidemetergroup"@.len());
        assert("refresh"@.len() != "togglemetergroup"@.len());
        assert("refresh"@.len() != "showfade"@.len());
        assert("refresh"@.len() != "showfadegroup"@.len());
        assert("refresh"@.len() != "hidefade"@.len());
        assert("refresh"@.len() != "hidefadegroup"@.len());
        assert("refresh"@.len() != "togglefade"@.len());
        assert("refresh"@.len() != "togglefadegroup"@.len());
        assert("refresh"@.len() != "enablemeasure"@.len());
        assert("refresh"@.len() != "disablemeasure"@.len());
        assert("refresh"@.len() != "togglemeasure"@.len());
        assert("refresh"@.len() != "pausemeasure"@.len());
        assert("refresh"@.len() != "unpausemeasure"@.len());
        assert("refresh"@.len() != "togglepausemeasure"@.len());
        assert("refresh"@.len() != "activateconfig"@.len());
        assert("refresh"@.len() != "deactivateconfig"@.len());
        assert("refresh"@.len() != "toggleconfig"@.len());
    }
    if lower(name) == "refreshgroup"@ {
        assert("refreshgroup"@.len() != "setvariable"@.len());
        assert("refreshgroup"@.len() != "setoption"@.len());
        assert("refreshgroup"@.len() != "writekeyvalue"@.len());
        assert("refreshgroup"@.len() != "update"@.len());
        assert("refreshgroup"@.len() != "updatemeter"@.len());
        assert("refreshgroup"@.len() != "updatemeasure"@.len());
        assert("refreshgroup"@.len() != "redraw"@.len());
        assert("refreshgroup"@.len() != "showmeter"@.len());
        assert("refreshgroup"@.len() != "hidemeter"@.len());
        assert("refreshgroup"@.len() != "togglemeter"@.len());
        assert("refreshgroup"@.len() != "updatemetergroup"@.len());
        assert("refreshgroup"@.len() != "updatemeasuregroup"@.len());
        assert("refreshgroup"@.len() != "redrawgroup"@.len());
        assert("refreshgroup"@.len() != "showmetergroup"@.len());
        assert("refreshgroup"@.len() != "hidemetergroup"@.len());
        assert("refreshgroup"@.len() != "togglemetergroup"@.len());
        assert("refreshgroup"@.len() != "showfade"@.len());
        assert("refreshgroup"@.len() != "showfadegroup"@.len());
        assert("refreshgroup"@.len() != "hidefade"@.len());
        assert("refreshgroup"@.len() != "hidefadegroup"@.len());
        assert("refreshgroup"@.len() != "togglefade"@.len());
        assert("refreshgroup"@.len() != "togglefadegroup"@.len());
        assert("refreshgroup"@.len() != "enablemeasure"@.len());
        assert("refreshgroup"@.len() != "disablemeasure"@.len());
        assert("refreshgroup"@.len() != "togglemeasure"@.len());
        assert("refreshgroup"@[0] != "pausemeasure"@[0]);
        assert("refreshgroup"@.len() != "unpausemeasure"@.len());
        assert("refreshgroup"@.len() != "togglepausemeasure"@.len());
        assert("refreshgroup"@.len() != "activateconfig"@.len());
        assert("refreshgroup"@.len() != "deactivateconfig"@.len());
        assert("refreshgroup"@[0] != "toggleconfig"@[0]);
        assert("refreshgroup"@.len() != "refresh"@.len());
    }
    if lower(name) == "refreshapp"@ {
        assert("refreshapp"@.len() != "setvariable"@.len());
        assert("refreshapp"@.len() != "setoption"@.len());
        assert("refreshapp"@.len() != "writekeyvalue"@.len());
        assert("refreshapp"@.len() != "update"@.len());
        assert("refreshapp"@.len() != "updatemeter"@.len());
        assert("refreshapp"@.len() != "updatemeasure"@.len());
        assert("refreshapp"@.len() != "redraw"@.len());
        assert("refreshapp"@.len() != "showmeter"@.len());
        assert("refreshapp"@.len() != "hidemeter"@.len());
        assert("refreshapp"@.len() != "togglemeter"@.len());
        assert("refreshapp"@.len() != "updatemetergroup"@.len());
        assert("refreshapp"@.len() != "updatemeasuregroup"@.len());
        assert("refreshapp"@.len() != "redrawgroup"@.len());
        assert("refreshapp"@.len() != "showmetergroup"@.len());
        assert("refreshapp"@.len() != "hidemetergroup"@.len());
        assert("refreshapp"@.len() != "togglemetergroup"@.len());
        assert("refreshapp"@.len() != "showfade"@.len());
        assert("refreshapp"@.len() != "showfadegroup"@.len());
        assert("refreshapp"@.len() != "hidefade"@.len());
        assert("refreshapp"@.len() != "hidefadegroup"@.len());
        assert("refreshapp"@[0] != "togglefade"@[0]);
        assert("refreshapp"@.len() != "togglefadegroup"@.len());
        assert("refreshapp"@.len() != "enablemeasure"@.len());
        assert("refreshapp"@.len() != "disablemeasure"@.len());
        assert("refreshapp"@.len() != "togglemeasure"@.len());
        assert("refreshapp"@.len() != "pausemeasure"@.len());
        assert("refreshapp"@.len() != "unpausemeasure"@.len());
        assert("refreshapp"@.len() != "togglepausemeasure"@.len());
        assert("refreshapp"@.len() != "activateconfig"@.len());
        assert("refreshapp"@.len() != "deactivateconfig"@.len());
        assert("refreshapp"@.len() != "toggleconfig"@.len());
        assert("refreshapp"@.len() != "refresh"@.len());
        assert("refreshapp"@.len() != "refreshgroup"@.len());
    }
    if lower(name) == "log"@ {
        assert("log"@.len() != "setvariable"@.len());
        assert("log"@.len() != "setoption"@.len());
        assert("log"@.len() != "writekeyvalue"@.len());
        assert("log"@.len() != "update"@.len());
        assert("log"@.len() != "updatemeter"@.len());
        assert("log"@.len() != "updatemeasure"@.len());
        assert("log"@.len() != "redraw"@.len());
        assert("log"@.len() != "showmeter"@.len());
        assert("log"@.len() != "hidemeter"@.len());
        assert("log"@.len() != "togglemeter"@.len());
        assert("log"@.len() != "updatemetergroup"@.len());
        assert("log"@.len() != "updatemeasuregroup"@.len());
        assert("log"@.len() != "redrawgroup"@.len());
        assert("log"@.len() != "showmetergroup"@.len());
        assert("log"@.len() != "hidemetergroup"@.len());
        assert("log"@.len() != "togglemetergroup"@.len());
        assert("log"@.len() != "showfade"@.len());
        assert("log"@.len() != "showfadegroup"@.len());
        assert("log"@.len() != "hidefade"@.len());
        assert("log"@.len() != "hidefadegroup"@.len());
        assert("log"@.len() != "togglefade"@.len());
        assert("log"@.len() != "togglefadegroup"@.len());
        assert("log"@.len() != "enablemeasure"@.len());
        assert("log"@.len() != "disablemeasure"@.len());
        assert("log"@.len() != "togglemeasure"@.len());
        assert("log"@.len() != "pausemeasure"@.len());
        assert("log"@.len() != "unpausemeasure"@.len());
        assert("log"@.len() != "togglepausemeasure"@.len());
        assert("log"@.len() != "activateconfig"@.len());
        assert("log"@.len() != "deactivateconfig"@.len());
        assert("log"@.len() != "toggleconfig"@.len());
        assert("log"@.len() != "refresh"@.len());
        assert("log"@.len() != "refreshgroup"@.len());
        assert("log"@.len() != "refreshapp"@.len());
        assert(join(seq![a], " "@) == a);
    }
    if lower(name) == "logmessage"@ {
        assert("logmessage"@.len() != "setvariable"@.len());
        assert("logmessage"@.len() != "setoption"@.len());
        assert("logmessage"@.len() != "writekeyvalue"@.len());
        assert("logmessage"@.len() != "update"@.len());
        assert("logmessage"@.len() != "updatemeter"@.len());
        assert("logmessage"@.len() != "updatemeasure"@.len());
        assert("logmessage"@.len() != "redraw"@.len());
        assert("logmessage"@.len() != "showmeter"@.len());
        assert("logmessage"@.len() != "hidemeter"@.len());
        assert("logmessage"@.len() != "togglemeter"@.len());
        assert("logmessage"@.len() != "updatemetergroup"@.len());
        assert("logmessage"@.len() != "updatemeasuregroup"@.len());
        assert("logmessage"@.len() != "redrawgroup"@.len());
        assert("logmessage"@.len() != "showmetergroup"@.len());
        assert("logmessage"@.len() != "hidemetergroup"@.len());
        assert("logmessage"@.len() != "togglemetergroup"@.len());
        assert("logmessage"@.len() != "showfade"@.len());
        assert("logmessage"@.len() != "showfadegroup"@.len());
        assert("logmessage"@.len() != "hidefade"@.len());
        assert("logmessage"@.len() != "hidefadegroup"@.len());
        assert("logmessage"@[0] != "togglefade"@[0]);
        assert("logmessage"@.len() != "togglefadegroup"@.len());
        assert("logmessage"@.len() != "enablemeasure"@.len());
        assert("logmessage"@.len() != "disablemeasure"@.len());
        assert("logmessage"@.len() != "togglemeasure"@.len());
        assert("logmessage"@.len() != "pausemeasure"@.len());
        assert("logmessage"@.len() != "unpausemeasure"@.len());
        assert("logmessage"@.len() != "togglepausemeasure"@.len());
        assert("logmessage"@.len() != "activateconfig"@.len());
        assert("logmessage"@.len() != "deactivateconfig"@.len());
        assert("logmessage"@.len() != "toggleconfig"@.len());
        assert("logmessage"@.len() != "refresh"@.len());
        assert("logmessage"@.len() != "refreshgroup"@.len());
        assert("logmessage"@[0] != "refreshapp"@[0]);
        assert("logmessage"@.len() != "log"@.len());
        assert(join(seq![a], " "@) == a);
    }
    if lower(name) == "execute"@ {
        assert("execute"@.len() != "setvariable"@.len());
        assert("execute"@.len() != "setoption"@.len());
        assert("execute"@.len() != "writekeyvalue"@.len());
        assert("execute"@.len() != "update"@.len());
        assert("execute"@.len() != "updatemeter"@.len());
        assert("execute"@.len() != "updatemeasure"@.len());
        assert("execute"@.len() != "redraw"@.len());
        assert("execute"@.len() != "showmeter"@.len());
        assert("execute"@.len() != "hidemeter"@.len());
        assert("execute"@.len() != "togglemeter"@.len());
        assert("execute"@.len() != "updatemetergroup"@.len());
        assert("execute"@.len() != "updatemeasuregroup"@.len());
        assert("execute"@.len() != "redrawgroup"@.len());
        assert("execute"@.len() != "showmetergroup"@.len());
        assert("execute"@.len() != "hidemetergroup"@.len());
        assert("execute"@.len() != "togglemetergroup"@.len());
        assert("execute"@.len() != "showfade"@.len());
        assert("execute"@.len() != "showfadegroup"@.len());
        assert("execute"@.len() != "hidefade"@.len());
        assert("execute"@.len() != "hidefadegroup"@.len());
        assert("execute"@.len() != "togglefade"@.len());
        assert("execute"@.len() != "togglefadegroup"@.len());
        assert("execute"@.len() != "enablemeasure"@.len());
        assert("execute"@.len() != "disablemeasure"@.len());
        assert("execute"@.len() != "togglemeasure"@.len());
        assert("execute"@.len() != "pausemeasure"@.len());
        assert("execute"@.len() != "unpausemeasure"@.len());
        assert("execute"@.len() != "togglepausemeasure"@.len());
        assert("execute"@.len() != "activateconfig"@.len());
        assert("execute"@.len() != "deactivateconfig"@.len());
        assert("execute"@.len() != "toggleconfig"@.len());
        assert("execute"@[0] != "refresh"@[0]);
        assert("execute"@.len() != "refreshgroup"@.len());
        assert("execute"@.len() != "refreshapp"@.len());
        assert("execute"@.len() != "log"@.len());
        assert("execute"@.len() != "logmessage"@.len());
        assert("execute"@.len() != "commandmeasure"@.len());
        assert(join(seq![a], " "@) == a);
    }
}

/// Law: the bangs of two arguments name their variant: `!SetVariable v x` sets `v` to `x`, `!SetOption s k` and `!WriteKeyValue s k` address the key `k` of section `s` (with an empty value), and `!CommandMeasure m c` sends `c` to the measure `m`.
pub proof fn law_two_argument_bangs(name: Seq<char>, a: Seq<char>, b: Seq<char>)
    requires
        plain_word(name),
        plain_word(a),
        plain_word(b),
    ensures
        lower(name) == "setvariable"@ ==> single_bang(bang_line2(name, a, b)) == Some(BangView::SetVariable { name: a, value: b, config: None }),
        lower(name) == "setoption"@ ==> single_bang(bang_line2(name, a, b)) == Some(BangView::SetOption { section: a, key: b, value: seq![], config: None }),
        lower(name) == "writekeyvalue"@ ==> single_bang(bang_line2(name, a, b)) == Some(BangView::WriteKeyValue { section: a, key: b, value: seq![], file: None }),
        lower(name) == "commandmeasure"@ ==> single_bang(bang_line2(name, a, b)) == Some(BangView::CommandMeasure { measure: a, command: b, config: None }),
{
    lemma_bang_line(name, a, b);
    reveal_strlit("setvariable");
    reveal_strlit("setoption");
    reveal_strlit("writekeyvalue");
    reveal_strlit("update");
    reveal_strlit("updatemeter");
    reveal_strlit("updatemeasure");
    reveal_strlit("redraw");
    reveal_strlit("showmeter");
    reveal_strlit("hidemeter");
    reveal_strlit("togglemeter");
    reveal_strlit("updatemetergroup");
    reveal_strlit("updatemeasuregroup");
    reveal_strlit("redrawgroup");
    reveal_strlit("showmetergroup");
    reveal_strlit("hidemetergroup");
    reveal_strlit("togglemetergroup");
    reveal_strlit("showfade");
    reveal_strlit("showfadegroup");
    reveal_strlit("hidefade");
    reveal_strlit("hidefadegroup");
    reveal_strlit("togglefade");
    reveal_strlit("togglefadegroup");
    reveal_strlit("enablemeasure");
    reveal_strlit("disablemeasure");
    reveal_strlit("togglemeasure");
    reveal_strlit("pausemeasure");
    reveal_strlit("unpausemeasure");
    reveal_strlit("togglepausemeasure");
    reveal_strlit("activateconfig");
    reveal_strlit("deactivateconfig");
    reveal_strlit("toggleconfig");
    reveal_strlit("refresh");
    reveal_strlit("refreshgroup");
    reveal_strlit("refreshapp");
    reveal_strlit("log");
    reveal_strlit("logmessage");
    reveal_strlit("commandmeasure");
    reveal_strlit("execute");
    if lower(name) == "setoption"@ {
        assert("setoption"@.len() != "setvariable"@.len());
    }
    if lower(name) == "writekeyvalue"@ {
        assert("writekeyvalue"@.len() != "setvariable"@.len());
        assert("writekeyvalue"@.len() != "setoption"@.len());
    }
    if lower(name) == "commandmeasure"@ {
        assert("commandmeasure"@.len() != "setvariable"@.len());
        assert("commandmeasure"@.len() != "setoption"@.len());
        assert("commandmeasure"@.len() != "writekeyvalue"@.len());
        assert("commandmeasure"@.len() != "update"@.len());
        assert("commandmeasure"@.len() != "updatemeter"@.len());
        assert("commandmeasure"@.len() != "updatemeasure"@.len());
        assert("commandmeasure"@.len() != "redraw"@.len());
        assert("commandmeasure"@.len() != "showmeter"@.len());
        assert("commandmeasure"@.len() != "hidemeter"@.len());
        assert("commandmeasure"@.len() != "togglemeter"@.len());
        assert("commandmeasure"@.len() != "updatemetergroup"@.len());
        assert("commandmeasure"@.len() != "updatemeasuregroup"@.len());
        assert("commandmeasure"@.len() != "redrawgroup"@.len());
        assert("commandmeasure"@[0] != "showmetergroup"@[0]);
        assert("commandmeasure"@[0] != "hidemetergroup"@[0]);
        assert("commandmeasure"@.len() != "togglemetergroup"@.len());
        assert("commandmeasure"@.len() != "showfade"@.len());
        assert("commandmeasure"@.len() != "showfadegroup"@.len());
        assert("commandmeasure"@.len() != "hidefade"@.len());
        assert("commandmeasure"@.len() != "hidefadegroup"@.len());
        assert("commandmeasure"@.len() != "togglefade"@.len());
        assert("commandmeasure"@.len() != "togglefadegroup"@.len());
        assert("commandmeasure"@.len() != "enablemeasure"@.len());
        assert("commandmeasure"@[0] != "disablemeasure"@[0]);
        assert("commandmeasure"@.len() != "togglemeasure"@.len());
        assert("commandmeasure"@.len() != "pausemeasure"@.len());
        assert("commandmeasure"@[0] != "unpausemeasure"@[0]);
        assert("commandmeasure"@.len() != "togglepausemeasure"@.len());
        assert("commandmeasure"@[0] != "activateconfig"@[0]);
        assert("commandmeasure"@.len() != "deactivateconfig"@.len());
        assert("commandmeasure"@.len() != "toggleconfig"@.len());
        assert("commandmeasure"@.len() != "refresh"@.len());
        assert("commandmeasure"@.len() != "refreshgroup"@.len());
        assert("commandmeasure"@.len() != "refreshapp"@.len());
        assert("commandmeasure"@.len() != "log"@.len());
        assert("commandmeasure"@.len() != "logmessage"@.len());
    }
}

/// Law: a second argument of a meter, group, measure, fade or config bang is the config (or, for `!ActivateConfig` and `!ToggleConfig`, the file) it applies to.
pub proof fn law_bangs_take_a_config(name: Seq<char>, a: Seq<char>, b: Seq<char>)
    requires
        plain_word(name),
        plain_word(a),
        plain_word(b),
    ensures
        lower(name) == "updatemeter"@ ==> single_bang(bang_line2(name, a, b)) == Some(BangView::UpdateMeter { name: a, config: Some(b) }),
        lower(name) == "updatemeasure"@ ==> single_bang(bang_line2(name, a, b)) == Some(BangView::UpdateMeasure { name: a, config: Some(b) }),
        lower(name) == "showmeter"@ ==> single_bang(bang_line2(name, a, b)) == Some(BangView::ShowMeter { name: a, config: Some(b) }),
        lower(name) == "hidemeter"@ ==> single_bang(bang_line2(name, a, b)) == Some(BangView::HideMeter { name: a, config: Some(b) }),
        lower(name) == "togglemeter"@ ==> single_bang(bang_line2(name, a, b)) == Some(BangView::ToggleMeter { name: a, config: Some(b) }),
        lower(name) == "updatemetergroup"@ ==> single_bang(bang_line2(name, a, b)) == Some(BangView::UpdateMeterGroup { group: a, config: Some(b) }),
        lower(name) == "updatemeasuregroup"@ ==> single_bang(bang_line2(name, a, b)) == Some(BangView::UpdateMeasureGroup { group: a, config: Some(b) }),
        lower(name) == "redrawgroup"@ ==> single_bang(bang_line2(name, a, b)) == Some(BangView::RedrawGroup { group: a, config: Some(b) }),
        lower(name) == "showmetergroup"@ ==> single_bang(bang_line2(name, a, b)) == Some(BangView::ShowMeterGroup { group: a, config: Some(b) }),
        lower(name) == "hidemetergroup"@ ==> single_bang(bang_line2(name, a, b)) == Some(BangView::HideMeterGroup { group: a, config: Some(b) }),
        lower(name) == "togglemetergroup"@ ==> single_bang(bang_line2(name, a, b)) == Some(BangView::ToggleMeterGroup { group: a, config: Some(b) }),
        lower(name) == "showfade"@ ==> single_bang(bang_line2(name, a, b)) == Some(BangView::ShowFade { name: a, config: Some(b) }),
        lower(name) == "showfadegroup"@ ==> single_bang(bang_line2(name, a, b)) == Some(BangView::ShowFade { name: a, config: Some(b) }),
        lower(name) == "hidefade"@ ==> single_bang(bang_line2(name, a, b)) == Some(BangView::HideFade { name: a, config: Some(b) }),
        lower(name) == "hidefadegroup"@ ==> single_bang(bang_line2(name, a, b)) == Some(BangView::HideFade { name: a, config: Some(b) }),
        lower(name) == "togglefade"@ ==> single_bang(bang_line2(name, a, b)) == Some(BangView::ToggleFade { name: a, config: Some(b) }),
        lower(name) == "togglefadegroup"@ ==> single_bang(bang_line2(name, a, b)) == Some(BangView::ToggleFade { name: a, config: Some(b) }),
        lower(name) == "enablemeasure"@ ==> single_bang(bang_line2(name, a, b)) == Some(BangView::EnableMeasure { name: a, config: Some(b) }),
        lower(name) == "disablemeasure"@ ==> single_bang(bang_line2(name, a, b)) == Some(BangView::DisableMeasure { name: a, config: Some(b) }),
        lower(name) == "togglemeasure"@ ==> single_bang(bang_line2(name, a, b)) == Some(BangView::ToggleMeasure { name: a, config: Some(b) }),
        lower(name) == "pausemeasure"@ ==> single_bang(bang_line2(name, a, b)) == Some(BangView::PauseMeasure { name: a, config: Some(b) }),
        lower(name) == "unpausemeasure"@ ==> single_bang(bang_line2(name, a, b)) == Some(BangView::UnpauseMeasure { name: a, config: Some(b) }),
        lower(name) == "togglepausemeasure"@ ==> single_bang(bang_line2(name, a, b)) == Some(BangView::TogglePauseMeasure { name: a, config: Some(b) }),
        lower(name) == "activateconfig"@ ==> single_bang(bang_line2(name, a, b)) == Some(BangView::ActivateConfig { config: a, file: Some(b) }),
        lower(name) == "toggleconfig"@ ==> single_bang(bang_line2(name, a, b)) == Some(BangView::ToggleConfig { config: a, file: Some(b) }),
{
    lemma_bang_line(name, a, b);
    reveal_strlit("setvariable");
    reveal_strlit("setoption");
    reveal_strlit("writekeyvalue");
    reveal_strlit("update");
    reveal_strlit("updatemeter");
    reveal_strlit("updatemeasure");
    reveal_strlit("redraw");
    reveal_strlit("showmeter");
    reveal_strlit("hidemeter");
    reveal_strlit("togglemeter");
    reveal_strlit("updatemetergroup");
    reveal_strlit("updatemeasuregroup");
    reveal_strlit("redrawgroup");
    reveal_strlit("showmetergroup");
    reveal_strlit("hidemetergroup");
    reveal_strlit("togglemetergroup");
    reveal_strlit("showfade");
    reveal_strlit("showfadegroup");
    reveal_strlit("hidefade");
    reveal_strlit("hidefadegroup");
    reveal_strlit("togglefade");
    reveal_strlit("togglefadegroup");
    reveal_strlit("enablemeasure");
    reveal_strlit("disablemeasure");
    reveal_strlit("togglemeasure");
    reveal_strlit("pausemeasure");
    reveal_strlit("unpausemeasure");
    reveal_strlit("togglepausemeasure");
    reveal_strlit("activateconfig");
    reveal_strlit("deactivateconfig");
    reveal_strlit("toggleconfig");
    reveal_strlit("refresh");
    reveal_strlit("refreshgroup");
    reveal_strlit("refreshapp");
    reveal_strlit("log");
    reveal_strlit("logmessage");
    reveal_strlit("commandmeasure");
    reveal_strlit("execute");
    if lower(name) == "updatemeter"@ {
        assert("updatemeter"@[0] != "setvariable"@[0]);
        assert("updatemeter"@.len() != "setoption"@.len());
        assert("updatemeter"@.len() != "writekeyvalue"@.len());
        assert("updatemeter"@.len() != "update"@.len());
    }
    if lower(name) == "updatemeasure"@ {
        assert("updatemeasure"@.len() != "setvariable"@.len());
        assert("updatemeasure"@.len() != "setoption"@.len());
        assert("updatemeasure"@[0] != "writekeyvalue"@[0]);
        assert("updatemeasure"@.len() != "update"@.len());
        assert("updatemeasure"@.len() != "updatemeter"@.len());
    }
    if lower(name) == "showmeter"@ {
        assert("showmeter"@.len() != "setvariable"@.len());
        assert("showmeter"@[1] != "setoption"@[1]);
        assert("showmeter"@.len() != "writekeyvalue"@.len());
        assert("showmeter"@.len() != "update"@.len());
        assert("showmeter"@.len() != "updatemeter"@.len());
        assert("showmeter"@.len() != "updatemeasure"@.len());
        assert("showmeter"@.len() != "redraw"@.len());
    }
    if lower(name) == "hidemeter"@ {
        assert("hidemeter"@.len() != "setvariable"@.len());
        assert("hidemeter"@[0] != "setoption"@[0]);
        assert("hidemeter"@.len() != "writekeyvalue"@.len());
        assert("hidemeter"@.len() != "update"@.len());
        assert("hidemeter"@.len() != "updatemeter"@.len());
        assert("hidemeter"@.len() != "updatemeasure"@.len());
        assert("hidemeter"@.len() != "redraw"@.len());
        assert("hidemeter"@[0] != "showmeter"@[0]);
    }
    if lower(name) == "togglemeter"@ {
        assert("togglemeter"@[0] != "setvariable"@[0]);
        assert("togglemeter"@.len() != "setoption"@.len());
        assert("togglemeter"@.len() != "writekeyvalue"@.len());
        assert("togglemeter"@.len() != "update"@.len());
        assert("togglemeter"@[0] != "updatemeter"@[0]);
        assert("togglemeter"@.len() != "updatemeasure"@.len());
        assert("togglemeter"@.len() != "redraw"@.len());
        assert("togglemeter"@.len() != "showmeter"@.len());
        assert("togglemeter"@.len() != "hidemeter"@.len());
    }
    if lower(name) == "updatemetergroup"@ {
        assert("updatemetergroup"@.len() != "setvariable"@.len());
        assert("updatemetergroup"@.len() != "setoption"@.len());
        assert("updatemetergroup"@.len() != "writekeyvalue"@.len());
        assert("updatemetergroup"@.len() != "update"@.len());
        assert("updatemetergroup"@.len() != "updatemeter"@.len());
        assert("updatemetergroup"@.len() != "updatemeasure"@.len());
        assert("updatemetergroup"@.len() != "redraw"@.len());
        assert("updatemetergroup"@.len() != "showmeter"@.len());
        assert("updatemetergroup"@.len() != "hidemeter"@.len());
        assert("updatemetergroup"@.len() != "togglemeter"@.len());
    }
    if lower(name) == "updatemeasuregroup"@ {
        assert("updatemeasuregroup"@.len() != "setvariable"@.len());
        assert("updatemeasuregroup"@.len() != "setoption"@.len());
        assert("updatemeasuregroup"@.len() != "writekeyvalue"@.len());
        assert("updatemeasuregroup"@.len() != "update"@.len());
        assert("updatemeasuregroup"@.len() != "updatemeter"@.len());
        assert("updatemeasuregroup"@.len() != "updatemeasure"@.len());
        assert("updatemeasuregroup"@.len() != "redraw"@.len());
        assert("updatemeasuregroup"@.len() != "showmeter"@.len());
        assert("updatemeasuregroup"@.len() != "hidemeter"@.len());
        assert("updatemeasuregroup"@.len() != "togglemeter"@.len());
        assert("updatemeasuregroup"@.len() != "updatemetergroup"@.len());
    }
    if lower(name) == "redrawgroup"@ {
        assert("redrawgroup"@[0] != "setvariable"@[0]);
        assert("redrawgroup"@.len() != "setoption"@.len());
        assert("redrawgroup"@.len() != "writekeyvalue"@.len());
        assert("redrawgroup"@.len() != "update"@.len());
        assert("redrawgroup"@[0] != "updatemeter"@[0]);
        assert("redrawgroup"@.len() != "updatemeasure"@.len());
        assert("redrawgroup"@.len() != "redraw"@.len());
        assert("redrawgroup"@.len() != "showmeter"@.len());
        assert("redrawgroup"@.len() != "hidemeter"@.len());
        assert("redrawgroup"@[0] != "togglemeter"@[0]);
        assert("redrawgroup"@.len() != "updatemetergroup"@.len());
        assert("redrawgroup"@.len() != "updatemeasuregroup"@.len());
    }
    if lower(name) == "showmetergroup"@ {
        assert("showmetergroup"@.len() != "setvariable"@.len());
        assert("showmetergroup"@.len() != "setoption"@.len());
        assert("showmetergroup"@.len() != "writekeyvalue"@.len());
        assert("showmetergroup"@.len() != "update"@.len());
        assert("showmetergroup"@.len() != "updatemeter"@.len());
        assert("showmetergroup"@.len() != "updatemeasure"@.len());
        assert("showmetergroup"@.len() != "redraw"@.len());
        assert("showmetergroup"@.len() != "showmeter"@.len());
        assert("showmetergroup"@.len() != "hidemeter"@.len());
        assert("showmetergroup"@.len() != "togglemeter"@.len());
        assert("showmetergroup"@.len() != "updatemetergroup"@.len());
        assert("showmetergroup"@.len() != "updatemeasuregroup"@.len());
        assert("showmetergroup"@.len() != "redrawgroup"@.len());
    }
    if lower(name) == "hidemetergroup"@ {
        assert("hidemetergroup"@.len() != "setvariable"@.len());
        assert("hidemetergroup"@.len() != "setoption"@.len());
        assert("hidemetergroup"@.len() != "writekeyvalue"@.len());
        assert("hidemetergroup"@.len() != "update"@.len());
        assert("hidemetergroup"@.len() != "updatemeter"@.len());
        assert("hidemetergroup"@.len() != "updatemeasure"@.len());
        assert("hidemetergroup"@.len() != "redraw"@.len());
        assert("hidemetergroup"@.len() != "showmeter"@.len());
        assert("hidemetergroup"@.len() != "hidemeter"@.len());
        assert("hidemetergroup"@.len() != "togglemeter"@.len());
        assert("hidemetergroup"@.len() != "updatemetergroup"@.len());
        assert("hidemetergroup"@.len() != "updatemeasuregroup"@.len());
        assert("hidemetergroup"@.len() != "redrawgroup"@.len());
        assert("hidemetergroup"@[0] != "showmetergroup"@[0]);
    }
    if lower(name) == "togglemetergroup"@ {
        assert("togglemetergroup"@.len() != "setvariable"@.len());
        assert("togglemetergroup"@.len() != "setoption"@.len());
        assert("togglemetergroup"@.len() != "writekeyvalue"@.len());
        assert("togglemetergroup"@.len() != "update"@.len());
        assert("togglemetergroup"@.len() != "updatemeter"@.len());
        assert("togglemetergroup"@.len() != "updatemeasure"@.len());
        assert("togglemetergroup"@.len() != "redraw"@.len());
        assert("togglemetergroup"@.len() != "showmeter"@.len());
        assert("togglemetergroup"@.len() != "hidemeter"@.len());
        assert("togglemetergroup"@.len() != "togglemeter"@.len());
        assert("togglemetergroup"@[0] != "updatemetergroup"@[0]);
        assert("togglemetergroup"@.len() != "updatemeasuregroup"@.len());
        assert("togglemetergroup"@.len() != "redrawgroup"@.len());
        assert("togglemetergroup"@.len() != "showmetergroup"@.len());
        assert("togglemetergroup"@.len() != "hidemetergroup"@.len());
    }
    if lower(name) == "showfade"@ {
        assert("showfade"@.len() != "setvariable"@.len());
        assert("showfade"@.len() != "setoption"@.len());
        assert("showfade"@.len() != "writekeyvalue"@.len());
        assert("showfade"@.len() != "update"@.len());
        assert("showfade"@.len() != "updatemeter"@.len());
        assert("showfade"@.len() != "updatemeasure"@.len());
        assert("showfade"@.len() != "redraw"@.len());
        assert("showfade"@.len() != "showmeter"@.len());
        assert("showfade"@.len() != "hidemeter"@.len());
        assert("showfade"@.len() != "togglemeter"@.len());
        assert("showfade"@.len() != "updatemetergroup"@.len());
        assert("showfade"@.len() != "updatemeasuregroup"@.len());
        assert("showfade"@.len() != "redrawgroup"@.len());
        assert("showfade"@.len() != "showmetergroup"@.len());
        assert("showfade"@.len() != "hidemetergroup"@.len());
        assert("showfade"@.len() != "togglemetergroup"@.len());
    }
    if lower(name) == "showfadegroup"@ {
        assert("showfadegroup"@.len() != "setvariable"@.len());
        assert("showfadegroup"@.len() != "setoption"@.len());
        assert("showfadegroup"@[0] != "writekeyvalue"@[0]);
        assert("showfadegroup"@.len() != "update"@.len());
        assert("showfadegroup"@.len() != "updatemeter"@.len());
        assert("showfadegroup"@[0] != "updatemeasure"@[0]);
        assert("showfadegroup"@.len() != "redraw"@.len());
        assert("showfadegroup"@.len() != "showmeter"@.len());
        assert("showfadegroup"@.len() != "hidemeter"@.len());
        assert("showfadegroup"@.len() != "togglemeter"@.len());
        assert("showfadegroup"@.len() != "updatemetergroup"@.len());
        assert("showfadegroup"@.len() != "updatemeasuregroup"@.len());
        assert("showfadegroup"@.len() != "redrawgroup"@.len());
        assert("showfadegroup"@.len() != "showmetergroup"@.len());
        assert("showfadegroup"@.len() != "hidemetergroup"@.len());
        assert("showfadegroup"@.len() != "togglemetergroup"@.len());
        assert("showfadegroup"@.len() != "showfade"@.len());
    }
    if lower(name) == "hidefade"@ {
        assert("hidefade"@.len() != "setvariable"@.len());
        assert("hidefade"@.len() != "setoption"@.len());
        assert("hidefade"@.len() != "writekeyvalue"@.len());
        assert("hidefade"@.len() != "update"@.len());
        assert("hidefade"@.len() != "updatemeter"@.len());
        assert("hidefade"@.len() != "updatemeasure"@.len());
        assert("hidefade"@.len() != "redraw"@.len());
        assert("hidefade"@.len() != "showmeter"@.len());
        assert("hidefade"@.len() != "hidemeter"@.len());
        assert("hidefade"@.len() != "togglemeter"@.len());
        assert("hidefade"@.len() != "updatemetergroup"@.len());
        assert("hidefade"@.len() != "updatemeasuregroup"@.len());
        assert("hidefade"@.len() != "redrawgroup"@.len());
        assert("hidefade"@.len() != "showmetergroup"@.len());
        assert("hidefade"@.len() != "hidemetergroup"@.len());
        assert("hidefade"@.len() != "togglemetergroup"@.len());
        assert("hidefade"@[0] != "showfade"@[0]);
        assert("hidefade"@.len() != "showfadegroup"@.len());
    }
    if lower(name) == "hidefadegroup"@ {
        assert("hidefadegroup"@.len() != "setvariable"@.len());
        assert("hidefadegroup"@.len() != "setoption"@.len());
        assert("hidefadegroup"@[0] != "writekeyvalue"@[0]);
        assert("hidefadegroup"@.len() != "update"@.len());
        assert("hidefadegroup"@.len() != "updatemeter"@.len());
        assert("hidefadegroup"@[0] != "updatemeasure"@[0]);
        assert("hidefadegroup"@.len() != "redraw"@.len());
        assert("hidefadegroup"@.len() != "showmeter"@.len());
        assert("hidefadegroup"@.len() != "hidemeter"@.len());
        assert("hidefadegroup"@.len() != "togglemeter"@.len());
        assert("hidefadegroup"@.len() != "updatemetergroup"@.len());
        assert("hidefadegroup"@.len() != "updatemeasuregroup"@.len());
        assert("hidefadegroup"@.len() != "redrawgroup"@.len());
        assert("hidefadegroup"@.len() != "showmetergroup"@.len());
        assert("hidefadegroup"@.len() != "hidemetergroup"@.len());
        assert("hidefadegroup"@.len() != "togglemetergroup"@.len());
        assert("hidefadegroup"@.len() != "showfade"@.len());
        assert("hidefadegroup"@[0] != "showfadegroup"@[0]);
        assert("hidefadegroup"@.len() != "hidefade"@.len());
    }
    if lower(name) == "togglefade"@ {
        assert("togglefade"@.len() != "setvariable"@.len());
        assert("togglefade"@.len() != "setoption"@.len());
        assert("togglefade"@.len() != "writekeyvalue"@.len());
        assert("togglefade"@.len() != "update"@.len());
        assert("togglefade"@.len() != "updatemeter"@.len());
        assert("togglefade"@.len() != "updatemeasure"@.len());
        assert("togglefade"@.len() != "redraw"@.len());
        assert("togglefade"@.len() != "showmeter"@.len());
        assert("togglefade"@.len() != "hidemeter"@.len());
        assert("togglefade"@.len() != "togglemeter"@.len());
        assert("togglefade"@.len() != "updatemetergroup"@.len());
        assert("togglefade"@.len() != "updatemeasuregroup"@.len());
        assert("togglefade"@.len() != "redrawgroup"@.len());
        assert("togglefade"@.len() != "showmetergroup"@.len());
        assert("togglefade"@.len() != "hidemetergroup"@.len());
        assert("togglefade"@.len() != "togglemetergroup"@.len());
        assert("togglefade"@.len() != "showfade"@.len());
        assert("togglefade"@.len() != "showfadegroup"@.len());
        assert("togglefade"@.len() != "hidefade"@.len());
        assert("togglefade"@.len() != "hidefadegroup"@.len());
    }
    if lower(name) == "togglefadegroup"@ {
        assert("togglefadegroup"@.len() != "setvariable"@.len());
        assert("togglefadegroup"@.len() != "setoption"@.len());
        assert("togglefadegroup"@.len() != "writekeyvalue"@.len());
        assert("togglefadegroup"@.len() != "update"@.len());
        assert("togglefadegroup"@.len() != "updatemeter"@.len());
        assert("togglefadegroup"@.len() != "updatemeasure"@.len());
        assert("togglefadegroup"@.len() != "redraw"@.len());
        assert("togglefadegroup"@.len() != "showmeter"@.len());
        assert("togglefadegroup"@.len() != "hidemeter"@.len());
        assert("togglefadegroup"@.len() != "togglemeter"@.len());
        assert("togglefadegroup"@.len() != "updatemetergroup"@.len());
        assert("togglefadegroup"@.len() != "updatemeasuregroup"@.len());
        assert("togglefadegroup"@.len() != "redrawgroup"@.len());
        assert("togglefadegroup"@.len() != "showmetergroup"@.len());
        assert("togglefadegroup"@.len() != "hidemetergroup"@.len());
        assert("togglefadegroup"@.len() != "togglemetergroup"@.len());
        assert("togglefadegroup"@.len() != "showfade"@.len());
        assert("togglefadegroup"@.len() != "showfadegroup"@.len());
        assert("togglefadegroup"@.len() != "hidefade"@.len());
        assert("togglefadegroup"@.len() != "hidefadegroup"@.len());
        assert("togglefadegroup"@.len() != "togglefade"@.len());
    }
    if lower(name) == "enablemeasure"@ {
        assert("enablemeasure"@.len() != "setvariable"@.len());
        assert("enablemeasure"@.len() != "setoption"@.len());
        assert("enablemeasure"@[0] != "writekeyvalue"@[0]);
        assert("enablemeasure"@.len() != "update"@.len());
        assert("enablemeasure"@.len() != "updatemeter"@.len());
        assert("enablemeasure"@[0] != "updatemeasure"@[0]);
        assert("enablemeasure"@.len() != "redraw"@.len());
        assert("enablemeasure"@.len() != "showmeter"@.len());
        assert("enablemeasure"@.len() != "hidemeter"@.len());
        assert("enablemeasure"@.len() != "togglemeter"@.len());
        assert("enablemeasure"@.len() != "updatemetergroup"@.len());
        assert("enablemeasure"@.len() != "updatemeasuregroup"@.len());
        assert("enablemeasure"@.len() != "redrawgroup"@.len());
        assert("enablemeasure"@.len() != "showmetergroup"@.len());
        assert("enablemeasure"@.len() != "hidemetergroup"@.len());
        assert("enablemeasure"@.len() != "togglemetergroup"@.len());
        assert("enablemeasure"@.len() != "showfade"@.len());
        assert("enablemeasure"@[0] != "showfadegroup"@[0]);
        assert("enablemeasure"@.len() != "hidefade"@.len());
        assert("enablemeasure"@[0] != "hidefadegroup"@[0]);
        assert("enablemeasure"@.len() != "togglefade"@.len());
        assert("enablemeasure"@.len() != "togglefadegroup"@.len());
    }
    if lower(name) == "disablemeasure"@ {
        assert("disablemeasure"@.len() != "setvariable"@.len());
        assert("disablemeasure"@.len() != "setoption"@.len());
        assert("disablemeasure"@.len() != "writekeyvalue"@.len());
        assert("disablemeasure"@.len() != "update"@.len());
        assert("disablemeasure"@.len() != "updatemeter"@.len());
        assert("disablemeasure"@.len() != "updatemeasure"@.len());
        assert("disablemeasure"@.len() != "redraw"@.len());
        assert("disablemeasure"@.len() != "showmeter"@.len());
        assert("disablemeasure"@.len() != "hidemeter"@.len());
        assert("disablemeasure"@.len() != "togglemeter"@.len());
        assert("disablemeasure"@.len() != "updatemetergroup"@.len());
        assert("disablemeasure"@.len() != "updatemeasuregroup"@.len());
        assert("disablemeasure"@.len() != "redrawgroup"@.len());
        assert("disablemeasure"@[0] != "showmetergroup"@[0]);
        assert("disablemeasure"@[0] != "hidemetergroup"@[0]);
        assert("disablemeasure"@.len() != "togglemetergroup"@.len());
        assert("disablemeasure"@.len() != "showfade"@.len());
        assert("disablemeasure"@.len() != "showfadegroup"@.len());
        assert("disablemeasure"@.len() != "hidefade"@.len());
        assert("disablemeasure"@.len() != "hidefadegroup"@.len());
        assert("disablemeasure"@.len() != "togglefade"@.len());
        assert("disablemeasure"@.len() != "togglefadegroup"@.len());
        assert("disablemeasure"@.len() != "enablemeasure"@.len());
    }
    if lower(name) == "togglemeasure"@ {
        assert("togglemeasure"@.len() != "setvariable"@.len());
        assert("togglemeasure"@.len() != "setoption"@.len());
        assert("togglemeasure"@[0] != "writekeyvalue"@[0]);
        assert("togglemeasure"@.len() != "update"@.len());
        assert("togglemeasure"@.len() != "updatemeter"@.len());
        assert("togglemeasure"@[0] != "updatemeasure"@[0]);
        assert("togglemeasure"@.len() != "redraw"@.len());
        assert("togglemeasure"@.len() != "showmeter"@.len());
        assert("togglemeasure"@.len() != "hidemeter"@.len());
        assert("togglemeasure"@.len() != "togglemeter"@.len());
        assert("togglemeasure"@.len() != "updatemetergroup"@.len());
        assert("togglemeasure"@.len() != "updatemeasuregroup"@.len());
        assert("togglemeasure"@.len() != "redrawgroup"@.len());
        assert("togglemeasure"@.len() != "showmetergroup"@.len());
        assert("togglemeasure"@.len() != "hidemetergroup"@.len());
        assert("togglemeasure"@.len() != "togglemetergroup"@.len());
        assert("togglemeasure"@.len() != "showfade"@.len());
        assert("togglemeasure"@[0] != "showfadegroup"@[0]);
        assert("togglemeasure"@.len() != "hidefade"@.len());
        assert("togglemeasure"@[0] != "hidefadegroup"@[0]);
        assert("togglemeasure"@.len() != "togglefade"@.len());
        assert("togglemeasure"@.len() != "togglefadegroup"@.len());
        assert("togglemeasure"@[0] != "enablemeasure"@[0]);
        assert("togglemeasure"@.len() != "disablemeasure"@.len());
    }
    if lower(name) == "pausemeasure"@ {
        assert("pausemeasure"@.len() != "setvariable"@.len());
        assert("pausemeasure"@.len() != "setoption"@.len());
        assert("pausemeasure"@.len() != "writekeyvalue"@.len());
        assert("pausemeasure"@.len() != "update"@.len());
        assert("pausemeasure"@.len() != "updatemeter"@.len());
        assert("pausemeasure"@.len() != "updatemeasure"@.len());
        assert("pausemeasure"@.len() != "redraw"@.len());
        assert("pausemeasure"@.len() != "showmeter"@.len());
        assert("pausemeasure"@.len() != "hidemeter"@.len());
        assert("pausemeasure"@.len() != "togglemeter"@.len());
        assert("pausemeasure"@.len() != "updatemetergroup"@.len());
        assert("pausemeasure"@.len() != "updatemeasuregroup"@.len());
        assert("pausemeasure"@.len() != "redrawgroup"@.len());
        assert("pausemeasure"@.len() != "showmetergroup"@.len());
        assert("pausemeasure"@.len() != "hidemetergroup"@.len());
        assert("pausemeasure"@.len() != "togglemetergroup"@.len());
        assert("pausemeasure"@.len() != "showfade"@.len());
        assert("pausemeasure"@.len() != "showfadegroup"@.len());
        assert("pausemeasure"@.len() != "hidefade"@.len());
        assert("pausemeasure"@.len() != "hidefadegroup"@.len());
        assert("pausemeasure"@.len() != "togglefade"@.len());
        assert("pausemeasure"@.len() != "togglefadegroup"@.len());
        assert("pausemeasure"@.len() != "enablemeasure"@.len());
        assert("pausemeasure"@.len() != "disablemeasure"@.len());
        assert("pausemeasure"@.len() != "togglemeasure"@.len());
    }
    if lower(name) == "unpausemeasure"@ {
        assert("unpausemeasure"@.len() != "setvariable"@.len());
        assert("unpausemeasure"@.len() != "setoption"@.len());
        assert("unpausemeasure"@.len() != "writekeyvalue"@.len());
        assert("unpausemeasure"@.len() != "update"@.len());
        assert("unpausemeasure"@.len() != "updatemeter"@.len());
        assert("unpausemeasure"@.len() != "updatemeasure"@.len());
        assert("unpausemeasure"@.len() != "redraw"@.len());
        assert("unpausemeasure"@.len() != "showmeter"@.len());
        assert("unpausemeasure"@.len() != "hidemeter"@.len());
        assert("unpausemeasure"@.len() != "togglemeter"@.len());
        assert("unpausemeasure"@.len() != "updatemetergroup"@.len());
        assert("unpausemeasure"@.len() != "updatemeasuregroup"@.len());
        assert("unpausemeasure"@.len() != "redrawgroup"@.len());
        assert("unpausemeasure"@[0] != "showmetergroup"@[0]);
        assert("unpausemeasure"@[0] != "hidemetergroup"@[0]);
        assert("unpausemeasure"@.len() != "togglemetergroup"@.len());
        assert("unpausemeasure"@.len() != "showfade"@.len());
        assert("unpausemeasure"@.len() != "showfadegroup"@.len());
        assert("unpausemeasure"@.len() != "hidefade"@.len());
        assert("unpausemeasure"@.len() != "hidefadegroup"@.len());
        assert("unpausemeasure"@.len() != "togglefade"@.len());
        assert("unpausemeasure"@.len() != "togglefadegroup"@.len());
        assert("unpausemeasure"@.len() != "enablemeasure"@.len());
        assert("unpausemeasure"@[0] != "disablemeasure"@[0]);
        assert("unpausemeasure"@.len() != "togglemeasure"@.len());
        assert("unpausemeasure"@.len() != "pausemeasure"@.len());
    }
    if lower(name) == "togglepausemeasure"@ {
        assert("togglepausemeasure"@.len() != "setvariable"@.len());
        assert("togglepausemeasure"@.len() != "setoption"@.len());
        assert("togglepausemeasure"@.len() != "writekeyvalue"@.len());
        assert("togglepausemeasure"@.len() != "update"@.len());
        assert("togglepausemeasure"@.len() != "updatemeter"@.len());
        assert("togglepausemeasure"@.len() != "updatemeasure"@.len());
        assert("togglepausemeasure"@.len() != "redraw"@.len());
        assert("togglepausemeasure"@.len() != "showmeter"@.len());
        assert("togglepausemeasure"@.len() != "hidemeter"@.len());
        assert("togglepausemeasure"@.len() != "togglemeter"@.len());
        assert("togglepausemeasure"@.len() != "updatemetergroup"@.len());
        assert("togglepausemeasure"@[0] != "updatemeasuregroup"@[0]);
        assert("togglepausemeasure"@.len() != "redrawgroup"@.len());
        assert("togglepausemeasure"@.len() != "showmetergroup"@.len());
        assert("togglepausemeasure"@.len() != "hidemetergroup"@.len());
        assert("togglepausemeasure"@.len() != "togglemetergroup"@.len());
        assert("togglepausemeasure"@.len() != "showfade"@.len());
        assert("togglepausemeasure"@.len() != "showfadegroup"@.len());
        assert("togglepausemeasure"@.len() != "hidefade"@.len());
        assert("togglepausemeasure"@.len() != "hidefadegroup"@.len());
        assert("togglepausemeasure"@.len() != "togglefade"@.len());
        assert("togglepausemeasure"@.len() != "togglefadegroup"@.len());
        assert("togglepausemeasure"@.len() != "enablemeasure"@.len());
        assert("togglepausemeasure"@.len() != "disablemeasure"@.len());
        assert("togglepausemeasure"@.len() != "togglemeasure"@.len());
        assert("togglepausemeasure"@.len() != "pausemeasure"@.len());
        assert("togglepausemeasure"@.len() != "unpausemeasure"@.len());
    }
    if lower(name) == "activateconfig"@ {
        assert("activateconfig"@.len() != "setvariable"@.len());
        assert("activateconfig"@.len() != "setoption"@.len());
        assert("activateconfig"@.len() != "writekeyvalue"@.len());
        assert("activateconfig"@.len() != "update"@.len());
        assert("activateconfig"@.len() != "updatemeter"@.len());
        assert("activateconfig"@.len() != "updatemeasure"@.len());
        assert("activateconfig"@.len() != "redraw"@.len());
        assert("activateconfig"@.len() != "showmeter"@.len());
        assert("activateconfig"@.len() != "hidemeter"@.len());
        assert("activateconfig"@.len() != "togglemeter"@.len());
        assert("activateconfig"@.len() != "updatemetergroup"@.len());
        assert("activateconfig"@.len() != "updatemeasuregroup"@.len());
        assert("activateconfig"@.len() != "redrawgroup"@.len());
        assert("activateconfig"@[0] != "showmetergroup"@[0]);
        assert("activateconfig"@[0] != "hidemetergroup"@[0]);
        assert("activateconfig"@.len() != "togglemetergroup"@.len());
        assert("activateconfig"@.len() != "showfade"@.len());
        assert("activateconfig"@.len() != "showfadegroup"@.len());
        assert("activateconfig"@.len() != "hidefade"@.len());
        assert("activateconfig"@.len() != "hidefadegroup"@.len());
        assert("activateconfig"@.len() != "togglefade"@.len());
        assert("activateconfig"@.len() != "togglefadegroup"@.len());
        assert("activateconfig"@.len() != "enablemeasure"@.len());
        assert("activateconfig"@[0] != "disablemeasure"@[0]);
        assert("activateconfig"@.len() != "togglemeasure"@.len());
        assert("activateconfig"@.len() != "pausemeasure"@.len());
        assert("activateconfig"@[0] != "unpausemeasure"@[0]);
        assert("activateconfig"@.len() != "togglepausemeasure"@.len());
    }
    if lower(name) == "toggleconfig"@ {
        assert("toggleconfig"@.len() != "setvariable"@.len());
        assert("toggleconfig"@.len() != "setoption"@.len());
        assert("toggleconfig"@.len() != "writekeyvalue"@.len());
        assert("toggleconfig"@.len() != "update"@.len());
        assert("toggleconfig"@.len() != "updatemeter"@.len());
        assert("toggleconfig"@.len() != "updatemeasure"@.len());
        assert("toggleconfig"@.len() != "redraw"@.len());
        assert("toggleconfig"@.len() != "showmeter"@.len());
        assert("toggleconfig"@.len() != "hidemeter"@.len());
        assert("toggleconfig"@.len() != "togglemeter"@.len());
        assert("toggleconfig"@.len() != "updatemetergroup"@.len());
        assert("toggleconfig"@.len() != "updatemeasuregroup"@.len());
        assert("toggleconfig"@.len() != "redrawgroup"@.len());
        assert("toggleconfig"@.len() != "showmetergroup"@.len());
        assert("toggleconfig"@.len() != "hidemetergroup"@.len());
        assert("toggleconfig"@.len() != "togglemetergroup"@.len());
        assert("toggleconfig"@.len() != "showfade"@.len());
        assert("toggleconfig"@.len() != "showfadegroup"@.len());
        assert("toggleconfig"@.len() != "hidefade"@.len());
        assert("toggleconfig"@.len() != "hidefadegroup"@.len());
        assert("toggleconfig"@.len() != "togglefade"@.len());
        assert("toggleconfig"@.len() != "togglefadegroup"@.len());
        assert("toggleconfig"@.len() != "enablemeasure"@.len());
        assert("toggleconfig"@.len() != "disablemeasure"@.len());
        assert("toggleconfig"@.len() != "togglemeasure"@.len());
        assert("toggleconfig"@[0] != "pausemeasure"@[0]);
        assert("toggleconfig"@.len() != "unpausemeasure"@.len());
        assert("toggleconfig"@.len() != "togglepausemeasure"@.len());
        assert("toggleconfig"@.len() != "activateconfig"@.len());
        assert("toggleconfig"@.len() != "deactivateconfig"@.len());
    }
}


/// A segment of a bang chain: no brackets and no quotes.
pub open spec fn plain_segment(x: Seq<char>) -> bool {
    forall|i: int| 0 <= i < x.len() ==> #[trigger] x[i] != '[' && x[i] != ']' && !is_quote(x[i])
}

/// The chain `[s0][s1]...` of the segments.
pub open spec fn bracketed(segs: Seq<Seq<char>>) -> Seq<char>
    decreases segs.len(),
{
    if segs.len() == 0 {
        seq![]
    } else {
        bracketed(segs.drop_last()) + seq!['['] + segs.last() + seq![']']
    }
}

/// The bangs of the segments that read as one, in order.
pub open spec fn segment_bangs(segs: Seq<Seq<char>>) -> Seq<BangView>
    decreases segs.len(),
{
    if segs.len() == 0 {
        seq![]
    } else {
        let t = trim(segs.last());
        let before = segment_bangs(segs.drop_last());
        if t.len() > 0 && single_bang(t) is Some {
            before.push(single_bang(t).unwrap())
        } else {
            before
        }
    }
}

/// Characters of a plain segment are collected inside an open bracket.
proof fn lemma_br_inside(p: Seq<char>, x: Seq<char>)
    requires
        br_fold(p).depth == 1,
        !br_fold(p).in_quotes,
        plain_segment(x),
    ensures
        br_fold(p + x) == (BrState { current: br_fold(p).current + x, ..br_fold(p) }),
    decreases x.len(),
{
    if x.len() == 0 {
        assert(p + x =~= p);
        assert(br_fold(p).current + x =~= br_fold(p).current);
    } else {
        assert((p + x).drop_last() =~= p + x.drop_last());
        assert((p + x).last() == x.last());
        assert(plain_segment(x.drop_last())) by {
            assert forall|i: int| 0 <= i < x.drop_last().len() implies #[trigger] x.drop_last()[i] != '['
                && x.drop_last()[i] != ']' && !is_quote(x.drop_last()[i]) by {
                assert(x.drop_last()[i] == x[i]);
            }
        }
        lemma_br_inside(p, x.drop_last());
        assert(x[x.len() - 1] != '[' && x[x.len() - 1] != ']' && !is_quote(x[x.len() - 1]));
        assert((br_fold(p).current + x.drop_last()).push(x.last()) =~= br_fold(p).current + x);
    }
}

/// A bracketed plain segment read between segments adds its bang, if it
/// reads as one.
proof fn lemma_br_segment(p: Seq<char>, x: Seq<char>)
    requires
        br_fold(p).depth == 0,
        !br_fold(p).in_quotes,
        plain_segment(x),
    ensures
        ({
            let t = trim(x);
            let st = br_fold(p + seq!['['] + x + seq![']']);
            &&& st.depth == 0
            &&& !st.in_quotes
            &&& st.bangs == if t.len() > 0 && single_bang(t) is Some {
                br_fold(p).bangs.push(single_bang(t).unwrap())
            } else {
                br_fold(p).bangs
            }
        }),
{
    let p1 = p.push('[');
    assert(p1.drop_last() =~= p);
    assert(!is_quote('['));
    lemma_br_inside(p1, x);
    assert(br_fold(p1).current =~= Seq::<char>::empty());
    assert(Seq::<char>::empty() + x =~= x);
    let p2 = (p1 + x).push(']');
    assert(p2.drop_last() =~= p1 + x);
    assert(!is_quote(']'));
    assert(p2 =~= p + seq!['['] + x + seq![']']);
}

proof fn lemma_br_chain(segs: Seq<Seq<char>>)
    requires
        forall|i: int| 0 <= i < segs.len() ==> plain_segment(#[trigger] segs[i]),
    ensures
        br_fold(bracketed(segs)).depth == 0,
        !br_fold(bracketed(segs)).in_quotes,
        br_fold(bracketed(segs)).bangs == segment_bangs(segs),
    decreases segs.len(),
{
    if segs.len() > 0 {
        let d = segs.drop_last();
        assert forall|i: int| 0 <= i < d.len() implies plain_segment(#[trigger] d[i]) by {
            assert(d[i] == segs[i]);
        }
        lemma_br_chain(d);
        assert(plain_segment(segs[segs.len() - 1]));
        lemma_br_segment(bracketed(d), segs.last());
    }
}

/// Law: a bang chain `[b1][b2]...[bn]` reads as the bangs of its segments,
/// each read on its own as `parse_single_bang` reads it, in order; a
/// segment that reads as no bang is skipped. (Segments here hold no
/// brackets and no quotes.)
pub proof fn law_chain_reads_each_segment(segs: Seq<Seq<char>>)
    requires
        segs.len() > 0,
        forall|i: int| 0 <= i < segs.len() ==> plain_segment(#[trigger] segs[i]),
    ensures
        bangs_of(bracketed(segs)) == segment_bangs(segs),
{
    lemma_br_chain(segs);
    let t = bracketed(segs);
    assert(t == bracketed(segs.drop_last()) + seq!['['] + segs.last() + seq![']']);
    assert(t.last() == ']');
    assert(t.len() > 0);
    assert(t[0] == '[') by {
        lemma_bracketed_starts(segs);
    }
    lemma_trim_plain_ends(t);
}

proof fn lemma_bracketed_starts(segs: Seq<Seq<char>>)
    requires
        segs.len() > 0,
    ensures
        bracketed(segs).len() > 0,
        bracketed(segs)[0] == '[',
    decreases segs.len(),
{
    let d = segs.drop_last();
    if d.len() > 0 {
        lemma_bracketed_starts(d);
        assert((bracketed(d) + seq!['['] + segs.last() + seq![']'])[0] == bracketed(d)[0]);
    } else {
        assert(bracketed(d) =~= Seq::<char>::empty());
        assert((bracketed(d) + seq!['['] + segs.last() + seq![']'])[0] == '[');
    }
}

} // verus!
