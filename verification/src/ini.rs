//! Skin INI structure: line classification, sections and their options,
//! `@Include` bookkeeping, chained variables, meter styles and measure
//! configuration.
use crate::encoding::EncodingError;
use crate::formulas::FormulaError;
use crate::text::{
    eq_ignore_case, eq_ignore_case_str, eq_str, lower, lower_range, starts_with, starts_with_str,
    split_on, split_str, str_eq, string_of, to_chars, trim, trim_bounds, views,
};
use crate::variables::{merge_missing, VariableMap};
use vstd::prelude::*;

verus! {

/// Why a skin could not be parsed.
#[derive(Debug, Clone, PartialEq)]
pub enum ParseError {
    /// Reading a file failed (the message of the I/O error).
    Io(String),
    Encoding(EncodingError),
    IncludeNotFound(String),
    CircularInclude(String),
    SyntaxError { line: usize, msg: String },
    Formula(FormulaError),
}

/// Representation of a parsed Rainmeter measure (`Measure=...`).
#[derive(Debug, Clone)]
pub struct MeasureConfig {
    pub name: String,
    pub measure_type: String,
    pub plugin: Option<String>,
    pub format: Option<String>,
    pub formula: Option<String>,
    pub update_divider: u32,
    pub disabled: bool,
    pub dynamic_variables: bool,
    pub properties: VariableMap,
}

impl MeasureConfig {
    /// Case-insensitive property lookup.
    pub fn get(&self, key: &str) -> (r: Option<&str>)
        requires
            self.properties.wf(),
        ensures
            match r {
                Some(v) => self.properties@.contains_key(lower(key@)) && v@
                    == self.properties@[lower(key@)],
                None => !self.properties@.contains_key(lower(key@)),
            },
    {
        self.properties.get(key)
    }
}

/// The trimmed text without one pair of surrounding double quotes.
pub open spec fn unquoted(s: Seq<char>) -> Seq<char> {
    let t = trim(s);
    if t.len() >= 2 && t[0] == '"' && t.last() == '"' {
        t.subrange(1, t.len() - 1)
    } else {
        t
    }
}

/// Trims a value and removes one pair of surrounding double quotes.
pub fn strip_quotes(s: &str) -> (r: String)
    ensures
        r@ == unquoted(s@),
{
    let v = to_chars(s);
    assert(v@.subrange(0, v@.len() as int) =~= v@);
    let (a, b) = trim_bounds(&v, 0, v.len());
    if b - a >= 2 && v[a] == '"' && v[b - 1] == '"' {
        assert(v@.subrange(a as int, b as int).subrange(1, b - a - 1) =~= v@.subrange(
            a + 1,
            b - 1,
        ));
        string_of(&v, a + 1, b - 1)
    } else {
        string_of(&v, a, b)
    }
}

/// One line of a skin file.
#[derive(Debug, Clone, PartialEq, Eq)]
pub enum IniLine {
    /// Empty line or `;` comment.
    Skip,
    /// `[Title]`, with the title trimmed.
    Section(String),
    /// `@Include...=path`, with the raw path.
    Include(String),
    /// `Key=Value`, both trimmed.
    Entry { key: String, value: String },
}

/// The model of a line.
pub enum IniLineView {
    Skip,
    Section(Seq<char>),
    Include(Seq<char>),
    Entry { key: Seq<char>, value: Seq<char> },
}

impl View for IniLine {
    type V = IniLineView;

    open spec fn view(&self) -> IniLineView {
        match self {
            IniLine::Skip => IniLineView::Skip,
            IniLine::Section(t) => IniLineView::Section(t@),
            IniLine::Include(p) => IniLineView::Include(p@),
            IniLine::Entry { key, value } => IniLineView::Entry { key: key@, value: value@ },
        }
    }
}

/// First index of `c`, or -1.
pub open spec fn index_of(s: Seq<char>, c: char) -> int {
    crate::variables::find_from(s, 0, c)
}

/// How a line is read: comments and blank lines are skipped, `[...]`
/// opens a section, `key=value` is an option (split at the first `=`),
/// keys starting with `@include` (any case) include another file.
pub open spec fn line_kind(line: Seq<char>) -> IniLineView {
    let t = trim(line);
    let eq = index_of(t, '=');
    if t.len() == 0 || t[0] == ';' {
        IniLineView::Skip
    } else if t[0] == '[' && t.last() == ']' {
        IniLineView::Section(trim(t.subrange(1, t.len() - 1)))
    } else if eq == -1 {
        IniLineView::Skip
    } else {
        let key = trim(t.take(eq));
        let value = trim(t.skip(eq + 1));
        if starts_with(lower(key), "@include"@) {
            IniLineView::Include(value)
        } else {
            IniLineView::Entry { key, value }
        }
    }
}

/// Classifies one line of a skin file.
pub fn classify_line(line: &str) -> (r: IniLine)
    ensures
        r@ == line_kind(line@),
{
    let v = to_chars(line);
    assert(v@.subrange(0, v@.len() as int) =~= v@);
    let (a, b) = trim_bounds(&v, 0, v.len());
    let ghost t = v@.subrange(a as int, b as int);
    if a == b || v[a] == ';' {
        return IniLine::Skip;
    }
    if v[a] == '[' && v[b - 1] == ']' {
        assert(b - a >= 2);
        let (c, d) = trim_bounds(&v, a + 1, b - 1);
        assert(t.subrange(1, t.len() - 1) =~= v@.subrange(a + 1, b - 1));
        return IniLine::Section(string_of(&v, c, d));
    }
    let mut e = a;
    while e < b && v[e] != '='
        invariant
            a <= e <= b <= v@.len(),
            forall|k: int| a <= k < e ==> v@[k] != '=',
        decreases b - e,
    {
        e = e + 1;
    }
    proof {
        crate::variables::lemma_find_from(t, 0, '=');
        let f = index_of(t, '=');
        if e < b {
            assert(t[e - a] == '=');
            if f != -1 && f < e - a {
                assert(t[f] == v@[a + f]);
            }
        } else if f != -1 {
            assert(t[f] == v@[a + f]);
        }
    }
    if e == b {
        return IniLine::Skip;
    }
    assert(index_of(t, '=') == e - a);
    let (k0, k1) = trim_bounds(&v, a, e);
    let (v0, v1) = trim_bounds(&v, e + 1, b);
    assert(t.take(e - a) =~= v@.subrange(a as int, e as int));
    assert(t.skip(e - a + 1) =~= v@.subrange(e + 1, b as int));
    let lk = lower_range(&v, k0, k1);
    if starts_with_str(&lk, "@include") {
        IniLine::Include(string_of(&v, v0, v1))
    } else {
        IniLine::Entry { key: string_of(&v, k0, k1), value: string_of(&v, v0, v1) }
    }
}

/// Neither end is white space (or the text is empty).
pub open spec fn tight(t: Seq<char>) -> bool {
    t.len() == 0 || (!crate::text::is_ws(t[0]) && !crate::text::is_ws(t.last()))
}

/// Law: how a line is read. A `;` line is a comment; `[name]` opens the
/// section `name` (trimmed); `key=value` (split at the first `=`, both
/// sides trimmed) is an option, or an include of `value` when the key
/// starts with `@Include` in any case. Here the key holds no `=`, starts
/// with neither `;` nor `[`, and key and value have no white space at
/// their ends.
pub proof fn law_line_kinds(key: Seq<char>, value: Seq<char>, name: Seq<char>, rest: Seq<char>)
    requires
        key.len() > 0,
        tight(key),
        tight(value),
        !crate::text::has_char(key, '='),
        key[0] != ';',
        key[0] != '[',
    ensures
        line_kind(seq![';'] + rest) == IniLineView::Skip,
        line_kind(seq!['['] + name + seq![']']) == IniLineView::Section(trim(name)),
        !starts_with(lower(key), "@include"@) ==> line_kind(key + seq!['='] + value) == (IniLineView::Entry {
            key: key,
            value: value,
        }),
        starts_with(lower(key), "@include"@) ==> line_kind(key + seq!['='] + value) == IniLineView::Include(value),
{
    let c = seq![';'] + rest;
    crate::text::lemma_lead_ws_bound(c);
    assert(c[0] == ';');
    assert(!crate::text::is_ws(';'));
    assert(trim(c).len() > 0 && trim(c)[0] == ';') by {
        assert(crate::text::lead_ws(c) == 0);
        crate::text::lemma_trail_ws_bound(c);
        assert(c.skip(0) =~= c);
        assert(crate::text::trail_ws(c) < c.len()) by {
            if crate::text::trail_ws(c) == c.len() {
                assert(crate::text::is_ws(c[0]));
            }
        }
    }
    let sct = seq!['['] + name + seq![']'];
    crate::text::lemma_trim_keeps(sct);
    assert(sct.subrange(1, sct.len() - 1) =~= name);
    let line = key + seq!['='] + value;
    assert(line[0] == key[0]);
    if value.len() > 0 {
        assert(line.last() == value.last());
    } else {
        assert(line.last() == '=');
    }
    crate::text::lemma_trim_keeps(line);
    let eq = key.len() as int;
    crate::variables::lemma_find_from(line, 0, '=');
    assert forall|k: int| 0 <= k < eq implies line[k] != '=' by {
        assert(line[k] == key[k]);
        if key[k] == '=' {
            assert(crate::text::has_char(key, '='));
        }
    }
    assert(line[eq] == '=');
    assert(index_of(line, '=') == eq);
    assert(line.take(eq) =~= key);
    assert(line.skip(eq + 1) =~= value);
    crate::text::lemma_trim_keeps(key);
    crate::text::lemma_trim_keeps(value);
}

} // verus!
verus! {

/// A section as read so far: its lower-case key, its name as first
/// written, and its options (keys lower-case).
#[derive(Debug, Clone)]
pub struct RawSection {
    pub key: String,
    pub name: String,
    pub props: VariableMap,
}

/// The model of a section.
pub struct SectionModel {
    pub key: Seq<char>,
    pub name: Seq<char>,
    pub props: Map<Seq<char>, Seq<char>>,
}

pub open spec fn section_models(v: Seq<RawSection>) -> Seq<SectionModel> {
    Seq::new(v.len(), |i: int| SectionModel { key: v[i].key@, name: v[i].name@, props: v[i].props@ })
}

/// Index of the section with key `k`, or -1.
pub open spec fn find_section(secs: Seq<SectionModel>, k: Seq<char>, from: int) -> int
    decreases secs.len() - from,
{
    if from < 0 || from >= secs.len() {
        -1
    } else if secs[from].key == k {
        from
    } else {
        find_section(secs, k, from + 1)
    }
}

/// Sections are stored once each, under lower-case keys, with well-formed
/// option maps.
pub open spec fn sections_wf(v: Seq<RawSection>) -> bool {
    &&& forall|i: int| 0 <= i < v.len() ==> (#[trigger] v[i]).props.wf()
    &&& forall|i: int, j: int| 0 <= i < j < v.len() ==> v[i].key@ != v[j].key@
}

/// Position of the section with key `k`.
pub fn section_index(secs: &Vec<RawSection>, k: &[char]) -> (r: Option<usize>)
    ensures
        match r {
            Some(i) => i < secs@.len() && i as int == find_section(section_models(secs@), k@, 0),
            None => find_section(section_models(secs@), k@, 0) == -1,
        },
{
    let ghost m = section_models(secs@);
    let mut i: usize = 0;
    while i < secs.len()
        invariant
            m == section_models(secs@),
            i <= secs@.len(),
            find_section(m, k@, 0) == find_section(m, k@, i as int),
        decreases secs.len() - i,
    {
        if eq_str(k, secs[i].key.as_str()) {
            return Some(i);
        }
        i = i + 1;
    }
    None
}

/// The state of a skin being read: its sections in order of first
/// appearance, its `[Variables]`, and the files being included.
#[derive(Debug, Clone)]
pub struct IniState {
    pub sections: Vec<RawSection>,
    pub variables: VariableMap,
    pub include_stack: Vec<String>,
}

/// What one line does to the sections and variables, and the section that
/// follows it.
pub open spec fn apply_spec(
    secs: Seq<SectionModel>,
    vars: Map<Seq<char>, Seq<char>>,
    line: IniLineView,
    cur: Option<Seq<char>>,
) -> (Seq<SectionModel>, Map<Seq<char>, Seq<char>>, Option<Seq<char>>) {
    match line {
        IniLineView::Section(title) => {
            let lt = lower(title);
            let secs2 = if find_section(secs, lt, 0) == -1 {
                secs.push(SectionModel { key: lt, name: title, props: Map::empty() })
            } else {
                secs
            };
            (secs2, vars, Some(lt))
        },
        IniLineView::Entry { key, value } => match cur {
            Some(sec) => {
                let vars2 = if sec == "variables"@ {
                    vars.insert(lower(key), value)
                } else {
                    vars
                };
                let i = find_section(secs, sec, 0);
                let secs2 = if 0 <= i < secs.len() {
                    secs.update(
                        i,
                        SectionModel { props: secs[i].props.insert(lower(key), value), ..secs[i] },
                    )
                } else {
                    secs
                };
                (secs2, vars2, cur)
            },
            None => (secs, vars, cur),
        },
        _ => (secs, vars, cur),
    }
}

pub open spec fn os(o: Option<String>) -> Option<Seq<char>> {
    match o {
        Some(s) => Some(s@),
        None => None,
    }
}

proof fn lemma_find_section(secs: Seq<SectionModel>, k: Seq<char>, from: int)
    requires
        0 <= from,
    ensures
        find_section(secs, k, from) == -1 ==> forall|j: int| from <= j < secs.len() ==> secs[j].key != k,
        find_section(secs, k, from) != -1 ==> from <= find_section(secs, k, from) < secs.len()
            && secs[find_section(secs, k, from)].key == k,
    decreases secs.len() - from,
{
    if from < secs.len() && secs[from].key != k {
        lemma_find_section(secs, k, from + 1);
    }
}

impl IniState {
    pub open spec fn wf(&self) -> bool {
        &&& sections_wf(self.sections@)
        &&& self.variables.wf()
    }

    /// A fresh state for a skin in `skin_dir` whose main file resolves to
    /// `main_path`.
    pub fn new(skin_dir: &str, main_path: &str) -> (r: Self)
        ensures
            r.wf(),
            r.sections@.len() == 0,
            r.variables@ == crate::variables::skin_vars(skin_dir@),
            r.include_stack@.len() == 1 && r.include_stack@[0]@ == main_path@,
    {
        let mut stack: Vec<String> = Vec::new();
        stack.push(main_path.to_string());
        IniState {
            sections: Vec::new(),
            variables: VariableMap::with_skin_dir(skin_dir),
            include_stack: stack,
        }
    }

    /// Applies one line read in section `current`; returns the section the
    /// next line is read in.
    pub fn apply_line(&mut self, line: &IniLine, current: Option<String>) -> (r: Option<String>)
        requires
            old(self).wf(),
        ensures
            final(self).wf(),
            (section_models(final(self).sections@), final(self).variables@, os(r)) == apply_spec(
                section_models(old(self).sections@),
                old(self).variables@,
                line@,
                os(current),
            ),
            final(self).include_stack == old(self).include_stack,
    {
        match line {
            IniLine::Section(title) => {
                let tv = to_chars(title.as_str());
                let lt = lower_range(&tv, 0, tv.len());
                assert(tv@.subrange(0, tv@.len() as int) =~= tv@);
                let key = string_of(&lt, 0, lt.len());
                assert(lt@.subrange(0, lt@.len() as int) =~= lt@);
                match section_index(&self.sections, &lt) {
                    Some(_) => {},
                    None => {
                        let ghost old_secs = self.sections@;
                        proof {
                            lemma_find_section(section_models(old_secs), lt@, 0);
                        }
                        self.sections.push(
                            RawSection {
                                key: key.clone(),
                                name: title.clone(),
                                props: VariableMap::empty(),
                            },
                        );
                        proof {
                            assert(section_models(self.sections@) =~= section_models(
                                old_secs,
                            ).push(
                                SectionModel { key: lt@, name: title@, props: Map::empty() },
                            ));
                            assert forall|i: int, j: int|
                                0 <= i < j < self.sections@.len() implies self.sections@[i].key@
                                != self.sections@[j].key@ by {
                                if j == old_secs.len() {
                                    assert(section_models(old_secs)[i].key == old_secs[i].key@);
                                } else {
                                    assert(self.sections@[i] == old_secs[i]);
                                    assert(self.sections@[j] == old_secs[j]);
                                }
                            }
                            assert forall|i: int| 0 <= i < self.sections@.len() implies (
                            #[trigger] self.sections@[i]).props.wf() by {
                                if i < old_secs.len() {
                                    assert(self.sections@[i] == old_secs[i]);
                                }
                            }
                        }
                    },
                }
                Some(key)
            },
            IniLine::Entry { key, value } => {
                match current {
                    Some(sec) => {
                        if str_eq(sec.as_str(), "variables") {
                            self.variables.set(key.as_str(), value.as_str());
                        }
                        let sv = to_chars(sec.as_str());
                        match section_index(&self.sections, &sv) {
                            Some(i) => {
                                let ghost old_secs = self.sections@;
                                let mut s = RawSection {
                                    key: self.sections[i].key.clone(),
                                    name: self.sections[i].name.clone(),
                                    props: self.sections[i].props.duplicate(),
                                };
                                s.props.set(key.as_str(), value.as_str());
                                self.sections.set(i, s);
                                proof {
                                    assert(section_models(self.sections@) =~= section_models(
                                        old_secs,
                                    ).update(
                                        i as int,
                                        SectionModel {
                                            props: section_models(old_secs)[i as int].props.insert(
                                                lower(key@),
                                                value@,
                                            ),
                                            ..section_models(old_secs)[i as int]
                                        },
                                    ));
                                    assert forall|a: int, b: int|
                                        0 <= a < b < self.sections@.len() implies self.sections@[a].key@
                                        != self.sections@[b].key@ by {
                                        assert(self.sections@[a].key@ == old_secs[a].key@);
                                        assert(self.sections@[b].key@ == old_secs[b].key@);
                                    }
                                    assert forall|a: int| 0 <= a < self.sections@.len() implies (
                                    #[trigger] self.sections@[a]).props.wf() by {
                                        if a != i {
                                            assert(self.sections@[a] == old_secs[a]);
                                        }
                                    }
                                }
                            },
                            None => {},
                        }
                        Some(sec)
                    },
                    None => None,
                }
            },
            _ => current,
        }
    }

    /// Enters an included file; refused when it is already being read
    /// (a circular include), naming it as `shown`.
    pub fn enter_include(&mut self, canonical: &str, shown: &str) -> (r: Result<(), ParseError>)
        ensures
            final(self).sections == old(self).sections,
            final(self).variables == old(self).variables,
            (exists|i: int| 0 <= i < old(self).include_stack@.len() && old(
                self,
            ).include_stack@[i]@ == canonical@) ==> (r matches Err(ParseError::CircularInclude(s))
                && s@ == shown@) && final(self).include_stack == old(self).include_stack,
            r is Err ==> (exists|i: int| 0 <= i < old(self).include_stack@.len() && old(
                self,
            ).include_stack@[i]@ == canonical@),
            r is Ok ==> final(self).include_stack@.len() == old(self).include_stack@.len() + 1
                && final(self).include_stack@.drop_last() == old(self).include_stack@
                && final(self).include_stack@.last()@ == canonical@,
    {
        let cv = to_chars(canonical);
        let mut i: usize = 0;
        while i < self.include_stack.len()
            invariant
                cv@ == canonical@,
                i <= self.include_stack@.len(),
                forall|j: int| 0 <= j < i ==> self.include_stack@[j]@ != canonical@,
            decreases self.include_stack.len() - i,
        {
            if eq_str(&cv, self.include_stack[i].as_str()) {
                return Err(ParseError::CircularInclude(shown.to_string()));
            }
            i = i + 1;
        }
        let ghost old_stack = self.include_stack@;
        self.include_stack.push(canonical.to_string());
        assert(self.include_stack@.drop_last() =~= old_stack);
        Ok(())
    }

    /// Leaves the innermost included file.
    pub fn leave_include(&mut self)
        ensures
            final(self).sections == old(self).sections,
            final(self).variables == old(self).variables,
            old(self).include_stack@.len() > 0 ==> final(self).include_stack@ == old(
                self,
            ).include_stack@.drop_last(),
            old(self).include_stack@.len() == 0 ==> final(self).include_stack@.len() == 0,
    {
        self.include_stack.pop();
    }
}

} // verus!
verus! {

/// Applies the styles `names`, last one first: each adds the options the
/// meter does not have yet.
pub open spec fn apply_styles(
    m: Map<Seq<char>, Seq<char>>,
    secs: Seq<SectionModel>,
    names: Seq<Seq<char>>,
) -> Map<Seq<char>, Seq<char>>
    decreases names.len(),
{
    if names.len() == 0 {
        m
    } else {
        let i = find_section(secs, lower(trim(names.last())), 0);
        let m2 = if 0 <= i < secs.len() {
            merge_missing(m, secs[i].props)
        } else {
            m
        };
        apply_styles(m2, secs, names.drop_last())
    }
}

/// A meter's options after its `MeterStyle` (a `|`-separated list).
pub open spec fn styled(m: Map<Seq<char>, Seq<char>>, secs: Seq<SectionModel>) -> Map<
    Seq<char>,
    Seq<char>,
> {
    if m.contains_key(lower("meterstyle"@)) {
        apply_styles(m, secs, split_on(m[lower("meterstyle"@)], '|'))
    } else {
        m
    }
}

/// Fills a meter's missing options from its styles. The meter's own
/// options win; among styles the rightmost wins.
pub fn apply_meter_styles(props: &mut VariableMap, sections: &Vec<RawSection>)
    requires
        old(props).wf(),
        sections_wf(sections@),
    ensures
        final(props).wf(),
        final(props)@ == styled(old(props)@, section_models(sections@)),
{
    let ghost secs = section_models(sections@);
    let styles = match props.get("meterstyle") {
        Some(s) => s.to_string(),
        None => {
            return ;
        },
    };
    let names = split_str(styles.as_str(), '|');
    let ghost start = props@;
    let mut n = names.len();
    assert(views(names@).take(n as int) =~= views(names@));
    while n > 0
        invariant
            props.wf(),
            sections_wf(sections@),
            secs == section_models(sections@),
            n <= names@.len(),
            apply_styles(props@, secs, views(names@).take(n as int)) == apply_styles(
                start,
                secs,
                views(names@),
            ),
        decreases n,
    {
        let nv = to_chars(names[n - 1].as_str());
        assert(nv@.subrange(0, nv@.len() as int) =~= nv@);
        let (a, b) = trim_bounds(&nv, 0, nv.len());
        let ls = lower_range(&nv, a, b);
        proof {
            assert(views(names@).take(n as int).last() == nv@);
            assert(views(names@).take(n as int).drop_last() =~= views(names@).take(n - 1));
        }
        match section_index(sections, &ls) {
            Some(i) => {
                proof {
                    assert(sections@[i as int].props.wf());
                }
                props.insert_missing(&sections[i].props);
            },
            None => {},
        }
        n = n - 1;
    }
    assert(views(names@).take(names@.len() as int) =~= views(names@));
}

/// A measure's options with those of its `Parent` section added.
pub open spec fn with_parent(m: Map<Seq<char>, Seq<char>>, secs: Seq<SectionModel>) -> Map<
    Seq<char>,
    Seq<char>,
> {
    if m.contains_key(lower("parent"@)) {
        let i = find_section(secs, lower(m[lower("parent"@)]), 0);
        if 0 <= i < secs.len() {
            merge_missing(m, secs[i].props)
        } else {
            m
        }
    } else {
        m
    }
}

/// Every option value expanded and unquoted.
pub open spec fn expanded_props(
    m: Map<Seq<char>, Seq<char>>,
    vars: Map<Seq<char>, Seq<char>>,
) -> Map<Seq<char>, Seq<char>> {
    Map::new(
        |k: Seq<char>| m.contains_key(k),
        |k: Seq<char>| unquoted(crate::variables::expand_spec(vars, m[k])),
    )
}

/// An optional option, expanded.
pub open spec fn opt_expanded(
    m: Map<Seq<char>, Seq<char>>,
    key: Seq<char>,
    vars: Map<Seq<char>, Seq<char>>,
) -> Option<Seq<char>> {
    if m.contains_key(lower(key)) {
        Some(crate::variables::expand_spec(vars, m[lower(key)]))
    } else {
        None
    }
}

/// The option is present and exactly `1`.
pub open spec fn is_one(m: Map<Seq<char>, Seq<char>>, key: Seq<char>) -> bool {
    m.contains_key(lower(key)) && m[lower(key)] == "1"@
}

/// The model of a measure configuration.
pub struct MeasureModel {
    pub name: Seq<char>,
    pub measure_type: Seq<char>,
    pub plugin: Option<Seq<char>>,
    pub format: Option<Seq<char>>,
    pub formula: Option<Seq<char>>,
    pub update_divider: u32,
    pub disabled: bool,
    pub dynamic_variables: bool,
    pub properties: Map<Seq<char>, Seq<char>>,
}

/// The configuration built from section `i` with variables `vars`.
pub open spec fn measure_model(
    secs: Seq<SectionModel>,
    i: int,
    vars: Map<Seq<char>, Seq<char>>,
) -> MeasureModel {
    let p = with_parent(secs[i].props, secs);
    let ud = if p.contains_key(lower("updatedivider"@)) {
        crate::text::parse_uint(p[lower("updatedivider"@)], u32::MAX as nat)
    } else {
        None
    };
    MeasureModel {
        name: secs[i].name,
        measure_type: if p.contains_key(lower("measure"@)) {
            p[lower("measure"@)]
        } else {
            seq![]
        },
        plugin: opt_expanded(p, "plugin"@, vars),
        format: opt_expanded(p, "format"@, vars),
        formula: opt_expanded(p, "formula"@, vars),
        update_divider: match ud {
            Some(n) => n as u32,
            None => 1,
        },
        disabled: is_one(p, "disabled"@),
        dynamic_variables: is_one(p, "dynamicvariables"@),
        properties: expanded_props(p, vars),
    }
}

pub open spec fn measure_view(c: MeasureConfig) -> MeasureModel {
    MeasureModel {
        name: c.name@,
        measure_type: c.measure_type@,
        plugin: os(c.plugin),
        format: os(c.format),
        formula: os(c.formula),
        update_divider: c.update_divider,
        disabled: c.disabled,
        dynamic_variables: c.dynamic_variables,
        properties: c.properties@,
    }
}

impl IniState {
    /// An option, expanded with the skin's variables.
    fn expanded_opt(&self, props: &VariableMap, key: &str) -> (r: Option<String>)
        requires
            self.wf(),
            props.wf(),
        ensures
            os(r) == opt_expanded(props@, key@, self.variables@),
    {
        match props.get(key) {
            Some(v) => Some(self.variables.expand(v)),
            None => None,
        }
    }

    /// Builds the measure configuration of section `i`.
    pub fn build_measure(&self, i: usize) -> (r: MeasureConfig)
        requires
            self.wf(),
            i < self.sections@.len(),
        ensures
            r.properties.wf(),
            measure_view(r) == measure_model(section_models(self.sections@), i as int, self.variables@),
    {
        let ghost secs = section_models(self.sections@);
        proof {
            assert(self.sections@[i as int].props.wf());
        }
        let mut props = self.sections[i].props.duplicate();
        match props.get("parent") {
            Some(parent) => {
                let pv = to_chars(parent);
                let lp = lower_range(&pv, 0, pv.len());
                assert(pv@.subrange(0, pv@.len() as int) =~= pv@);
                match section_index(&self.sections, &lp) {
                    Some(j) => {
                        proof {
                            assert(self.sections@[j as int].props.wf());
                        }
                        let pp = self.sections[j].props.duplicate();
                        props.insert_missing(&pp);
                    },
                    None => {},
                }
            },
            None => {},
        }
        assert(props@ == with_parent(secs[i as int].props, secs));
        let measure_type = match props.get("measure") {
            Some(v) => v.to_string(),
            None => String::new(),
        };
        let plugin = self.expanded_opt(&props, "plugin");
        let format = self.expanded_opt(&props, "format");
        let formula = self.expanded_opt(&props, "formula");
        let update_divider: u32 = match props.get("updatedivider") {
            Some(v) => match crate::text::parse_uint_str(v, u32::MAX as u64) {
                Some(n) => n as u32,
                None => 1,
            },
            None => 1,
        };
        let disabled = match props.get("disabled") {
            Some(v) => str_eq(v, "1"),
            None => false,
        };
        let dynamic_variables = match props.get("dynamicvariables") {
            Some(v) => str_eq(v, "1"),
            None => false,
        };
        let properties = self.expand_all(&props);
        MeasureConfig {
            name: self.sections[i].name.clone(),
            measure_type,
            plugin,
            format,
            formula,
            update_divider,
            disabled,
            dynamic_variables,
            properties,
        }
    }

    /// Every value of `props` expanded and unquoted.
    pub fn expand_all(&self, props: &VariableMap) -> (r: VariableMap)
        requires
            self.wf(),
            props.wf(),
        ensures
            r.wf(),
            r@ == expanded_props(props@, self.variables@),
    {
        let pairs = props.iter();
        proof {
            props.lemma_keys_lower();
        }
        let mut out = VariableMap::empty();
        let mut i: usize = 0;
        while i < pairs.len()
            invariant
                self.wf(),
                props.wf(),
                out.wf(),
                i <= pairs@.len(),
                forall|j: int| 0 <= j < pairs@.len() ==> #[trigger] props@.contains_key(pairs@[j].0@)
                    && props@[pairs@[j].0@] == pairs@[j].1@,
                forall|k: Seq<char>| #[trigger] props@.contains_key(k) ==> exists|j: int|
                    0 <= j < pairs@.len() && pairs@[j].0@ == k,
                forall|k: Seq<char>| #[trigger] props@.contains_key(k) ==> lower(k) == k,
                forall|k: Seq<char>| #[trigger]
                    out@.contains_key(k) <==> exists|j: int| 0 <= j < i && pairs@[j].0@ == k,
                forall|k: Seq<char>| #[trigger]
                    out@.contains_key(k) ==> out@[k] == unquoted(
                        crate::variables::expand_spec(self.variables@, props@[k]),
                    ),
            decreases pairs.len() - i,
        {
            let k = pairs[i].0.as_str();
            proof {
                assert(props@.contains_key(pairs@[i as int].0@));
                assert(lower(k@) == k@);
            }
            let e = self.variables.expand(pairs[i].1.as_str());
            let q = strip_quotes(e.as_str());
            out.set(k, q.as_str());
            proof {
                assert forall|kk: Seq<char>| #[trigger]
                    out@.contains_key(kk) <==> exists|j: int| 0 <= j < i + 1 && pairs@[j].0@ == kk by {
                    if kk == k@ {
                        assert(pairs@[i as int].0@ == kk);
                    } else if exists|j: int| 0 <= j < i + 1 && pairs@[j].0@ == kk {
                        let j = choose|j: int| 0 <= j < i + 1 && pairs@[j].0@ == kk;
                        assert(j < i);
                    }
                }
            }
            i = i + 1;
        }
        proof {
            assert(out@ =~= expanded_props(props@, self.variables@));
        }
        out
    }
}

/// An option value meaning "on": `1` or `true` in any case.
pub open spec fn flag_on(v: Seq<char>) -> bool {
    v == "1"@ || eq_ignore_case(v, "true"@)
}

/// Reads a `[Rainmeter]` flag such as `AccurateText` or `DynamicWindowSize`.
pub fn flag_value(v: &str) -> (r: bool)
    ensures
        r == flag_on(v@),
{
    str_eq(v, "1") || eq_ignore_case_str(v, "true")
}

} // verus!
verus! {

/// The section a style name selects, or -1.
pub open spec fn style_section(secs: Seq<SectionModel>, name: Seq<char>) -> int {
    find_section(secs, lower(trim(name)), 0)
}

/// The position of the rightmost style in `names` whose section defines
/// `k`, or -1.
pub open spec fn last_style_with(secs: Seq<SectionModel>, names: Seq<Seq<char>>, k: Seq<char>) -> int
    decreases names.len(),
{
    if names.len() == 0 {
        -1
    } else {
        let i = style_section(secs, names.last());
        if 0 <= i < secs.len() && secs[i].props.contains_key(k) {
            names.len() - 1
        } else {
            last_style_with(secs, names.drop_last(), k)
        }
    }
}

proof fn lemma_last_style_range(secs: Seq<SectionModel>, names: Seq<Seq<char>>, k: Seq<char>)
    ensures
        -1 <= last_style_with(secs, names, k) < names.len(),
    decreases names.len(),
{
    if names.len() > 0 {
        lemma_last_style_range(secs, names.drop_last(), k);
    }
}

/// Law: a meter is anti-aliased exactly when its `AntiAlias` option, its
/// styles applied, reads `1`, or `true` in any ASCII case; without the
/// option it is not. This is the reading `flag_value` gives the
/// `[Rainmeter]` flags. `Hidden` and `DynamicVariables` are on only when
/// they read exactly `1`.
pub proof fn law_meter_anti_alias(secs: Seq<SectionModel>, i: int, vars: Map<Seq<char>, Seq<char>>)
    ensures
        ({
            let p = styled(secs[i].props, secs);
            &&& meter_model(secs, i, vars).anti_alias == (p.contains_key("antialias"@) && (
            p["antialias"@] == "1"@ || lower(p["antialias"@]) == "true"@))
            &&& meter_model(secs, i, vars).anti_alias == (p.contains_key("antialias"@) && flag_on(
                p["antialias"@],
            ))
            &&& meter_model(secs, i, vars).hidden == (p.contains_key("hidden"@) && p["hidden"@] == "1"@)
            &&& meter_model(secs, i, vars).dynamic_variables == (p.contains_key("dynamicvariables"@)
                && p["dynamicvariables"@] == "1"@)
        }),
{
    reveal_strlit("hidden");
    reveal_strlit("dynamicvariables");
    assert(lower("hidden"@) =~= "hidden"@);
    assert(lower("dynamicvariables"@) =~= "dynamicvariables"@);
    reveal_strlit("antialias");
    reveal_strlit("true");
    assert(lower("antialias"@) =~= "antialias"@);
    assert(lower("true"@) =~= "true"@);
}

/// Meter style precedence: a meter's own option always wins; an option it
/// lacks comes from the rightmost of its styles that defines it, and is
/// absent when none does.
pub proof fn law_meter_style_precedence(
    m: Map<Seq<char>, Seq<char>>,
    secs: Seq<SectionModel>,
    names: Seq<Seq<char>>,
    k: Seq<char>,
)
    ensures
        m.contains_key(k) ==> apply_styles(m, secs, names).contains_key(k) && apply_styles(
            m,
            secs,
            names,
        )[k] == m[k],
        !m.contains_key(k) ==> (apply_styles(m, secs, names).contains_key(k) <==> last_style_with(
            secs,
            names,
            k,
        ) != -1),
        !m.contains_key(k) && last_style_with(secs, names, k) != -1 ==> apply_styles(
            m,
            secs,
            names,
        )[k] == secs[style_section(secs, names[last_style_with(secs, names, k)])].props[k],
    decreases names.len(),
{
    if names.len() > 0 {
        let i = find_section(secs, lower(trim(names.last())), 0);
        let m2 = if 0 <= i < secs.len() {
            merge_missing(m, secs[i].props)
        } else {
            m
        };
        law_meter_style_precedence(m2, secs, names.drop_last(), k);
        lemma_last_style_range(secs, names, k);
        lemma_last_style_range(secs, names.drop_last(), k);
        let last = last_style_with(secs, names, k);
        if last != -1 && last < names.len() - 1 {
            assert(names.drop_last()[last] == names[last]);
        }
    }
}

} // verus!
verus! {

/// The position a `MeasureName` option takes among a meter's measures:
/// `MeasureName` is first, `MeasureNameN` is N-th.
pub open spec fn measure_slot(k: Seq<char>) -> Option<nat> {
    if k == "measurename"@ {
        Some(1)
    } else if starts_with(k, "measurename"@) {
        crate::text::parse_uint(k.skip(11), usize::MAX as nat)
    } else {
        None
    }
}

/// The (position, value) pairs of the measure options, in key order.
pub open spec fn measure_slots(keys: Seq<Seq<char>>, m: Map<Seq<char>, Seq<char>>) -> Seq<
    (nat, Seq<char>),
>
    decreases keys.len(),
{
    if keys.len() == 0 {
        Seq::empty()
    } else {
        let rest = measure_slots(keys.drop_last(), m);
        match measure_slot(keys.last()) {
            Some(n) => rest.push((n, m[keys.last()])),
            None => rest,
        }
    }
}

/// The first index from `i` whose position is greater than `n`, else the
/// length.
pub open spec fn first_after(s: Seq<(nat, Seq<char>)>, n: nat, i: int) -> int
    decreases s.len() - i,
{
    if i < 0 || i >= s.len() {
        s.len() as int
    } else if s[i].0 > n {
        i
    } else {
        first_after(s, n, i + 1)
    }
}

/// Stable sort by position: each pair goes after every pair whose
/// position is not greater.
pub open spec fn sort_slots(s: Seq<(nat, Seq<char>)>) -> Seq<(nat, Seq<char>)>
    decreases s.len(),
{
    if s.len() == 0 {
        Seq::empty()
    } else {
        let t = sort_slots(s.drop_last());
        t.insert(first_after(t, s.last().0, 0), s.last())
    }
}

pub open spec fn slot_values(s: Seq<(nat, Seq<char>)>) -> Seq<Seq<char>> {
    Seq::new(s.len(), |i: int| s[i].1)
}

/// A meter's measures in position order (ties in key order).
pub open spec fn ordered_measures(keys: Seq<Seq<char>>, m: Map<Seq<char>, Seq<char>>) -> Seq<Seq<char>> {
    slot_values(sort_slots(measure_slots(keys, m)))
}

pub open spec fn slots_sorted(s: Seq<(nat, Seq<char>)>) -> bool {
    forall|i: int, j: int| 0 <= i < j < s.len() ==> s[i].0 <= s[j].0
}

proof fn lemma_first_after(s: Seq<(nat, Seq<char>)>, n: nat, i: int)
    requires
        0 <= i <= s.len(),
    ensures
        i <= first_after(s, n, i) <= s.len(),
        forall|j: int| i <= j < first_after(s, n, i) ==> s[j].0 <= n,
        first_after(s, n, i) < s.len() ==> s[first_after(s, n, i)].0 > n,
    decreases s.len() - i,
{
    if i < s.len() && s[i].0 <= n {
        lemma_first_after(s, n, i + 1);
    }
}

/// Sorting keeps every pair and orders them by position.
pub proof fn law_measure_slots_sorted(s: Seq<(nat, Seq<char>)>)
    ensures
        slots_sorted(sort_slots(s)),
        sort_slots(s).len() == s.len(),
        sort_slots(s).to_multiset() == s.to_multiset(),
    decreases s.len(),
{
    if s.len() > 0 {
        law_measure_slots_sorted(s.drop_last());
        let t = sort_slots(s.drop_last());
        let e = s.last();
        lemma_first_after(t, e.0, 0);
        let p = first_after(t, e.0, 0);
        lemma_insert_keeps_sorted(t, p, e);
        lemma_insert_keeps_items(t, p, e);
        assert(s =~= s.drop_last().push(e));
        vstd::seq_lib::to_multiset_build(s.drop_last(), e);
        assert(sort_slots(s) == t.insert(p, e));
    } else {
        assert(s =~= Seq::<(nat, Seq<char>)>::empty());
        assert(sort_slots(s) =~= s);
    }
}

/// Inserting an item at the first place whose key is above the item's
/// key keeps a sorted sequence sorted.
proof fn lemma_insert_keeps_sorted(t: Seq<(nat, Seq<char>)>, p: int, e: (nat, Seq<char>))
    requires
        slots_sorted(t),
        0 <= p <= t.len(),
        forall|j: int| 0 <= j < p ==> #[trigger] t[j].0 <= e.0,
        p < t.len() ==> t[p].0 > e.0,
    ensures
        slots_sorted(t.insert(p, e)),
{
    if p < t.len() {
        assert forall|j: int| p <= j < t.len() implies t[j].0 > e.0 by {
            if j > p {
                assert(t[p].0 <= t[j].0);
            }
        }
    }
    let u = t.insert(p, e);
    assert forall|i: int, j: int| 0 <= i < j < u.len() implies u[i].0 <= u[j].0 by {
        if j < p {
            assert(u[i] == t[i] && u[j] == t[j]);
        } else if j == p {
            assert(u[i] == t[i]);
        } else if i < p {
            assert(u[i] == t[i] && u[j] == t[j - 1]);
            if i < j - 1 {
                assert(t[i].0 <= t[j - 1].0);
            }
        } else if i == p {
            assert(u[j] == t[j - 1]);
        } else {
            assert(u[i] == t[i - 1] && u[j] == t[j - 1]);
        }
    }
}

/// Inserting an item adds exactly that item to the multiset of items.
proof fn lemma_insert_keeps_items(t: Seq<(nat, Seq<char>)>, p: int, e: (nat, Seq<char>))
    requires
        0 <= p <= t.len(),
    ensures
        t.insert(p, e).to_multiset() == t.to_multiset().insert(e),
        t.insert(p, e).len() == t.len() + 1,
{
    broadcast use vstd::multiset::group_multiset_axioms;
    let u = t.insert(p, e);
    assert(u.remove(p) =~= t);
    u.to_multiset_ensures();
    assert(u[p] == e);
    assert(u.contains(e));
    assert(u.to_multiset().count(e) > 0);
    assert(u.to_multiset() =~= t.to_multiset().insert(e));
}

} // verus!
verus! {

/// The text options of a meter. `FontSize`, `W` and `H` are kept as
/// written: they are numbers or formulas, evaluated by the caller.
#[derive(Debug, Clone)]
pub struct MeterOptions {
    pub name: String,
    pub meter_type: String,
    pub measure_name: Option<String>,
    pub measure_names: Vec<String>,
    pub font_face: Option<String>,
    pub font_size: Option<String>,
    pub font_color: Option<String>,
    pub text: Option<String>,
    pub anti_alias: bool,
    pub x: Option<String>,
    pub y: Option<String>,
    pub w: Option<String>,
    pub h: Option<String>,
    pub solid_color: Option<String>,
    pub hidden: bool,
    pub dynamic_variables: bool,
    pub meter_style: Option<String>,
    pub properties: VariableMap,
}

/// An option as written.
pub open spec fn opt_raw(m: Map<Seq<char>, Seq<char>>, key: Seq<char>) -> Option<Seq<char>> {
    if m.contains_key(lower(key)) {
        Some(m[lower(key)])
    } else {
        None
    }
}

/// An option expanded and unquoted.
pub open spec fn opt_text(
    m: Map<Seq<char>, Seq<char>>,
    key: Seq<char>,
    vars: Map<Seq<char>, Seq<char>>,
) -> Option<Seq<char>> {
    if m.contains_key(lower(key)) {
        Some(unquoted(crate::variables::expand_spec(vars, m[lower(key)])))
    } else {
        None
    }
}

/// The model of a meter's options.
pub struct MeterModel {
    pub name: Seq<char>,
    pub meter_type: Seq<char>,
    pub font_face: Option<Seq<char>>,
    pub font_size: Option<Seq<char>>,
    pub font_color: Option<Seq<char>>,
    pub text: Option<Seq<char>>,
    pub anti_alias: bool,
    pub x: Option<Seq<char>>,
    pub y: Option<Seq<char>>,
    pub w: Option<Seq<char>>,
    pub h: Option<Seq<char>>,
    pub solid_color: Option<Seq<char>>,
    pub hidden: bool,
    pub dynamic_variables: bool,
    pub meter_style: Option<Seq<char>>,
    pub properties: Map<Seq<char>, Seq<char>>,
}

/// The options of the meter in section `i`, its styles applied.
pub open spec fn meter_model(secs: Seq<SectionModel>, i: int, vars: Map<Seq<char>, Seq<char>>) -> MeterModel {
    let p = styled(secs[i].props, secs);
    MeterModel {
        name: secs[i].name,
        meter_type: if p.contains_key(lower("meter"@)) {
            p[lower("meter"@)]
        } else {
            Seq::empty()
        },
        font_face: opt_text(p, "fontface"@, vars),
        font_size: opt_raw(p, "fontsize"@),
        font_color: opt_text(p, "fontcolor"@, vars),
        text: opt_text(p, "text"@, vars),
        anti_alias: p.contains_key(lower("antialias"@)) && flag_on(p[lower("antialias"@)]),
        x: opt_expanded(p, "x"@, vars),
        y: opt_expanded(p, "y"@, vars),
        w: opt_raw(p, "w"@),
        h: opt_raw(p, "h"@),
        solid_color: opt_expanded(p, "solidcolor"@, vars),
        hidden: is_one(p, "hidden"@),
        dynamic_variables: is_one(p, "dynamicvariables"@),
        meter_style: opt_raw(p, "meterstyle"@),
        properties: expanded_props(p, vars),
    }
}

pub open spec fn meter_view(o: MeterOptions) -> MeterModel {
    MeterModel {
        name: o.name@,
        meter_type: o.meter_type@,
        font_face: os(o.font_face),
        font_size: os(o.font_size),
        font_color: os(o.font_color),
        text: os(o.text),
        anti_alias: o.anti_alias,
        x: os(o.x),
        y: os(o.y),
        w: os(o.w),
        h: os(o.h),
        solid_color: os(o.solid_color),
        hidden: o.hidden,
        dynamic_variables: o.dynamic_variables,
        meter_style: os(o.meter_style),
        properties: o.properties@,
    }
}

fn measure_slot_exec(k: &str) -> (r: Option<usize>)
    ensures
        match r {
            Some(n) => measure_slot(k@) == Some(n as nat),
            None => measure_slot(k@) is None,
        },
{
    if str_eq(k, "measurename") {
        return Some(1);
    }
    let v = to_chars(k);
    if starts_with_str(&v, "measurename") {
        proof {
            reveal_strlit("measurename");
        }
        assert(v@.skip(11) =~= v@.subrange(11, v@.len() as int));
        match crate::text::parse_uint_range(&v, 11, v.len(), usize::MAX as u64) {
            Some(n) => Some(n as usize),
            None => None,
        }
    } else {
        None
    }
}

pub open spec fn slot_views(v: Seq<(usize, String)>) -> Seq<(nat, Seq<char>)> {
    Seq::new(v.len(), |i: int| (v[i].0 as nat, v[i].1@))
}

/// Sorts (position, text) pairs by position, keeping the order of equal
/// positions (insertion sort).
pub fn sort_slot_pairs(slots: &Vec<(usize, String)>) -> (sorted: Vec<(usize, String)>)
    ensures
        slot_views(sorted@) == sort_slots(slot_views(slots@)),
{
    let mut sorted: Vec<(usize, String)> = Vec::new();
    let ghost sv = slot_views(slots@);
    let mut k: usize = 0;
    while k < slots.len()
        invariant
            sv == slot_views(slots@),
            k <= slots@.len(),
            sorted@.len() == k,
            slot_views(sorted@) == sort_slots(sv.take(k as int)),
        decreases slots.len() - k,
    {
        assert(sv.take(k + 1).drop_last() =~= sv.take(k as int));
        let n = slots[k].0;
        let ghost t = slot_views(sorted@);
        let mut p: usize = 0;
        while p < sorted.len() && sorted[p].0 <= n
            invariant
                p <= sorted@.len(),
                t == slot_views(sorted@),
                first_after(t, n as nat, 0) == first_after(t, n as nat, p as int),
            decreases sorted.len() - p,
        {
            p = p + 1;
        }
        assert(first_after(t, n as nat, p as int) == p);
        let e = (n, slots[k].1.clone());
        sorted.insert(p, e);
        assert(slot_views(sorted@) =~= t.insert(p as int, (n as nat, slots@[k as int].1@)));
        assert(sv.take(k + 1).last() == (n as nat, slots@[k as int].1@));
        k = k + 1;
    }
    assert(sv.take(slots@.len() as int) =~= sv);
    sorted
}

/// A meter's measure names, ordered by their `MeasureName` positions.
pub fn ordered_measure_names(props: &VariableMap) -> (r: Vec<String>)
    requires
        props.wf(),
    ensures
        views(r@) == ordered_measures(props.key_order(), props@),
{
    let pairs = props.iter();
    let ghost keys = props.key_order();
    let mut slots: Vec<(usize, String)> = Vec::new();
    let mut i: usize = 0;
    while i < pairs.len()
        invariant
            props.wf(),
            keys == props.key_order(),
            pairs@.len() == keys.len(),
            forall|j: int| 0 <= j < pairs@.len() ==> #[trigger] pairs@[j].0@ == keys[j],
            forall|j: int| 0 <= j < pairs@.len() ==> #[trigger] props@.contains_key(pairs@[j].0@)
                && props@[pairs@[j].0@] == pairs@[j].1@,
            i <= pairs@.len(),
            slot_views(slots@) == measure_slots(keys.take(i as int), props@),
        decreases pairs.len() - i,
    {
        assert(keys.take(i + 1).drop_last() =~= keys.take(i as int));
        assert(keys.take(i + 1).last() == pairs@[i as int].0@);
        let ghost before = slots@;
        match measure_slot_exec(pairs[i].0.as_str()) {
            Some(n) => {
                assert(props@.contains_key(pairs@[i as int].0@));
                assert(props@[pairs@[i as int].0@] == pairs@[i as int].1@);
                slots.push((n, pairs[i].1.clone()));
                assert(slot_views(slots@) =~= slot_views(before).push((n as nat, pairs@[i as int].1@)));
            },
            None => {},
        }
        i = i + 1;
    }
    assert(keys.take(pairs@.len() as int) =~= keys);
    let sorted = sort_slot_pairs(&slots);
    let mut out: Vec<String> = Vec::new();
    let mut j: usize = 0;
    while j < sorted.len()
        invariant
            j <= sorted@.len(),
            out@.len() == j,
            views(out@) == slot_values(slot_views(sorted@)).take(j as int),
        decreases sorted.len() - j,
    {
        let ghost before = out@;
        let v = sorted[j].1.clone();
        out.push(v);
        assert(out@[j as int]@ == slot_values(slot_views(sorted@))[j as int]);
        assert forall|q: int| 0 <= q < j implies out@[q] == before[q] by {}
        j = j + 1;
        assert(views(out@) =~= slot_values(slot_views(sorted@)).take(j as int));
    }
    assert(slot_values(slot_views(sorted@)).take(sorted@.len() as int) =~= slot_values(slot_views(sorted@)));
    out
}

fn raw_opt(props: &VariableMap, key: &str) -> (r: Option<String>)
    requires
        props.wf(),
    ensures
        os(r) == opt_raw(props@, key@),
{
    match props.get(key) {
        Some(v) => Some(v.to_string()),
        None => None,
    }
}

impl IniState {
    /// An option, expanded and unquoted.
    fn text_opt(&self, props: &VariableMap, key: &str) -> (r: Option<String>)
        requires
            self.wf(),
            props.wf(),
        ensures
            os(r) == opt_text(props@, key@, self.variables@),
    {
        match props.get(key) {
            Some(v) => {
                let e = self.variables.expand(v);
                Some(strip_quotes(e.as_str()))
            },
            None => None,
        }
    }

    /// Builds the options of the meter in section `i`, its styles applied.
    pub fn build_meter(&self, i: usize) -> (r: MeterOptions)
        requires
            self.wf(),
            i < self.sections@.len(),
        ensures
            r.properties.wf(),
            meter_view(r) == meter_model(section_models(self.sections@), i as int, self.variables@),
            views(r.measure_names@) == ordered_measures(r.properties.key_order(), r.properties@),
            os(r.measure_name) == (if r.measure_names@.len() > 0 {
                Some(r.measure_names@[0]@)
            } else {
                None
            }),
    {
        proof {
            assert(self.sections@[i as int].props.wf());
        }
        let mut props = self.sections[i].props.duplicate();
        apply_meter_styles(&mut props, &self.sections);
        let properties = self.expand_all(&props);
        let measure_names = ordered_measure_names(&properties);
        let measure_name = if measure_names.len() > 0 {
            Some(measure_names[0].clone())
        } else {
            None
        };
        let meter_type = match props.get("meter") {
            Some(v) => v.to_string(),
            None => String::new(),
        };
        let anti_alias = match props.get("antialias") {
            Some(v) => flag_value(v),
            None => false,
        };
        let hidden = match props.get("hidden") {
            Some(v) => str_eq(v, "1"),
            None => false,
        };
        let dynamic_variables = match props.get("dynamicvariables") {
            Some(v) => str_eq(v, "1"),
            None => false,
        };
        MeterOptions {
            name: self.sections[i].name.clone(),
            meter_type,
            measure_name,
            measure_names,
            font_face: self.text_opt(&props, "fontface"),
            font_size: raw_opt(&props, "fontsize"),
            font_color: self.text_opt(&props, "fontcolor"),
            text: self.text_opt(&props, "text"),
            anti_alias,
            x: self.expanded_opt(&props, "x"),
            y: self.expanded_opt(&props, "y"),
            w: raw_opt(&props, "w"),
            h: raw_opt(&props, "h"),
            solid_color: self.expanded_opt(&props, "solidcolor"),
            hidden,
            dynamic_variables,
            meter_style: raw_opt(&props, "meterstyle"),
            properties,
        }
    }
}

} // verus!
verus! {

/// The first `@Include` line from `i` on, or the number of lines.
pub open spec fn first_include(ls: Seq<Seq<char>>, i: int) -> int
    decreases ls.len() - i,
{
    if i < 0 || i >= ls.len() {
        ls.len() as int
    } else if line_kind(ls[i]) is Include {
        i
    } else {
        first_include(ls, i + 1)
    }
}

/// The sections, variables and current section after reading `ls` in
/// order.
pub open spec fn apply_all(
    secs: Seq<SectionModel>,
    vars: Map<Seq<char>, Seq<char>>,
    ls: Seq<Seq<char>>,
    cur: Option<Seq<char>>,
) -> (Seq<SectionModel>, Map<Seq<char>, Seq<char>>, Option<Seq<char>>)
    decreases ls.len(),
{
    if ls.len() == 0 {
        (secs, vars, cur)
    } else {
        let (s1, v1, c1) = apply_all(secs, vars, ls.drop_last(), cur);
        apply_spec(s1, v1, line_kind(ls.last()), c1)
    }
}

/// What a skin's sections are for.
pub open spec fn section_role(s: SectionModel) -> int {
    if s.key == "rainmeter"@ || s.key == "variables"@ {
        0
    } else if s.props.contains_key(lower("measure"@)) {
        1
    } else if s.props.contains_key(lower("meter"@)) {
        2
    } else {
        0
    }
}

/// The positions of the sections of a role, in order.
pub open spec fn role_indices(secs: Seq<SectionModel>, role: int, n: int) -> Seq<int>
    decreases n,
{
    if n <= 0 {
        Seq::empty()
    } else if section_role(secs[n - 1]) == role {
        role_indices(secs, role, n - 1).push(n - 1)
    } else {
        role_indices(secs, role, n - 1)
    }
}

/// What a parsed skin holds. `Update` is kept as expanded text: it may be
/// a formula, evaluated by the caller.
#[derive(Debug, Clone)]
pub struct SkinParts {
    pub update: Option<String>,
    pub accurate_text: bool,
    pub dynamic_window_size: bool,
    pub measures: Vec<MeasureConfig>,
    pub meters: Vec<MeterOptions>,
}

impl IniState {
    /// Reads `lines` from `from` on in section `current`, up to the next
    /// `@Include` line or the end; returns where it stopped and the
    /// current section there.
    pub fn read_lines(&mut self, lines: &Vec<String>, from: usize, current: Option<String>) -> (r: (
        usize,
        Option<String>,
    ))
        requires
            old(self).wf(),
            from <= lines@.len(),
        ensures
            final(self).wf(),
            final(self).include_stack == old(self).include_stack,
            r.0 == first_include(views(lines@), from as int),
            (section_models(final(self).sections@), final(self).variables@, os(r.1)) == apply_all(
                section_models(old(self).sections@),
                old(self).variables@,
                views(lines@).subrange(from as int, r.0 as int),
                os(current),
            ),
    {
        let ghost ls = views(lines@);
        let ghost s0 = section_models(self.sections@);
        let ghost v0 = self.variables@;
        let mut i = from;
        let mut cur = current;
        assert(ls.subrange(from as int, from as int) =~= Seq::<Seq<char>>::empty());
        while i < lines.len()
            invariant
                self.wf(),
                self.include_stack == old(self).include_stack,
                ls == views(lines@),
                from <= i <= lines@.len(),
                s0 == section_models(old(self).sections@),
                v0 == old(self).variables@,
                first_include(ls, from as int) == first_include(ls, i as int),
                (section_models(self.sections@), self.variables@, os(cur)) == apply_all(
                    s0,
                    v0,
                    ls.subrange(from as int, i as int),
                    os(current),
                ),
            decreases lines.len() - i,
        {
            let line = classify_line(lines[i].as_str());
            if let IniLine::Include(_) = line {
                return (i, cur);
            }
            assert(ls.subrange(from as int, i + 1).drop_last() =~= ls.subrange(from as int, i as int));
            assert(ls.subrange(from as int, i + 1).last() == lines@[i as int]@);
            cur = self.apply_line(&line, cur);
            i = i + 1;
        }
        (i, cur)
    }

    /// Finishes a skin once every file is read: chained variables are
    /// resolved, then the `[Rainmeter]` settings are read and every other
    /// section with a `Measure` or `Meter` option is built, in order.
    pub fn finish(&mut self) -> (r: SkinParts)
        requires
            old(self).wf(),
        ensures
            final(self).wf(),
            final(self).sections == old(self).sections,
            final(self).variables@ == crate::variables::chain_rounds(
                old(self).variables@,
                old(self).variables.key_order(),
                16,
            ),
            r.measures@.len() == role_indices(section_models(old(self).sections@), 1, old(self).sections@.len() as int).len(),
            forall|j: int| 0 <= j < r.measures@.len() ==> measure_view(#[trigger] r.measures@[j]) == measure_model(
                section_models(old(self).sections@),
                role_indices(section_models(old(self).sections@), 1, old(self).sections@.len() as int)[j],
                final(self).variables@,
            ),
            r.meters@.len() == role_indices(section_models(old(self).sections@), 2, old(self).sections@.len() as int).len(),
            forall|j: int| 0 <= j < r.meters@.len() ==> meter_view(#[trigger] r.meters@[j]) == meter_model(
                section_models(old(self).sections@),
                role_indices(section_models(old(self).sections@), 2, old(self).sections@.len() as int)[j],
                final(self).variables@,
            ),
            forall|j: int| 0 <= j < r.meters@.len() ==> views(#[trigger] r.meters@[j].measure_names@)
                == ordered_measures(r.meters@[j].properties.key_order(), r.meters@[j].properties@),
            ({
                let secs = section_models(old(self).sections@);
                let ri = find_section(secs, "rainmeter"@, 0);
                if ri == -1 {
                    r.update is None && !r.accurate_text && !r.dynamic_window_size
                } else {
                    let p = secs[ri].props;
                    &&& os(r.update) == opt_expanded(p, "update"@, final(self).variables@)
                    &&& r.accurate_text == (p.contains_key(lower("accuratetext"@)) && flag_on(p[lower("accuratetext"@)]))
                    &&& r.dynamic_window_size == (p.contains_key(lower("dynamicwindowsize"@)) && flag_on(
                        p[lower("dynamicwindowsize"@)],
                    ))
                }
            }),
    {
        self.variables.resolve_chains();
        let ghost secs = section_models(self.sections@);
        let key = to_chars("rainmeter");
        assert(key@ == "rainmeter"@);
        let mut update: Option<String> = None;
        let mut accurate_text = false;
        let mut dynamic_window_size = false;
        match section_index(&self.sections, &key) {
            Some(ri) => {
                proof {
                    assert(self.sections@[ri as int].props.wf());
                }
                let props = &self.sections[ri].props;
                update = self.expanded_opt(props, "update");
                accurate_text = match props.get("accuratetext") {
                    Some(v) => flag_value(v),
                    None => false,
                };
                dynamic_window_size = match props.get("dynamicwindowsize") {
                    Some(v) => flag_value(v),
                    None => false,
                };
            },
            None => {},
        }
        let mut measures: Vec<MeasureConfig> = Vec::new();
        let mut meters: Vec<MeterOptions> = Vec::new();
        let mut i: usize = 0;
        while i < self.sections.len()
            invariant
                self.wf(),
                secs == section_models(self.sections@),
                i <= self.sections@.len(),
                measures@.len() == role_indices(secs, 1, i as int).len(),
                forall|j: int| 0 <= j < measures@.len() ==> measure_view(#[trigger] measures@[j]) == measure_model(
                    secs,
                    role_indices(secs, 1, i as int)[j],
                    self.variables@,
                ),
                meters@.len() == role_indices(secs, 2, i as int).len(),
                forall|j: int| 0 <= j < meters@.len() ==> meter_view(#[trigger] meters@[j]) == meter_model(
                    secs,
                    role_indices(secs, 2, i as int)[j],
                    self.variables@,
                ),
                forall|j: int| 0 <= j < meters@.len() ==> views(#[trigger] meters@[j].measure_names@)
                    == ordered_measures(meters@[j].properties.key_order(), meters@[j].properties@),
            decreases self.sections.len() - i,
        {
            proof {
                assert(self.sections@[i as int].props.wf());
            }
            let k = self.sections[i].key.as_str();
            let skip = str_eq(k, "rainmeter") || str_eq(k, "variables");
            let ghost mbefore = measures@;
            let ghost tbefore = meters@;
            if !skip && self.sections[i].props.contains_key("measure") {
                let m = self.build_measure(i);
                measures.push(m);
                proof {
                    assert(section_role(secs[i as int]) == 1);
                    assert forall|j: int| 0 <= j < measures@.len() implies measure_view(#[trigger] measures@[j]) == measure_model(
                        secs,
                        role_indices(secs, 1, i + 1)[j],
                        self.variables@,
                    ) by {
                        if j < mbefore.len() {
                            assert(measures@[j] == mbefore[j]);
                        }
                    }
                }
            } else if !skip && self.sections[i].props.contains_key("meter") {
                let m = self.build_meter(i);
                meters.push(m);
                proof {
                    assert(section_role(secs[i as int]) == 2);
                    assert forall|j: int| 0 <= j < meters@.len() implies meter_view(#[trigger] meters@[j]) == meter_model(
                        secs,
                        role_indices(secs, 2, i + 1)[j],
                        self.variables@,
                    ) by {
                        if j < tbefore.len() {
                            assert(meters@[j] == tbefore[j]);
                        }
                    }
                    assert forall|j: int| 0 <= j < meters@.len() implies views(#[trigger] meters@[j].measure_names@)
                        == ordered_measures(meters@[j].properties.key_order(), meters@[j].properties@) by {
                        if j < tbefore.len() {
                            assert(meters@[j] == tbefore[j]);
                        }
                    }
                }
            }
            i = i + 1;
        }
        SkinParts { update, accurate_text, dynamic_window_size, measures, meters }
    }
}

} // verus!
