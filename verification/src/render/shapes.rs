//! Shape meters: which `Shape`, `Shape2`, ... options are drawn and in
//! what order, and how a shape definition
//! (`Rectangle 0,0,(#W#*2),50 | Fill Color 255,0,0 | StrokeWidth 2`) reads.
use crate::ini::{slot_views, sort_slot_pairs, sort_slots};
use crate::text::{
    is_ws, lower, lower_str, starts_with, starts_with_str, string_of, to_chars, trim, trim_bounds,
    trim_str, views,
};
use crate::variables::VariableMap;
use vstd::prelude::*;

verus! {

/// The position of a (lower-case) shape option: `shape` is first,
/// `shapeN` is N-th.
pub open spec fn shape_slot(k: Seq<char>) -> Option<nat> {
    if k == "shape"@ {
        Some(1)
    } else if starts_with(k, "shape"@) {
        crate::text::parse_uint(k.skip(5), usize::MAX as nat)
    } else {
        None
    }
}

/// The (position, key) pairs of the shape options, in key order.
pub open spec fn shape_key_slots(keys: Seq<Seq<char>>) -> Seq<(nat, Seq<char>)>
    decreases keys.len(),
{
    if keys.len() == 0 {
        Seq::empty()
    } else {
        let rest = shape_key_slots(keys.drop_last());
        match shape_slot(keys.last()) {
            Some(n) => rest.push((n, keys.last())),
            None => rest,
        }
    }
}

fn shape_slot_exec(k: &str) -> (r: Option<usize>)
    ensures
        match r {
            Some(n) => shape_slot(k@) == Some(n as nat),
            None => shape_slot(k@) is None,
        },
{
    if crate::text::str_eq(k, "shape") {
        return Some(1);
    }
    let v = to_chars(k);
    if starts_with_str(&v, "shape") {
        proof {
            reveal_strlit("shape");
        }
        assert(v@.skip(5) =~= v@.subrange(5, v@.len() as int));
        match crate::text::parse_uint_range(&v, 5, v.len(), usize::MAX as u64) {
            Some(n) => Some(n as usize),
            None => None,
        }
    } else {
        None
    }
}

/// A shape meter's shape options as (position, key), ordered by position
/// (equal positions in key order).
pub fn ordered_shape_keys(props: &VariableMap) -> (r: Vec<(usize, String)>)
    requires
        props.wf(),
    ensures
        slot_views(r@) == sort_slots(shape_key_slots(props.key_order())),
{
    let pairs = props.iter();
    let ghost keys = props.key_order();
    let mut slots: Vec<(usize, String)> = Vec::new();
    let mut i: usize = 0;
    while i < pairs.len()
        invariant
            keys == props.key_order(),
            pairs@.len() == keys.len(),
            forall|j: int| 0 <= j < pairs@.len() ==> #[trigger] pairs@[j].0@ == keys[j],
            i <= pairs@.len(),
            slot_views(slots@) == shape_key_slots(keys.take(i as int)),
        decreases pairs.len() - i,
    {
        assert(keys.take(i + 1).drop_last() =~= keys.take(i as int));
        assert(keys.take(i + 1).last() == pairs@[i as int].0@);
        let ghost before = slots@;
        match shape_slot_exec(pairs[i].0.as_str()) {
            Some(n) => {
                slots.push((n, pairs[i].0.clone()));
                assert(slot_views(slots@) =~= slot_views(before).push((n as nat, pairs@[i as int].0@)));
            },
            None => {},
        }
        i = i + 1;
    }
    assert(keys.take(pairs@.len() as int) =~= keys);
    sort_slot_pairs(&slots)
}

/// What one `|`-separated modifier of a shape does. Texts are trimmed and
/// kept as written; colours and numbers are read by the caller.
#[derive(Debug, Clone)]
pub enum ShapeModifier {
    FillColor(String),
    FillNone,
    StrokeColor(String),
    StrokeNone,
    StrokeWidth(String),
    Rotate(String),
    Union(String),
    Intersect(String),
    Xor(String),
    Exclude(String),
    /// A modifier this engine does not apply.
    Other,
}

pub enum ShapeModifierView {
    FillColor(Seq<char>),
    FillNone,
    StrokeColor(Seq<char>),
    StrokeNone,
    StrokeWidth(Seq<char>),
    Rotate(Seq<char>),
    Union(Seq<char>),
    Intersect(Seq<char>),
    Xor(Seq<char>),
    Exclude(Seq<char>),
    Other,
}

impl View for ShapeModifier {
    type V = ShapeModifierView;

    open spec fn view(&self) -> ShapeModifierView {
        match self {
            ShapeModifier::FillColor(s) => ShapeModifierView::FillColor(s@),
            ShapeModifier::FillNone => ShapeModifierView::FillNone,
            ShapeModifier::StrokeColor(s) => ShapeModifierView::StrokeColor(s@),
            ShapeModifier::StrokeNone => ShapeModifierView::StrokeNone,
            ShapeModifier::StrokeWidth(s) => ShapeModifierView::StrokeWidth(s@),
            ShapeModifier::Rotate(s) => ShapeModifierView::Rotate(s@),
            ShapeModifier::Union(s) => ShapeModifierView::Union(s@),
            ShapeModifier::Intersect(s) => ShapeModifierView::Intersect(s@),
            ShapeModifier::Xor(s) => ShapeModifierView::Xor(s@),
            ShapeModifier::Exclude(s) => ShapeModifierView::Exclude(s@),
            ShapeModifier::Other => ShapeModifierView::Other,
        }
    }
}

/// The trimmed text after the first `n` characters.
pub open spec fn after(m: Seq<char>, n: int) -> Seq<char> {
    trim(m.skip(n))
}

/// How a (trimmed) modifier reads, by its lower-case beginning.
pub open spec fn modifier_of(m: Seq<char>) -> ShapeModifierView {
    let l = lower(m);
    if starts_with(l, "fill color"@) {
        ShapeModifierView::FillColor(after(m, 10))
    } else if starts_with(l, "fill none"@) {
        ShapeModifierView::FillNone
    } else if starts_with(l, "stroke color"@) {
        ShapeModifierView::StrokeColor(after(m, 12))
    } else if starts_with(l, "stroke none"@) {
        ShapeModifierView::StrokeNone
    } else if starts_with(l, "strokewidth"@) {
        ShapeModifierView::StrokeWidth(after(m, 11))
    } else if starts_with(l, "rotate"@) {
        ShapeModifierView::Rotate(after(m, 6))
    } else if starts_with(l, "union"@) {
        ShapeModifierView::Union(after(m, 5))
    } else if starts_with(l, "intersect"@) {
        ShapeModifierView::Intersect(after(m, 9))
    } else if starts_with(l, "xor"@) {
        ShapeModifierView::Xor(after(m, 3))
    } else if starts_with(l, "exclude"@) {
        ShapeModifierView::Exclude(after(m, 7))
    } else {
        ShapeModifierView::Other
    }
}

fn after_exec(v: &Vec<char>, n: usize) -> (r: String)
    requires
        n <= v@.len(),
    ensures
        r@ == after(v@, n as int),
{
    let (a, b) = trim_bounds(v, n, v.len());
    assert(v@.subrange(n as int, v@.len() as int) =~= v@.skip(n as int));
    string_of(v, a, b)
}

/// Reads one trimmed modifier.
pub fn read_modifier(m: &str) -> (r: ShapeModifier)
    ensures
        r@ == modifier_of(m@),
{
    let v = to_chars(m);
    let lv = crate::text::lower_range(&v, 0, v.len());
    proof {
        assert(v@.subrange(0, v@.len() as int) =~= v@);
        reveal_strlit("fill color");
        reveal_strlit("stroke color");
        reveal_strlit("strokewidth");
        reveal_strlit("rotate");
        reveal_strlit("union");
        reveal_strlit("intersect");
        reveal_strlit("xor");
        reveal_strlit("exclude");
    }
    if starts_with_str(&lv, "fill color") {
        ShapeModifier::FillColor(after_exec(&v, 10))
    } else if starts_with_str(&lv, "fill none") {
        ShapeModifier::FillNone
    } else if starts_with_str(&lv, "stroke color") {
        ShapeModifier::StrokeColor(after_exec(&v, 12))
    } else if starts_with_str(&lv, "stroke none") {
        ShapeModifier::StrokeNone
    } else if starts_with_str(&lv, "strokewidth") {
        ShapeModifier::StrokeWidth(after_exec(&v, 11))
    } else if starts_with_str(&lv, "rotate") {
        ShapeModifier::Rotate(after_exec(&v, 6))
    } else if starts_with_str(&lv, "union") {
        ShapeModifier::Union(after_exec(&v, 5))
    } else if starts_with_str(&lv, "intersect") {
        ShapeModifier::Intersect(after_exec(&v, 9))
    } else if starts_with_str(&lv, "xor") {
        ShapeModifier::Xor(after_exec(&v, 3))
    } else if starts_with_str(&lv, "exclude") {
        ShapeModifier::Exclude(after_exec(&v, 7))
    } else {
        ShapeModifier::Other
    }
}

/// A shape definition: its declaration, the shape it combines when the
/// declaration is `Combine <shape>`, and its modifiers.
#[derive(Debug, Clone)]
pub struct ShapeDefinition {
    pub declaration: String,
    pub combine: Option<String>,
    pub modifiers: Vec<ShapeModifier>,
}

pub open spec fn modifier_views(v: Seq<ShapeModifier>) -> Seq<ShapeModifierView> {
    v.map_values(|m: ShapeModifier| m@)
}

/// The trimmed `|`-separated parts of a definition.
pub open spec fn definition_parts(def: Seq<char>) -> Seq<Seq<char>> {
    crate::text::split_on(def, '|').map_values(|p: Seq<char>| trim(p))
}

/// The combined shape a declaration names, if it is `Combine <shape>`.
pub open spec fn combine_target(decl: Seq<char>) -> Option<Seq<char>> {
    if starts_with(lower(decl), "combine"@) {
        Some(after(decl, 7))
    } else {
        None
    }
}

/// Reads a shape definition.
pub fn parse_shape_definition(def: &str) -> (r: ShapeDefinition)
    ensures
        r.declaration@ == definition_parts(def@)[0],
        crate::ini::os(r.combine) == combine_target(definition_parts(def@)[0]),
        modifier_views(r.modifiers@) == definition_parts(def@).skip(1).map_values(
            |m: Seq<char>| modifier_of(m),
        ),
{
    let parts = crate::text::split_str(def, '|');
    let ghost pv = views(parts@);
    let decl = trim_str(parts[0].as_str());
    let dv = to_chars(decl.as_str());
    let ld = crate::text::lower_range(&dv, 0, dv.len());
    proof {
        assert(dv@.subrange(0, dv@.len() as int) =~= dv@);
        reveal_strlit("combine");
    }
    let combine = if starts_with_str(&ld, "combine") {
        Some(after_exec(&dv, 7))
    } else {
        None
    };
    let mut modifiers: Vec<ShapeModifier> = Vec::new();
    let mut i: usize = 1;
    assert(definition_parts(def@).len() == pv.len());
    while i < parts.len()
        invariant
            pv == views(parts@),
            pv == crate::text::split_on(def@, '|'),
            1 <= i <= parts@.len(),
            modifiers@.len() == i - 1,
            definition_parts(def@).len() == parts@.len(),
            modifier_views(modifiers@) == definition_parts(def@).skip(1).take(i - 1).map_values(
                |m: Seq<char>| modifier_of(m),
            ),
        decreases parts.len() - i,
    {
        let ghost before = modifiers@;
        let t = trim_str(parts[i].as_str());
        let m = read_modifier(t.as_str());
        modifiers.push(m);
        proof {
            let dp = definition_parts(def@);
            let target = dp.skip(1).take(i as int).map_values(|m: Seq<char>| modifier_of(m));
            assert(pv[i as int] == parts@[i as int]@);
            assert(dp[i as int] == trim(pv[i as int]));
            assert forall|k: int| 0 <= k < i implies modifier_views(modifiers@)[k] == target[k] by {
                if k < i - 1 {
                    assert(modifiers@[k] == before[k]);
                    assert(modifier_views(before)[k] == dp.skip(1).take(i - 1).map_values(
                        |m: Seq<char>| modifier_of(m),
                    )[k]);
                }
            }
            assert(modifier_views(modifiers@) =~= target);
        }
        i = i + 1;
    }
    proof {
        assert(definition_parts(def@).skip(1).take(parts@.len() - 1) =~= definition_parts(def@).skip(1));
    }
    ShapeDefinition { declaration: decl, combine, modifiers }
}

/// One argument of a shape declaration: a parenthesised formula, or a
/// plain token (a number, a variable or a formula without parentheses).
#[derive(Debug, Clone)]
pub enum ShapeArg {
    Formula(String),
    Plain(String),
}

pub enum ShapeArgView {
    Formula(Seq<char>),
    Plain(Seq<char>),
}

impl View for ShapeArg {
    type V = ShapeArgView;

    open spec fn view(&self) -> ShapeArgView {
        match self {
            ShapeArg::Formula(s) => ShapeArgView::Formula(s@),
            ShapeArg::Plain(s) => ShapeArgView::Plain(s@),
        }
    }
}

pub open spec fn arg_views(v: Seq<ShapeArg>) -> Seq<ShapeArgView> {
    v.map_values(|a: ShapeArg| a@)
}

/// Argument separators: space, comma and tab.
pub open spec fn arg_sep(c: char) -> bool {
    c == ' ' || c == ',' || c == '\t'
}

/// End of the parenthesised group starting at `i`: just after the `)`
/// that closes it, or the end of the text.
pub open spec fn paren_end(s: Seq<char>, i: int, depth: int) -> int
    decreases s.len() - i,
{
    if i < 0 || i >= s.len() {
        s.len() as int
    } else if s[i] == '(' {
        paren_end(s, i + 1, depth + 1)
    } else if s[i] == ')' {
        if depth - 1 == 0 {
            i + 1
        } else {
            paren_end(s, i + 1, depth - 1)
        }
    } else {
        paren_end(s, i + 1, depth)
    }
}

/// End of the plain token starting at `i`.
pub open spec fn plain_end(s: Seq<char>, i: int) -> int
    decreases s.len() - i,
{
    if 0 <= i < s.len() && !arg_sep(s[i]) && s[i] != '(' {
        plain_end(s, i + 1)
    } else {
        i
    }
}

/// The arguments of `s` from `i` on.
pub open spec fn shape_args(s: Seq<char>, i: int) -> Seq<ShapeArgView>
    decreases s.len() - i,
{
    if i < 0 || i >= s.len() {
        seq![]
    } else if arg_sep(s[i]) {
        shape_args(s, i + 1)
    } else if s[i] == '(' {
        let e = paren_end(s, i, 0);
        if i < e <= s.len() {
            seq![ShapeArgView::Formula(s.subrange(i, e))] + shape_args(s, e)
        } else {
            seq![]
        }
    } else {
        let e = plain_end(s, i);
        if i < e <= s.len() {
            seq![ShapeArgView::Plain(s.subrange(i, e))] + shape_args(s, e)
        } else {
            seq![]
        }
    }
}

/// End of the shape kind: the first white space, comma or `(`.
pub open spec fn kind_end(t: Seq<char>, i: int) -> int
    decreases t.len() - i,
{
    if 0 <= i < t.len() && !is_ws(t[i]) && t[i] != ',' && t[i] != '(' {
        kind_end(t, i + 1)
    } else {
        i
    }
}

/// The lower-case kind and the arguments of a shape declaration.
pub open spec fn declaration_of(decl: Seq<char>) -> (Seq<char>, Seq<ShapeArgView>) {
    let t = trim(decl);
    let k = kind_end(t, 0);
    (lower(trim(t.take(k))), shape_args(t.skip(k), 0))
}

proof fn lemma_paren_end(s: Seq<char>, i: int, depth: int)
    requires
        0 <= i <= s.len(),
    ensures
        i <= paren_end(s, i, depth) <= s.len(),
        i < s.len() ==> i < paren_end(s, i, depth),
    decreases s.len() - i,
{
    if i < s.len() {
        if s[i] == '(' {
            lemma_paren_end(s, i + 1, depth + 1);
        } else if s[i] == ')' {
            if depth - 1 != 0 {
                lemma_paren_end(s, i + 1, depth - 1);
            }
        } else {
            lemma_paren_end(s, i + 1, depth);
        }
    }
}

proof fn lemma_plain_end(s: Seq<char>, i: int)
    requires
        0 <= i <= s.len(),
    ensures
        i <= plain_end(s, i) <= s.len(),
    decreases s.len() - i,
{
    if i < s.len() && !arg_sep(s[i]) && s[i] != '(' {
        lemma_plain_end(s, i + 1);
    }
}

proof fn lemma_kind_end(t: Seq<char>, i: int)
    requires
        0 <= i <= t.len(),
    ensures
        i <= kind_end(t, i) <= t.len(),
    decreases t.len() - i,
{
    if i < t.len() && !is_ws(t[i]) && t[i] != ',' && t[i] != '(' {
        lemma_kind_end(t, i + 1);
    }
}

/// Splits a shape declaration into its lower-case kind and arguments.
pub fn shape_declaration(decl: &str) -> (r: (String, Vec<ShapeArg>))
    ensures
        r.0@ == declaration_of(decl@).0,
        arg_views(r.1@) == declaration_of(decl@).1,
{
    let t = trim_str(decl);
    let tv = to_chars(t.as_str());
    let mut k: usize = 0;
    while k < tv.len() && !crate::text::is_whitespace(tv[k]) && tv[k] != ',' && tv[k] != '('
        invariant
            tv@ == trim(decl@),
            k <= tv@.len(),
            kind_end(tv@, 0) == kind_end(tv@, k as int),
        decreases tv.len() - k,
    {
        k = k + 1;
    }
    proof {
        lemma_kind_end(tv@, 0);
    }
    let (a, b) = trim_bounds(&tv, 0, k);
    let kind_text = string_of(&tv, a, b);
    let kind = lower_str(kind_text.as_str());
    proof {
        assert(tv@.subrange(0, k as int) =~= tv@.take(k as int));
    }
    let s = crate::measures::memory::to_chars_from(&tv, k);
    let ghost sv = s@;
    let mut args: Vec<ShapeArg> = Vec::new();
    let mut i: usize = 0;
    proof {
        assert(arg_views(args@) =~= Seq::<ShapeArgView>::empty());
        assert(Seq::<ShapeArgView>::empty() + shape_args(sv, 0) =~= shape_args(sv, 0));
    }
    while i < s.len()
        invariant
            sv == s@,
            i <= s@.len(),
            shape_args(sv, 0) == arg_views(args@) + shape_args(sv, i as int),
        decreases s.len() - i,
    {
        let c = s[i];
        if c == ' ' || c == ',' || c == '\t' {
            i = i + 1;
        } else if c == '(' {
            let start = i;
            let mut depth: usize = 1;
            i = i + 1;
            proof {
                lemma_paren_end(sv, start as int, 0);
            }
            loop
                invariant_except_break
                    paren_end(sv, start as int, 0) == paren_end(sv, i as int, depth as int),
                invariant
                    sv == s@,
                    start < i <= s@.len(),
                    depth >= 1,
                    depth <= i - start,
                ensures
                    i == paren_end(sv, start as int, 0),
                decreases s.len() - i,
            {
                if i >= s.len() {
                    break;
                }
                if s[i] == '(' {
                    depth = depth + 1;
                } else if s[i] == ')' {
                    if depth == 1 {
                        i = i + 1;
                        break;
                    }
                    depth = depth - 1;
                }
                i = i + 1;
            }
            let text = string_of(&s, start, i);
            let ghost x = ShapeArgView::Formula(sv.subrange(start as int, i as int));
            let ghost before = arg_views(args@);
            args.push(ShapeArg::Formula(text));
            proof {
                assert(arg_views(args@) =~= before.push(x));
                assert(before + shape_args(sv, start as int) =~= before.push(x) + shape_args(sv, i as int));
            }
        } else {
            let start = i;
            while i < s.len() && !(s[i] == ' ' || s[i] == ',' || s[i] == '\t') && s[i] != '('
                invariant
                    sv == s@,
                    start <= i <= s@.len(),
                    plain_end(sv, start as int) == plain_end(sv, i as int),
                decreases s.len() - i,
            {
                i = i + 1;
            }
            proof {
                lemma_plain_end(sv, start as int);
            }
            let text = string_of(&s, start, i);
            let ghost x = ShapeArgView::Plain(sv.subrange(start as int, i as int));
            let ghost before = arg_views(args@);
            args.push(ShapeArg::Plain(text));
            proof {
                assert(arg_views(args@) =~= before.push(x));
                assert(before + shape_args(sv, start as int) =~= before.push(x) + shape_args(sv, i as int));
            }
        }
    }
    proof {
        assert(arg_views(args@) + Seq::<ShapeArgView>::empty() =~= arg_views(args@));
    }
    (kind, args)
}

/// The shapes a modifier list combines with (`Union`, `Intersect`, `Xor`,
/// `Exclude`), lower-cased.
pub open spec fn op_targets(ms: Seq<Seq<char>>) -> Seq<Seq<char>>
    decreases ms.len(),
{
    if ms.len() == 0 {
        seq![]
    } else {
        op_targets(ms.drop_last()) + match modifier_of(ms.last()) {
            ShapeModifierView::Union(t) => seq![lower(t)],
            ShapeModifierView::Intersect(t) => seq![lower(t)],
            ShapeModifierView::Xor(t) => seq![lower(t)],
            ShapeModifierView::Exclude(t) => seq![lower(t)],
            _ => seq![],
        }
    }
}

/// The (lower-case) shape options a `Combine` definition uses up: its
/// base shape and the shapes of its combining modifiers. Other
/// definitions use up none.
pub open spec fn combine_refs(def: Seq<char>) -> Seq<Seq<char>> {
    let parts = definition_parts(def);
    match combine_target(parts[0]) {
        None => seq![],
        Some(t) => seq![lower(t)] + op_targets(parts.skip(1)),
    }
}

/// The shapes a definition uses up, lower-cased.
pub fn shape_combine_refs(def: &str) -> (r: Vec<String>)
    ensures
        views(r@) == combine_refs(def@),
{
    let d = parse_shape_definition(def);
    let mut out: Vec<String> = Vec::new();
    match &d.combine {
        None => {
            proof {
                assert(views(out@) =~= combine_refs(def@));
            }
            return out;
        },
        Some(t) => {
            out.push(lower_str(t.as_str()));
        },
    }
    let ghost ms = definition_parts(def@).skip(1);
    let mut i: usize = 0;
    proof {
        assert(modifier_views(d.modifiers@).len() == d.modifiers@.len());
        assert(ms.map_values(|m: Seq<char>| modifier_of(m)).len() == ms.len());
        assert(op_targets(ms.take(0)) =~= Seq::<Seq<char>>::empty());
        assert(views(out@) =~= seq![lower(combine_target(definition_parts(def@)[0])->0)] + op_targets(ms.take(0)));
    }
    while i < d.modifiers.len()
        invariant
            modifier_views(d.modifiers@) == ms.map_values(|m: Seq<char>| modifier_of(m)),
            ms == definition_parts(def@).skip(1),
            ms.len() == d.modifiers@.len(),
            combine_target(definition_parts(def@)[0]) is Some,
            i <= d.modifiers@.len(),
            views(out@) == seq![lower(combine_target(definition_parts(def@)[0])->0)] + op_targets(
                ms.take(i as int),
            ),
        decreases d.modifiers.len() - i,
    {
        let ghost before = views(out@);
        proof {
            assert(ms.take(i + 1).drop_last() =~= ms.take(i as int));
            assert(modifier_views(d.modifiers@)[i as int] == d.modifiers@[i as int]@);
            assert(ms.map_values(|m: Seq<char>| modifier_of(m))[i as int] == modifier_of(ms[i as int]));
        }
        match &d.modifiers[i] {
            ShapeModifier::Union(t) | ShapeModifier::Intersect(t) | ShapeModifier::Xor(t)
            | ShapeModifier::Exclude(t) => {
                out.push(lower_str(t.as_str()));
                proof {
                    assert(views(out@) =~= before.push(lower(t@)));
                }
            },
            _ => {},
        }
        proof {
            assert(views(out@) =~= seq![lower(combine_target(definition_parts(def@)[0])->0)]
                + op_targets(ms.take(i + 1)));
        }
        i = i + 1;
    }
    proof {
        assert(ms.take(d.modifiers@.len() as int) =~= ms);
    }
    out
}

/// The shapes the definitions use up, in order.
pub open spec fn all_refs(defs: Seq<Seq<char>>) -> Seq<Seq<char>>
    decreases defs.len(),
{
    if defs.len() == 0 {
        seq![]
    } else {
        all_refs(defs.drop_last()) + combine_refs(defs.last())
    }
}

/// The pairs whose key is not among `refs`, in order.
pub open spec fn unreferenced(s: Seq<(nat, Seq<char>)>, refs: Seq<Seq<char>>) -> Seq<(nat, Seq<char>)>
    decreases s.len(),
{
    if s.len() == 0 {
        seq![]
    } else {
        unreferenced(s.drop_last(), refs) + if refs.contains(s.last().1) {
            seq![]
        } else {
            seq![s.last()]
        }
    }
}

/// The definitions of the given shape options.
pub open spec fn defs_of(s: Seq<(nat, Seq<char>)>, m: Map<Seq<char>, Seq<char>>) -> Seq<Seq<char>> {
    Seq::new(s.len(), |i: int| m[s[i].1])
}

/// The shapes a meter draws, in position order: every shape option but
/// those a `Combine` definition uses up.
pub open spec fn drawn_shapes(keys: Seq<Seq<char>>, m: Map<Seq<char>, Seq<char>>) -> Seq<(nat, Seq<char>)> {
    let sorted = sort_slots(shape_key_slots(keys));
    unreferenced(sorted, all_refs(defs_of(sorted, m)))
}

proof fn lemma_shape_keys_present(keys: Seq<Seq<char>>, m: Map<Seq<char>, Seq<char>>)
    requires
        forall|i: int| 0 <= i < keys.len() ==> m.contains_key(#[trigger] keys[i]),
    ensures
        forall|i: int| 0 <= i < shape_key_slots(keys).len() ==> m.contains_key(
            #[trigger] shape_key_slots(keys)[i].1,
        ),
    decreases keys.len(),
{
    if keys.len() > 0 {
        let d = keys.drop_last();
        assert forall|i: int| 0 <= i < d.len() implies m.contains_key(#[trigger] d[i]) by {
            assert(d[i] == keys[i]);
        }
        lemma_shape_keys_present(d, m);
        let rest = shape_key_slots(d);
        assert(m.contains_key(keys[keys.len() - 1]));
        assert forall|i: int| 0 <= i < shape_key_slots(keys).len() implies m.contains_key(
            #[trigger] shape_key_slots(keys)[i].1,
        ) by {
            if i < rest.len() {
                assert(shape_key_slots(keys)[i] == rest[i]);
            }
        }
    }
}

/// The shapes a shape meter draws, as (position, key) in position order.
pub fn drawn_shape_keys(props: &VariableMap) -> (r: Vec<(usize, String)>)
    requires
        props.wf(),
    ensures
        slot_views(r@) == drawn_shapes(props.key_order(), props@),
{
    let sorted = ordered_shape_keys(props);
    let ghost sv = slot_views(sorted@);
    let ghost keys = props.key_order();
    proof {
        props.lemma_key_order();
        crate::ini::law_measure_slots_sorted(shape_key_slots(keys));
        lemma_shape_keys_present(keys, props@);
        assert forall|i: int| 0 <= i < sv.len() implies props@.contains_key(#[trigger] sv[i].1) by {
            let e = sv[i];
            sort_slots(shape_key_slots(keys)).to_multiset_ensures();
            assert(sort_slots(shape_key_slots(keys))[i] == e);
            assert(sort_slots(shape_key_slots(keys)).contains(e));
            assert(sort_slots(shape_key_slots(keys)).to_multiset().count(e) > 0);
            assert(shape_key_slots(keys).to_multiset().count(e) > 0);
            shape_key_slots(keys).to_multiset_ensures();
            let j = choose|j: int| 0 <= j < shape_key_slots(keys).len() && shape_key_slots(keys)[j] == e;
            assert(props@.contains_key(shape_key_slots(keys)[j].1));
        }
    }
    let ghost defs = defs_of(sv, props@);
    let mut refs: Vec<String> = Vec::new();
    let mut i: usize = 0;
    while i < sorted.len()
        invariant
            props.wf(),
            sv == slot_views(sorted@),
            defs == defs_of(sv, props@),
            forall|k: int| 0 <= k < sv.len() ==> props@.contains_key(#[trigger] sv[k].1),
            i <= sorted@.len(),
            views(refs@) == all_refs(defs.take(i as int)),
        decreases sorted.len() - i,
    {
        proof {
            assert(defs.take(i + 1).drop_last() =~= defs.take(i as int));
            assert(sv[i as int].1 == sorted@[i as int].1@);
            assert(props@.contains_key(sv[i as int].1));
        }
        let def = match props.get(sorted[i].1.as_str()) {
            Some(d) => d,
            None => "",
        };
        proof {
            assert(crate::text::lower(sorted@[i as int].1@) == sorted@[i as int].1@) by {
                props.lemma_keys_lower();
            }
        }
        let more = shape_combine_refs(def);
        let ghost before = views(refs@);
        let mut j: usize = 0;
        while j < more.len()
            invariant
                j <= more@.len(),
                views(refs@) == before + views(more@).take(j as int),
            decreases more.len() - j,
        {
            let c = more[j].clone();
            let ghost old_refs = refs@;
            refs.push(c);
            proof {
                assert(refs@ == old_refs.push(c));
                assert(views(more@)[j as int] == c@);
                let want = before + views(more@).take(j + 1);
                assert(views(old_refs) == before + views(more@).take(j as int));
                assert(refs@.len() == old_refs.len() + 1);
                assert(views(more@).take(j as int).len() == j);
                assert(views(old_refs).len() == old_refs.len());
                assert(old_refs.len() == before.len() + j);
                assert(want.len() == before.len() + j + 1);
                assert(views(refs@).len() == want.len());
                assert forall|x: int| 0 <= x < want.len() implies views(refs@)[x] == want[x] by {
                    if x < old_refs.len() {
                        assert(refs@[x] == old_refs[x]);
                        assert(views(old_refs)[x] == old_refs[x]@);
                        assert(want[x] == views(old_refs)[x]);
                    } else {
                        assert(want[x] == c@);
                    }
                }
                assert(views(refs@) =~= want);
            }
            j = j + 1;
        }
        proof {
            assert(views(more@).take(more@.len() as int) =~= views(more@));
            assert(defs.take(i + 1).last() == def@);
        }
        i = i + 1;
    }
    proof {
        assert(defs.take(sorted@.len() as int) =~= defs);
    }
    let ghost rv = views(refs@);
    let mut out: Vec<(usize, String)> = Vec::new();
    let mut k: usize = 0;
    while k < sorted.len()
        invariant
            sv == slot_views(sorted@),
            rv == views(refs@),
            k <= sorted@.len(),
            slot_views(out@) == unreferenced(sv.take(k as int), rv),
        decreases sorted.len() - k,
    {
        proof {
            assert(sv.take(k + 1).drop_last() =~= sv.take(k as int));
        }
        let key = sorted[k].1.as_str();
        let mut found = false;
        let mut q: usize = 0;
        while q < refs.len()
            invariant
                rv == views(refs@),
                q <= refs@.len(),
                found ==> rv.contains(key@),
                !found ==> forall|x: int| 0 <= x < q ==> rv[x] != key@,
            decreases refs.len() - q,
        {
            if crate::text::str_eq(refs[q].as_str(), key) {
                found = true;
                assert(rv[q as int] == key@);
            }
            q = q + 1;
        }
        let ghost before = slot_views(out@);
        if !found {
            out.push((sorted[k].0, sorted[k].1.clone()));
            proof {
                assert(slot_views(out@) =~= before + seq![sv[k as int]]);
            }
        } else {
            proof {
                assert(slot_views(out@) =~= before + Seq::<(nat, Seq<char>)>::empty());
            }
        }
        proof {
            assert(sv.take(k + 1).last() == sv[k as int]);
            assert(sv[k as int].1 == key@);
            assert(rv.contains(key@) == found);
        }
        k = k + 1;
    }
    proof {
        assert(sv.take(sorted@.len() as int) =~= sv);
    }
    out
}

proof fn lemma_unreferenced_from(s: Seq<(nat, Seq<char>)>, refs: Seq<Seq<char>>)
    ensures
        forall|i: int| 0 <= i < unreferenced(s, refs).len() ==> exists|j: int|
            0 <= j < s.len() && s[j] == #[trigger] unreferenced(s, refs)[i],
        forall|i: int| 0 <= i < unreferenced(s, refs).len() ==> !refs.contains(
            #[trigger] unreferenced(s, refs)[i].1,
        ),
    decreases s.len(),
{
    if s.len() > 0 {
        let d = s.drop_last();
        lemma_unreferenced_from(d, refs);
        let u = unreferenced(d, refs);
        assert forall|i: int| 0 <= i < unreferenced(s, refs).len() implies exists|j: int|
            0 <= j < s.len() && s[j] == #[trigger] unreferenced(s, refs)[i] by {
            if i < u.len() {
                assert(unreferenced(s, refs)[i] == u[i]);
                let j = choose|j: int| 0 <= j < d.len() && d[j] == u[i];
                assert(s[j] == d[j]);
            } else {
                assert(unreferenced(s, refs)[i] == s[s.len() - 1]);
            }
        }
        assert forall|i: int| 0 <= i < unreferenced(s, refs).len() implies !refs.contains(
            #[trigger] unreferenced(s, refs)[i].1,
        ) by {
            if i < u.len() {
                assert(unreferenced(s, refs)[i] == u[i]);
            }
        }
    }
}

proof fn lemma_unreferenced_sorted(s: Seq<(nat, Seq<char>)>, refs: Seq<Seq<char>>)
    requires
        crate::ini::slots_sorted(s),
    ensures
        crate::ini::slots_sorted(unreferenced(s, refs)),
    decreases s.len(),
{
    if s.len() > 0 {
        let d = s.drop_last();
        assert(crate::ini::slots_sorted(d)) by {
            assert forall|i: int, j: int| 0 <= i < j < d.len() implies d[i].0 <= d[j].0 by {
                assert(d[i] == s[i] && d[j] == s[j]);
            }
        }
        lemma_unreferenced_sorted(d, refs);
        lemma_unreferenced_from(d, refs);
        let u = unreferenced(d, refs);
        let w = unreferenced(s, refs);
        assert forall|i: int, j: int| 0 <= i < j < w.len() implies w[i].0 <= w[j].0 by {
            if j < u.len() {
                assert(w[i] == u[i] && w[j] == u[j]);
            } else {
                assert(w[i] == u[i]);
                assert(w[j] == s[s.len() - 1]);
                let k = choose|k: int| 0 <= k < d.len() && d[k] == u[i];
                assert(s[k] == d[k]);
            }
        }
    }
}

/// The shapes a meter draws come in position order, and none of them is
/// one that a `Combine` definition uses up.
pub proof fn law_drawn_shapes_ordered(keys: Seq<Seq<char>>, m: Map<Seq<char>, Seq<char>>)
    ensures
        crate::ini::slots_sorted(drawn_shapes(keys, m)),
        forall|i: int| 0 <= i < drawn_shapes(keys, m).len() ==> !all_refs(
            defs_of(sort_slots(shape_key_slots(keys)), m),
        ).contains(#[trigger] drawn_shapes(keys, m)[i].1),
{
    let sorted = sort_slots(shape_key_slots(keys));
    let refs = all_refs(defs_of(sorted, m));
    crate::ini::law_measure_slots_sorted(shape_key_slots(keys));
    lemma_unreferenced_sorted(sorted, refs);
    lemma_unreferenced_from(sorted, refs);
}

/// Lower-casing works character by character.
proof fn lemma_lower_concat(a: Seq<char>, b: Seq<char>)
    ensures
        lower(a + b) == lower(a) + lower(b),
{
    assert(lower(a + b) =~= lower(a) + lower(b));
}

/// Law: a shape modifier is read by its keyword, in any case, and keeps the
/// trimmed text after it: `Fill Color c` fills with `c`, `Fill None` does
/// not fill, `Stroke Color c` strokes with `c`, `Stroke None` does not
/// stroke, `StrokeWidth w` strokes `w` wide, `Rotate a` turns by `a`, and
/// `Union s`, `Intersect s`, `XOR s` and `Exclude s` combine with `s`.
pub proof fn law_shape_modifiers(kw: Seq<char>, x: Seq<char>)
    ensures
        lower(kw) == "fill color"@ ==> modifier_of(kw + x) == ShapeModifierView::FillColor(trim(x)),
        lower(kw) == "fill none"@ ==> modifier_of(kw + x) == ShapeModifierView::FillNone,
        lower(kw) == "stroke color"@ ==> modifier_of(kw + x) == ShapeModifierView::StrokeColor(trim(x)),
        lower(kw) == "stroke none"@ ==> modifier_of(kw + x) == ShapeModifierView::StrokeNone,
        lower(kw) == "strokewidth"@ ==> modifier_of(kw + x) == ShapeModifierView::StrokeWidth(trim(x)),
        lower(kw) == "rotate"@ ==> modifier_of(kw + x) == ShapeModifierView::Rotate(trim(x)),
        lower(kw) == "union"@ ==> modifier_of(kw + x) == ShapeModifierView::Union(trim(x)),
        lower(kw) == "intersect"@ ==> modifier_of(kw + x) == ShapeModifierView::Intersect(trim(x)),
        lower(kw) == "xor"@ ==> modifier_of(kw + x) == ShapeModifierView::Xor(trim(x)),
        lower(kw) == "exclude"@ ==> modifier_of(kw + x) == ShapeModifierView::Exclude(trim(x)),
{
    lemma_lower_concat(kw, x);
    let l = lower(kw + x);
    reveal_strlit("fill color");
    reveal_strlit("fill none");
    reveal_strlit("stroke color");
    reveal_strlit("stroke none");
    reveal_strlit("strokewidth");
    reveal_strlit("rotate");
    reveal_strlit("union");
    reveal_strlit("intersect");
    reveal_strlit("xor");
    reveal_strlit("exclude");
    if lower(kw) == "fill color"@ {
        assert(l.take(10) =~= "fill color"@);
        assert((kw + x).skip(10) =~= x);
    }
    if lower(kw) == "fill none"@ {
        assert(l.take(9) =~= "fill none"@);
        assert(l[5] == "fill none"@[5] && "fill none"@[5] != "fill color"@[5]);
        assert(!starts_with(l, "fill color"@)) by {
            if starts_with(l, "fill color"@) {
                assert(l.take("fill color"@.len() as int)[5] == l[5]);
            }
        }
    }
    if lower(kw) == "stroke color"@ {
        assert(l.take(12) =~= "stroke color"@);
        assert(l[0] == "stroke color"@[0] && "stroke color"@[0] != "fill color"@[0]);
        assert(!starts_with(l, "fill color"@)) by {
            if starts_with(l, "fill color"@) {
                assert(l.take("fill color"@.len() as int)[0] == l[0]);
            }
        }
        assert(l[0] == "stroke color"@[0] && "stroke color"@[0] != "fill none"@[0]);
        assert(!starts_with(l, "fill none"@)) by {
            if starts_with(l, "fill none"@) {
                assert(l.take("fill none"@.len() as int)[0] == l[0]);
            }
        }
        assert((kw + x).skip(12) =~= x);
    }
    if lower(kw) == "stroke none"@ {
        assert(l.take(11) =~= "stroke none"@);
        assert(l[0] == "stroke none"@[0] && "stroke none"@[0] != "fill color"@[0]);
        assert(!starts_with(l, "fill color"@)) by {
            if starts_with(l, "fill color"@) {
                assert(l.take("fill color"@.len() as int)[0] == l[0]);
            }
        }
        assert(l[0] == "stroke none"@[0] && "stroke none"@[0] != "fill none"@[0]);
        assert(!starts_with(l, "fill none"@)) by {
            if starts_with(l, "fill none"@) {
                assert(l.take("fill none"@.len() as int)[0] == l[0]);
            }
        }
        assert(l[7] == "stroke none"@[7] && "stroke none"@[7] != "stroke color"@[7]);
        assert(!starts_with(l, "stroke color"@)) by {
            if starts_with(l, "stroke color"@) {
                assert(l.take("stroke color"@.len() as int)[7] == l[7]);
            }
        }
    }
    if lower(kw) == "strokewidth"@ {
        assert(l.take(11) =~= "strokewidth"@);
        assert(l[0] == "strokewidth"@[0] && "strokewidth"@[0] != "fill color"@[0]);
        assert(!starts_with(l, "fill color"@)) by {
            if starts_with(l, "fill color"@) {
                assert(l.take("fill color"@.len() as int)[0] == l[0]);
            }
        }
        assert(l[0] == "strokewidth"@[0] && "strokewidth"@[0] != "fill none"@[0]);
        assert(!starts_with(l, "fill none"@)) by {
            if starts_with(l, "fill none"@) {
                assert(l.take("fill none"@.len() as int)[0] == l[0]);
            }
        }
        assert(l[6] == "strokewidth"@[6] && "strokewidth"@[6] != "stroke color"@[6]);
        assert(!starts_with(l, "stroke color"@)) by {
            if starts_with(l, "stroke color"@) {
                assert(l.take("stroke color"@.len() as int)[6] == l[6]);
            }
        }
        assert(l[6] == "strokewidth"@[6] && "strokewidth"@[6] != "stroke none"@[6]);
        assert(!starts_with(l, "stroke none"@)) by {
            if starts_with(l, "stroke none"@) {
                assert(l.take("stroke none"@.len() as int)[6] == l[6]);
            }
        }
        assert((kw + x).skip(11) =~= x);
    }
    if lower(kw) == "rotate"@ {
        assert(l.take(6) =~= "rotate"@);
        assert(l[0] == "rotate"@[0] && "rotate"@[0] != "fill color"@[0]);
        assert(!starts_with(l, "fill color"@)) by {
            if starts_with(l, "fill color"@) {
                assert(l.take("fill color"@.len() as int)[0] == l[0]);
            }
        }
        assert(l[0] == "rotate"@[0] && "rotate"@[0] != "fill none"@[0]);
        assert(!starts_with(l, "fill none"@)) by {
            if starts_with(l, "fill none"@) {
                assert(l.take("fill none"@.len() as int)[0] == l[0]);
            }
        }
        assert(l[0] == "rotate"@[0] && "rotate"@[0] != "stroke color"@[0]);
        assert(!starts_with(l, "stroke color"@)) by {
            if starts_with(l, "stroke color"@) {
                assert(l.take("stroke color"@.len() as int)[0] == l[0]);
            }
        }
        assert(l[0] == "rotate"@[0] && "rotate"@[0] != "stroke none"@[0]);
        assert(!starts_with(l, "stroke none"@)) by {
            if starts_with(l, "stroke none"@) {
                assert(l.take("stroke none"@.len() as int)[0] == l[0]);
            }
        }
        assert(l[0] == "rotate"@[0] && "rotate"@[0] != "strokewidth"@[0]);
        assert(!starts_with(l, "strokewidth"@)) by {
            if starts_with(l, "strokewidth"@) {
                assert(l.take("strokewidth"@.len() as int)[0] == l[0]);
            }
        }
        assert((kw + x).skip(6) =~= x);
    }
    if lower(kw) == "union"@ {
        assert(l.take(5) =~= "union"@);
        assert(l[0] == "union"@[0] && "union"@[0] != "fill color"@[0]);
        assert(!starts_with(l, "fill color"@)) by {
            if starts_with(l, "fill color"@) {
                assert(l.take("fill color"@.len() as int)[0] == l[0]);
            }
        }
        assert(l[0] == "union"@[0] && "union"@[0] != "fill none"@[0]);
        assert(!starts_with(l, "fill none"@)) by {
            if starts_with(l, "fill none"@) {
                assert(l.take("fill none"@.len() as int)[0] == l[0]);
            }
        }
        assert(l[0] == "union"@[0] && "union"@[0] != "stroke color"@[0]);
        assert(!starts_with(l, "stroke color"@)) by {
            if starts_with(l, "stroke color"@) {
                assert(l.take("stroke color"@.len() as int)[0] == l[0]);
            }
        }
        assert(l[0] == "union"@[0] && "union"@[0] != "stroke none"@[0]);
        assert(!starts_with(l, "stroke none"@)) by {
            if starts_with(l, "stroke none"@) {
                assert(l.take("stroke none"@.len() as int)[0] == l[0]);
            }
        }
        assert(l[0] == "union"@[0] && "union"@[0] != "strokewidth"@[0]);
        assert(!starts_with(l, "strokewidth"@)) by {
            if starts_with(l, "strokewidth"@) {
                assert(l.take("strokewidth"@.len() as int)[0] == l[0]);
            }
        }
        assert(l[0] == "union"@[0] && "union"@[0] != "rotate"@[0]);
        assert(!starts_with(l, "rotate"@)) by {
            if starts_with(l, "rotate"@) {
                assert(l.take("rotate"@.len() as int)[0] == l[0]);
            }
        }
        assert((kw + x).skip(5) =~= x);
    }
    if lower(kw) == "intersect"@ {
        assert(l.take(9) =~= "intersect"@);
        assert(l[0] == "intersect"@[0] && "intersect"@[0] != "fill color"@[0]);
        assert(!starts_with(l, "fill color"@)) by {
            if starts_with(l, "fill color"@) {
                assert(l.take("fill color"@.len() as int)[0] == l[0]);
            }
        }
        assert(l[0] == "intersect"@[0] && "intersect"@[0] != "fill none"@[0]);
        assert(!starts_with(l, "fill none"@)) by {
            if starts_with(l, "fill none"@) {
                assert(l.take("fill none"@.len() as int)[0] == l[0]);
            }
        }
        assert(l[0] == "intersect"@[0] && "intersect"@[0] != "stroke color"@[0]);
        assert(!starts_with(l, "stroke color"@)) by {
            if starts_with(l, "stroke color"@) {
                assert(l.take("stroke color"@.len() as int)[0] == l[0]);
            }
        }
        assert(l[0] == "intersect"@[0] && "intersect"@[0] != "stroke none"@[0]);
        assert(!starts_with(l, "stroke none"@)) by {
            if starts_with(l, "stroke none"@) {
                assert(l.take("stroke none"@.len() as int)[0] == l[0]);
            }
        }
        assert(l[0] == "intersect"@[0] && "intersect"@[0] != "strokewidth"@[0]);
        assert(!starts_with(l, "strokewidth"@)) by {
            if starts_with(l, "strokewidth"@) {
                assert(l.take("strokewidth"@.len() as int)[0] == l[0]);
            }
        }
        assert(l[0] == "intersect"@[0] && "intersect"@[0] != "rotate"@[0]);
        assert(!starts_with(l, "rotate"@)) by {
            if starts_with(l, "rotate"@) {
                assert(l.take("rotate"@.len() as int)[0] == l[0]);
            }
        }
        assert(l[0] == "intersect"@[0] && "intersect"@[0] != "union"@[0]);
        assert(!starts_with(l, "union"@)) by {
            if starts_with(l, "union"@) {
                assert(l.take("union"@.len() as int)[0] == l[0]);
            }
        }
        assert((kw + x).skip(9) =~= x);
    }
    if lower(kw) == "xor"@ {
        assert(l.take(3) =~= "xor"@);
        assert(l[0] == "xor"@[0] && "xor"@[0] != "fill color"@[0]);
        assert(!starts_with(l, "fill color"@)) by {
            if starts_with(l, "fill color"@) {
                assert(l.take("fill color"@.len() as int)[0] == l[0]);
            }
        }
        assert(l[0] == "xor"@[0] && "xor"@[0] != "fill none"@[0]);
        assert(!starts_with(l, "fill none"@)) by {
            if starts_with(l, "fill none"@) {
                assert(l.take("fill none"@.len() as int)[0] == l[0]);
            }
        }
        assert(l[0] == "xor"@[0] && "xor"@[0] != "stroke color"@[0]);
        assert(!starts_with(l, "stroke color"@)) by {
            if starts_with(l, "stroke color"@) {
                assert(l.take("stroke color"@.len() as int)[0] == l[0]);
            }
        }
        assert(l[0] == "xor"@[0] && "xor"@[0] != "stroke none"@[0]);
        assert(!starts_with(l, "stroke none"@)) by {
            if starts_with(l, "stroke none"@) {
                assert(l.take("stroke none"@.len() as int)[0] == l[0]);
            }
        }
        assert(l[0] == "xor"@[0] && "xor"@[0] != "strokewidth"@[0]);
        assert(!starts_with(l, "strokewidth"@)) by {
            if starts_with(l, "strokewidth"@) {
                assert(l.take("strokewidth"@.len() as int)[0] == l[0]);
            }
        }
        assert(l[0] == "xor"@[0] && "xor"@[0] != "rotate"@[0]);
        assert(!starts_with(l, "rotate"@)) by {
            if starts_with(l, "rotate"@) {
                assert(l.take("rotate"@.len() as int)[0] == l[0]);
            }
        }
        assert(l[0] == "xor"@[0] && "xor"@[0] != "union"@[0]);
        assert(!starts_with(l, "union"@)) by {
            if starts_with(l, "union"@) {
                assert(l.take("union"@.len() as int)[0] == l[0]);
            }
        }
        assert(l[0] == "xor"@[0] && "xor"@[0] != "intersect"@[0]);
        assert(!starts_with(l, "intersect"@)) by {
            if starts_with(l, "intersect"@) {
                assert(l.take("intersect"@.len() as int)[0] == l[0]);
            }
        }
        assert((kw + x).skip(3) =~= x);
    }
    if lower(kw) == "exclude"@ {
        assert(l.take(7) =~= "exclude"@);
        assert(l[0] == "exclude"@[0] && "exclude"@[0] != "fill color"@[0]);
        assert(!starts_with(l, "fill color"@)) by {
            if starts_with(l, "fill color"@) {
                assert(l.take("fill color"@.len() as int)[0] == l[0]);
            }
        }
        assert(l[0] == "exclude"@[0] && "exclude"@[0] != "fill none"@[0]);
        assert(!starts_with(l, "fill none"@)) by {
            if starts_with(l, "fill none"@) {
                assert(l.take("fill none"@.len() as int)[0] == l[0]);
            }
        }
        assert(l[0] == "exclude"@[0] && "exclude"@[0] != "stroke color"@[0]);
        assert(!starts_with(l, "stroke color"@)) by {
            if starts_with(l, "stroke color"@) {
                assert(l.take("stroke color"@.len() as int)[0] == l[0]);
            }
        }
        assert(l[0] == "exclude"@[0] && "exclude"@[0] != "stroke none"@[0]);
        assert(!starts_with(l, "stroke none"@)) by {
            if starts_with(l, "stroke none"@) {
                assert(l.take("stroke none"@.len() as int)[0] == l[0]);
            }
        }
        assert(l[0] == "exclude"@[0] && "exclude"@[0] != "strokewidth"@[0]);
        assert(!starts_with(l, "strokewidth"@)) by {
            if starts_with(l, "strokewidth"@) {
                assert(l.take("strokewidth"@.len() as int)[0] == l[0]);
            }
        }
        assert(l[0] == "exclude"@[0] && "exclude"@[0] != "rotate"@[0]);
        assert(!starts_with(l, "rotate"@)) by {
            if starts_with(l, "rotate"@) {
                assert(l.take("rotate"@.len() as int)[0] == l[0]);
            }
        }
        assert(l[0] == "exclude"@[0] && "exclude"@[0] != "union"@[0]);
        assert(!starts_with(l, "union"@)) by {
            if starts_with(l, "union"@) {
                assert(l.take("union"@.len() as int)[0] == l[0]);
            }
        }
        assert(l[0] == "exclude"@[0] && "exclude"@[0] != "intersect"@[0]);
        assert(!starts_with(l, "intersect"@)) by {
            if starts_with(l, "intersect"@) {
                assert(l.take("intersect"@.len() as int)[0] == l[0]);
            }
        }
        assert(l[0] == "exclude"@[0] && "exclude"@[0] != "xor"@[0]);
        assert(!starts_with(l, "xor"@)) by {
            if starts_with(l, "xor"@) {
                assert(l.take("xor"@.len() as int)[0] == l[0]);
            }
        }
        assert((kw + x).skip(7) =~= x);
    }
}


} // verus!
