//! Text options of string meters: alignment, case and style names, and
//! the case transformation applied to displayed text.
use crate::text::{
    all_ascii, eq_str, is_ascii_char, is_ascii_letter, is_digit, lower, lower_char, lower_range,
    starts_with, starts_with_str, to_chars, to_lowercase_str, to_uppercase_str, unicode_lower,
    unicode_upper, upper, upper_ascii_char,
};
use crate::variables::char_alphanumeric;
use vstd::prelude::*;

verus! {

/// Text alignment within layout and meter bounds.
#[derive(Debug, Clone, Copy, PartialEq, Eq, Default)]
pub enum TextAlign {
    #[default]
    Left,
    Center,
    Right,
}

impl TextAlign {
    /// Reads `StringAlign`: a value starting with `center` or `right` (any
    /// case) centres or right-aligns; anything else aligns left.
    pub fn parse(s: &str) -> (r: Self)
        ensures
            r == (if starts_with(lower(s@), "center"@) {
                TextAlign::Center
            } else if starts_with(lower(s@), "right"@) {
                TextAlign::Right
            } else {
                TextAlign::Left
            }),
    {
        let v = to_chars(s);
        let l = lower_range(&v, 0, v.len());
        assert(v@.subrange(0, v@.len() as int) =~= v@);
        if starts_with_str(&l, "center") {
            TextAlign::Center
        } else if starts_with_str(&l, "right") {
            TextAlign::Right
        } else {
            TextAlign::Left
        }
    }
}

/// Text case transformation.
#[derive(Debug, Clone, Copy, PartialEq, Eq, Default)]
pub enum TextCase {
    #[default]
    NoChange,
    Upper,
    Lower,
    Proper,
}

/// What `char::to_uppercase` yields for one character.
pub uninterp spec fn char_upper(c: char) -> Seq<char>;

/// What `char::to_lowercase` yields for one character.
pub uninterp spec fn char_lower(c: char) -> Seq<char>;

/// Calls `char::to_uppercase` and collects the characters it yields; an
/// ASCII character gives its ASCII upper case (`'a'` gives `'A'`).
#[verifier::external_body]
fn upper_of(c: char) -> (r: String)
    ensures
        r@ == char_upper(c),
        is_ascii_char(c) ==> r@ == seq![upper_ascii_char(c)],
{
    c.to_uppercase().collect()
}

/// Calls `char::to_lowercase` and collects the characters it yields; an
/// ASCII character gives its ASCII lower case (`'A'` gives `'a'`).
#[verifier::external_body]
fn lower_of(c: char) -> (r: String)
    ensures
        r@ == char_lower(c),
        is_ascii_char(c) ==> r@ == seq![lower_char(c)],
{
    c.to_lowercase().collect()
}

/// Title case: the first alphanumeric character of each run is upper-cased
/// and the rest of the run lower-cased; every other character is kept and
/// starts a new run. The flag says whether the next one is capitalised.
pub open spec fn proper_fold(s: Seq<char>) -> (Seq<char>, bool)
    decreases s.len(),
{
    if s.len() == 0 {
        (Seq::empty(), true)
    } else {
        let (r, cap) = proper_fold(s.drop_last());
        let c = s.last();
        if char_alphanumeric(c) {
            if cap {
                (r + char_upper(c), false)
            } else {
                (r + char_lower(c), false)
            }
        } else {
            (r.push(c), true)
        }
    }
}

/// Title case on ASCII text: the same runs, cased by the ASCII mappings.
pub open spec fn proper_ascii_fold(s: Seq<char>) -> (Seq<char>, bool)
    decreases s.len(),
{
    if s.len() == 0 {
        (Seq::empty(), true)
    } else {
        let (r, cap) = proper_ascii_fold(s.drop_last());
        let c = s.last();
        if is_ascii_letter(c) || is_digit(c) {
            if cap {
                (r.push(upper_ascii_char(c)), false)
            } else {
                (r.push(lower_char(c)), false)
            }
        } else {
            (r.push(c), true)
        }
    }
}

pub open spec fn case_applied(tc: TextCase, s: Seq<char>) -> Seq<char> {
    match tc {
        TextCase::NoChange => s,
        TextCase::Upper => unicode_upper(s),
        TextCase::Lower => unicode_lower(s),
        TextCase::Proper => proper_fold(s).0,
    }
}

impl TextCase {
    /// Reads `StringCase`: `upper`, `lower` or `proper` in any case;
    /// anything else leaves text as it is.
    pub fn parse(s: &str) -> (r: Self)
        ensures
            r == (if lower(s@) == "upper"@ {
                TextCase::Upper
            } else if lower(s@) == "lower"@ {
                TextCase::Lower
            } else if lower(s@) == "proper"@ {
                TextCase::Proper
            } else {
                TextCase::NoChange
            }),
    {
        let v = to_chars(s);
        let l = lower_range(&v, 0, v.len());
        assert(v@.subrange(0, v@.len() as int) =~= v@);
        if eq_str(&l, "upper") {
            TextCase::Upper
        } else if eq_str(&l, "lower") {
            TextCase::Lower
        } else if eq_str(&l, "proper") {
            TextCase::Proper
        } else {
            TextCase::NoChange
        }
    }

    /// Applies the case transformation to `s`.
    pub fn apply(&self, s: &str) -> (r: String)
        ensures
            r@ == case_applied(*self, s@),
            *self is Upper && all_ascii(s@) ==> r@ == upper(s@),
            *self is Lower && all_ascii(s@) ==> r@ == lower(s@),
            *self is Proper && all_ascii(s@) ==> r@ == proper_ascii_fold(s@).0,
    {
        match self {
            TextCase::NoChange => s.to_string(),
            TextCase::Upper => to_uppercase_str(s),
            TextCase::Lower => to_lowercase_str(s),
            TextCase::Proper => proper_case(s),
        }
    }
}

fn proper_case(s: &str) -> (r: String)
    ensures
        r@ == proper_fold(s@).0,
        all_ascii(s@) ==> r@ == proper_ascii_fold(s@).0,
{
    let v = to_chars(s);
    let mut result = String::new();
    let mut cap = true;
    let mut i: usize = 0;
    while i < v.len()
        invariant
            v@ == s@,
            i <= v@.len(),
            (result@, cap) == proper_fold(v@.take(i as int)),
            all_ascii(v@.take(i as int)) ==> (result@, cap) == proper_ascii_fold(v@.take(i as int)),
        decreases v.len() - i,
    {
        let c = v[i];
        assert(v@.take(i + 1).drop_last() =~= v@.take(i as int));
        assert(all_ascii(v@.take(i + 1)) ==> all_ascii(v@.take(i as int)) && is_ascii_char(c)) by {
            if all_ascii(v@.take(i + 1)) {
                assert(v@.take(i + 1)[i as int] == c);
                assert forall|k: int| 0 <= k < i implies is_ascii_char(#[trigger] v@.take(i as int)[k]) by {
                    assert(v@.take(i + 1)[k] == v@.take(i as int)[k]);
                }
            }
        }
        if c.is_alphanumeric() {
            let part = if cap {
                upper_of(c)
            } else {
                lower_of(c)
            };
            result = append(result, part.as_str());
            cap = false;
        } else {
            result.push(c);
            cap = true;
        }
        i = i + 1;
    }
    assert(v@.take(v@.len() as int) =~= v@);
    result
}

fn append(a: String, b: &str) -> (r: String)
    ensures
        r@ == a@ + b@,
{
    let mut r = a;
    let v = to_chars(b);
    let mut i: usize = 0;
    while i < v.len()
        invariant
            v@ == b@,
            i <= v@.len(),
            r@ == a@ + v@.take(i as int),
        decreases v.len() - i,
    {
        r.push(v[i]);
        i = i + 1;
        assert(r@ =~= a@ + v@.take(i as int));
    }
    assert(v@.take(v@.len() as int) =~= v@);
    r
}

/// Text styling (weight and slant).
#[derive(Debug, Clone, Copy, PartialEq, Eq, Default)]
pub enum TextStyle {
    #[default]
    Normal,
    Bold,
    Italic,
    BoldItalic,
}

impl TextStyle {
    /// Reads `StringStyle`: `bold`, `italic` or `bolditalic` in any case;
    /// anything else is normal.
    pub fn parse(s: &str) -> (r: Self)
        ensures
            r == (if lower(s@) == "bold"@ {
                TextStyle::Bold
            } else if lower(s@) == "italic"@ {
                TextStyle::Italic
            } else if lower(s@) == "bolditalic"@ {
                TextStyle::BoldItalic
            } else {
                TextStyle::Normal
            }),
    {
        let v = to_chars(s);
        let l = lower_range(&v, 0, v.len());
        assert(v@.subrange(0, v@.len() as int) =~= v@);
        if eq_str(&l, "bold") {
            TextStyle::Bold
        } else if eq_str(&l, "italic") {
            TextStyle::Italic
        } else if eq_str(&l, "bolditalic") {
            TextStyle::BoldItalic
        } else {
            TextStyle::Normal
        }
    }
}

} // verus!
