//! Rainmeter `Substitute` and `RegExpSubstitute`: reading the list of
//! `"from":"to"` pairs and applying them in order.
use crate::text::{
    replace_str, replaced, split_on, split_str, string_of, to_chars, trim, trim_bounds, trim_char,
    trim_char_str, views,
};
use vstd::prelude::*;

verus! {

pub open spec fn pair_views(v: Seq<(String, String)>) -> Seq<(Seq<char>, Seq<char>)> {
    Seq::new(v.len(), |i: int| (v[i].0@, v[i].1@))
}

/// What the regular expression `pattern` finds in `text` with
/// `captures_iter`: groups 1 and 2 of each successive match (a group that
/// takes no part as empty text); nothing when the pattern does not
/// compile.
pub uninterp spec fn group_pair_matches(pattern: Seq<char>, text: Seq<char>) -> Seq<(Seq<char>, Seq<char>)>;

/// Calls `regex::Regex::new` and `Regex::captures_iter`, keeping groups 1
/// and 2 of each match. Which matches the pattern finds is the regex
/// crate's rule and is only named here.
#[verifier::external_body]
fn group_pairs(pattern: &str, text: &str) -> (r: Vec<(String, String)>)
    ensures
        pair_views(r@) == group_pair_matches(pattern@, text@),
{
    let group = |c: &regex::Captures, i: usize| c.get(i).map_or(String::new(), |m| m.as_str().to_string());
    match regex::Regex::new(pattern) {
        Ok(re) => re.captures_iter(text).map(|c| (group(&c, 1), group(&c, 2))).collect(),
        Err(_) => Vec::new(),
    }
}

/// The `"from":"to"` pairs of a text: groups 1 and 2 of each match of
/// `"([^"]*)":"([^"]*)"`.
pub open spec fn quoted_pair_matches(text: Seq<char>) -> Seq<(Seq<char>, Seq<char>)> {
    group_pair_matches("\"([^\"]*)\":\"([^\"]*)\""@, text)
}

fn quoted_pairs(text: &str) -> (r: Vec<(String, String)>)
    ensures
        pair_views(r@) == quoted_pair_matches(text@),
{
    group_pairs("\"([^\"]*)\":\"([^\"]*)\"", text)
}

/// What `Regex::new(pattern)` then `replace_all(text, rep)` returns, or
/// `None` when the pattern does not compile.
pub uninterp spec fn regex_replaced(pattern: Seq<char>, text: Seq<char>, rep: Seq<char>) -> Option<Seq<char>>;

/// Calls `regex::Regex::new` and `Regex::replace_all` (where `$name`
/// in `rep` expands to a group); the result depends on the three strings
/// alone and is left as a name.
#[verifier::external_body]
fn regex_replace(pattern: &str, text: &str, rep: &str) -> (r: Option<String>)
    ensures
        crate::measures::ov(r) == regex_replaced(pattern@, text@, rep@),
{
    match regex::Regex::new(pattern) {
        Ok(re) => Some(re.replace_all(text, rep).to_string()),
        Err(_) => None,
    }
}

/// One `key:value` item of the plain comma-separated form: both sides
/// trimmed and stripped of `"`.
pub open spec fn plain_pairs(items: Seq<Seq<char>>) -> Seq<(Seq<char>, Seq<char>)>
    decreases items.len(),
{
    if items.len() == 0 {
        Seq::empty()
    } else {
        let rest = plain_pairs(items.drop_last());
        let it = items.last();
        let i = crate::variables::find_from(it, 0, ':');
        if i == -1 {
            rest
        } else {
            rest.push((trim_char(trim(it.take(i)), '"'), trim_char(trim(it.skip(i + 1)), '"')))
        }
    }
}

/// The pairs of a `Substitute` option: the quoted `"from":"to"` pairs; if
/// there are none, those found once the text is wrapped in quotes (when
/// the outer quotes were stripped); else plain `from:to` items separated
/// by commas.
pub open spec fn substitute_pairs(raw: Seq<char>) -> Seq<(Seq<char>, Seq<char>)> {
    let t = trim(raw);
    let wrapped = seq!['"'] + t + seq!['"'];
    if t.len() == 0 {
        Seq::empty()
    } else if quoted_pair_matches(t).len() > 0 {
        quoted_pair_matches(t)
    } else if quoted_pair_matches(wrapped).len() > 0 {
        quoted_pair_matches(wrapped)
    } else {
        plain_pairs(split_on(t, ','))
    }
}

fn plain_item(item: &str) -> (r: Option<(String, String)>)
    ensures
        match r {
            Some(p) => crate::variables::find_from(item@, 0, ':') != -1 && p.0@ == trim_char(
                trim(item@.take(crate::variables::find_from(item@, 0, ':'))),
                '"',
            ) && p.1@ == trim_char(
                trim(item@.skip(crate::variables::find_from(item@, 0, ':') + 1)),
                '"',
            ),
            None => crate::variables::find_from(item@, 0, ':') == -1,
        },
{
    let v = to_chars(item);
    let mut e: usize = 0;
    while e < v.len() && v[e] != ':'
        invariant
            v@ == item@,
            e <= v@.len(),
            forall|k: int| 0 <= k < e ==> v@[k] != ':',
        decreases v.len() - e,
    {
        e = e + 1;
    }
    proof {
        crate::variables::lemma_find_from(v@, 0, ':');
        let f = crate::variables::find_from(v@, 0, ':');
        if f != -1 && f < e {
            assert(v@[f] == ':');
        }
    }
    if e == v.len() {
        return None;
    }
    assert(crate::variables::find_from(item@, 0, ':') == e);
    let (a, b) = trim_bounds(&v, 0, e);
    let (c, d) = trim_bounds(&v, e + 1, v.len());
    assert(v@.take(e as int) =~= v@.subrange(0, e as int));
    assert(v@.skip(e + 1) =~= v@.subrange(e + 1, v@.len() as int));
    let k = trim_char_str(string_of(&v, a, b).as_str(), '"');
    let val = trim_char_str(string_of(&v, c, d).as_str(), '"');
    Some((k, val))
}

/// Reads the pairs of a `Substitute` option (see `substitute_pairs`).
pub fn parse_substitute_pairs(raw: &str) -> (r: Vec<(String, String)>)
    ensures
        pair_views(r@) == substitute_pairs(raw@),
{
    let t = crate::text::trim_str(raw);
    let tv = to_chars(t.as_str());
    if tv.len() == 0 {
        let e: Vec<(String, String)> = Vec::new();
        assert(pair_views(e@) =~= Seq::empty());
        return e;
    }
    let q = quoted_pairs(t.as_str());
    if q.len() > 0 {
        return q;
    }
    let mut w = String::new();
    w.push('"');
    let mut i: usize = 0;
    while i < tv.len()
        invariant
            i <= tv@.len(),
            w@ == seq!['"'] + tv@.take(i as int),
        decreases tv.len() - i,
    {
        w.push(tv[i]);
        i = i + 1;
        assert(w@ =~= seq!['"'] + tv@.take(i as int));
    }
    w.push('"');
    assert(tv@.take(tv@.len() as int) =~= tv@);
    assert(w@ =~= seq!['"'] + t@ + seq!['"']);
    let q2 = quoted_pairs(w.as_str());
    if q2.len() > 0 {
        return q2;
    }
    let items = split_str(t.as_str(), ',');
    let ghost iv = views(items@);
    let mut out: Vec<(String, String)> = Vec::new();
    let mut j: usize = 0;
    while j < items.len()
        invariant
            iv == views(items@),
            iv == split_on(t@, ','),
            j <= items@.len(),
            pair_views(out@) == plain_pairs(iv.take(j as int)),
        decreases items.len() - j,
    {
        assert(iv.take(j + 1).drop_last() =~= iv.take(j as int));
        assert(iv.take(j + 1).last() == items@[j as int]@);
        let ghost before = out@;
        match plain_item(items[j].as_str()) {
            Some(p) => {
                out.push(p);
                assert(pair_views(out@) =~= pair_views(before).push((p.0@, p.1@)));
            },
            None => {},
        }
        j = j + 1;
    }
    assert(iv.take(items@.len() as int) =~= iv);
    out
}

/// The text after applying the pairs in order: each `from` is replaced by
/// its `to` everywhere, as a regular expression when `is_regex` (a pattern
/// that does not compile changes nothing).
pub open spec fn substituted(
    input: Seq<char>,
    pairs: Seq<(Seq<char>, Seq<char>)>,
    is_regex: bool,
) -> Seq<char>
    decreases pairs.len(),
{
    if pairs.len() == 0 {
        input
    } else {
        let before = substituted(input, pairs.drop_last(), is_regex);
        let (from, to) = pairs.last();
        if is_regex {
            match regex_replaced(from, before, to) {
                Some(x) => x,
                None => before,
            }
        } else {
            replaced(before, from, to)
        }
    }
}

/// Applies a `Substitute` (or, with `is_regex`, a `RegExpSubstitute`)
/// option to a measure's text.
pub fn apply_substitute(input: &str, substitute_raw: &str, is_regex: bool) -> (r: String)
    ensures
        r@ == substituted(input@, substitute_pairs(substitute_raw@), is_regex),
{
    let pairs = parse_substitute_pairs(substitute_raw);
    let ghost pv = pair_views(pairs@);
    let mut result = input.to_string();
    let mut i: usize = 0;
    while i < pairs.len()
        invariant
            pv == pair_views(pairs@),
            i <= pairs@.len(),
            result@ == substituted(input@, pv.take(i as int), is_regex),
        decreases pairs.len() - i,
    {
        assert(pv.take(i + 1).drop_last() =~= pv.take(i as int));
        assert(pv.take(i + 1).last() == (pairs@[i as int].0@, pairs@[i as int].1@));
        let from = pairs[i].0.as_str();
        let to = pairs[i].1.as_str();
        if is_regex {
            match regex_replace(from, result.as_str(), to) {
                Some(x) => {
                    result = x;
                },
                None => {},
            }
        } else {
            result = replace_str(result.as_str(), from, to);
        }
        i = i + 1;
    }
    assert(pv.take(pairs@.len() as int) =~= pv);
    result
}

} // verus!
