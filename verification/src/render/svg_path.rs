//! The `Path` shape's SVG path data: splitting it into tokens and reading
//! the drawing commands (`M m L l H h V v C c Z z`) with their number
//! texts. A command letter repeats for further number groups; after a
//! move, further pairs are lines. Letters of no command skip a token.
use crate::measures::system::{bounds_ok, word_bounds, words};
use crate::vfs::is_ascii_alpha;
use vstd::prelude::*;

verus! {

/// How one character of path data is spaced out, given the character
/// before it: letters stand alone, commas are spaces, and a minus sign
/// starts a new number unless it follows an exponent `e`.
pub open spec fn spaced(c: char, prev: char) -> Seq<char> {
    if is_ascii_alpha(c) {
        seq![' ', c, ' ']
    } else if c == ',' {
        seq![' ']
    } else if c == '-' && prev != 'e' && prev != 'E' {
        seq![' ', '-']
    } else {
        seq![c]
    }
}

/// The spaced-out path data.
pub open spec fn spaced_path(s: Seq<char>) -> Seq<char>
    decreases s.len(),
{
    if s.len() == 0 {
        seq![]
    } else {
        let prev = if s.len() >= 2 {
            s[s.len() - 2]
        } else {
            ' '
        };
        spaced_path(s.drop_last()) + spaced(s.last(), prev)
    }
}

/// A token that is one ASCII letter names a command.
pub open spec fn letter_token(t: Seq<char>) -> bool {
    t.len() == 1 && is_ascii_alpha(t[0])
}

/// One drawing command; `relative` for the lower-case letters, whose
/// numbers are offsets from the current point.
#[derive(Debug, Clone)]
pub enum PathCommand {
    MoveTo { relative: bool, x: String, y: String },
    LineTo { relative: bool, x: String, y: String },
    Horizontal { relative: bool, x: String },
    Vertical { relative: bool, y: String },
    CurveTo {
        relative: bool,
        c1x: String,
        c1y: String,
        c2x: String,
        c2y: String,
        x: String,
        y: String,
    },
    Close,
}

/// The mathematical value of a command.
pub enum PathCommandView {
    MoveTo { relative: bool, x: Seq<char>, y: Seq<char> },
    LineTo { relative: bool, x: Seq<char>, y: Seq<char> },
    Horizontal { relative: bool, x: Seq<char> },
    Vertical { relative: bool, y: Seq<char> },
    CurveTo { relative: bool, nums: Seq<Seq<char>> },
    Close,
}

impl View for PathCommand {
    type V = PathCommandView;

    open spec fn view(&self) -> PathCommandView {
        match self {
            PathCommand::MoveTo { relative, x, y } => PathCommandView::MoveTo {
                relative: *relative,
                x: x@,
                y: y@,
            },
            PathCommand::LineTo { relative, x, y } => PathCommandView::LineTo {
                relative: *relative,
                x: x@,
                y: y@,
            },
            PathCommand::Horizontal { relative, x } => PathCommandView::Horizontal {
                relative: *relative,
                x: x@,
            },
            PathCommand::Vertical { relative, y } => PathCommandView::Vertical {
                relative: *relative,
                y: y@,
            },
            PathCommand::CurveTo { relative, c1x, c1y, c2x, c2y, x, y } => PathCommandView::CurveTo {
                relative: *relative,
                nums: seq![c1x@, c1y@, c2x@, c2y@, x@, y@],
            },
            PathCommand::Close => PathCommandView::Close,
        }
    }
}

pub open spec fn command_views(v: Seq<PathCommand>) -> Seq<PathCommandView> {
    v.map_values(|c: PathCommand| c@)
}

/// `x` before the commands of the rest, if those end.
pub open spec fn then_cmd(x: PathCommandView, r: Option<Seq<PathCommandView>>) -> Option<
    Seq<PathCommandView>,
> {
    match r {
        Some(s) => Some(seq![x] + s),
        None => None,
    }
}

/// The commands read from token `i` on under the current command letter
/// `cmd`; `None` when reading never ends (a close command followed by a
/// token that is no letter, which it would close again forever).
pub open spec fn svg_run(t: Seq<Seq<char>>, i: int, cmd: char) -> Option<Seq<PathCommandView>>
    decreases t.len() - i,
{
    if i < 0 || i >= t.len() {
        Some(seq![])
    } else {
        let c = if letter_token(t[i]) {
            t[i][0]
        } else {
            cmd
        };
        let j = if letter_token(t[i]) {
            i + 1
        } else {
            i
        };
        if c == 'M' || c == 'm' || c == 'L' || c == 'l' {
            if j + 1 < t.len() {
                let rel = c == 'm' || c == 'l';
                let x = if c == 'M' || c == 'm' {
                    PathCommandView::MoveTo { relative: rel, x: t[j], y: t[j + 1] }
                } else {
                    PathCommandView::LineTo { relative: rel, x: t[j], y: t[j + 1] }
                };
                let next = if c == 'M' {
                    'L'
                } else if c == 'm' {
                    'l'
                } else {
                    c
                };
                then_cmd(x, svg_run(t, j + 2, next))
            } else {
                Some(seq![])
            }
        } else if c == 'H' || c == 'h' || c == 'V' || c == 'v' {
            if j < t.len() {
                let x = if c == 'H' || c == 'h' {
                    PathCommandView::Horizontal { relative: c == 'h', x: t[j] }
                } else {
                    PathCommandView::Vertical { relative: c == 'v', y: t[j] }
                };
                then_cmd(x, svg_run(t, j + 1, c))
            } else {
                Some(seq![])
            }
        } else if c == 'C' || c == 'c' {
            if j + 5 < t.len() {
                then_cmd(
                    PathCommandView::CurveTo { relative: c == 'c', nums: t.subrange(j, j + 6) },
                    svg_run(t, j + 6, c),
                )
            } else {
                Some(seq![])
            }
        } else if c == 'Z' || c == 'z' {
            if j >= t.len() {
                Some(seq![PathCommandView::Close])
            } else if j > i && letter_token(t[j]) {
                then_cmd(PathCommandView::Close, svg_run(t, j, c))
            } else {
                None
            }
        } else if j + 1 < t.len() {
            svg_run(t, j + 1, c)
        } else {
            Some(seq![])
        }
    }
}

/// The commands of a path's data.
pub open spec fn svg_commands(path: Seq<char>) -> Option<Seq<PathCommandView>> {
    svg_run(words(spaced_path(path)), 0, ' ')
}

proof fn lemma_then_cmd_glue(p: Seq<PathCommandView>, x: PathCommandView, r: Option<Seq<PathCommandView>>)
    ensures
        (match r {
            Some(s) => Some(p.push(x) + s),
            None => None::<Seq<PathCommandView>>,
        }) == (match then_cmd(x, r) {
            Some(s) => Some(p + s),
            None => None::<Seq<PathCommandView>>,
        }),
{
    match r {
        Some(s) => {
            assert(p.push(x) + s =~= p + (seq![x] + s));
        },
        None => {},
    }
}

/// Spaces out path data.
fn spaced_exec(s: &str) -> (r: Vec<char>)
    ensures
        r@ == spaced_path(s@),
{
    let v = crate::text::to_chars(s);
    let mut out: Vec<char> = Vec::new();
    let mut prev = ' ';
    let mut i: usize = 0;
    while i < v.len()
        invariant
            v@ == s@,
            i <= v@.len(),
            out@ == spaced_path(v@.take(i as int)),
            prev == (if i >= 1 {
                v@[i - 1]
            } else {
                ' '
            }),
        decreases v.len() - i,
    {
        let c = v[i];
        proof {
            let w = v@.take(i + 1);
            assert(w.drop_last() =~= v@.take(i as int));
            assert(w.last() == c);
            if i >= 1 {
                assert(w[w.len() - 2] == v@[i - 1]);
            }
        }
        if ('a' <= c && c <= 'z') || ('A' <= c && c <= 'Z') {
            out.push(' ');
            out.push(c);
            out.push(' ');
        } else if c == ',' {
            out.push(' ');
        } else if c == '-' && prev != 'e' && prev != 'E' {
            out.push(' ');
            out.push('-');
        } else {
            out.push(c);
        }
        assert(out@ =~= spaced_path(v@.take(i + 1)));
        prev = c;
        i = i + 1;
    }
    assert(v@.take(v@.len() as int) =~= v@);
    out
}

/// The text of token `k`.
fn token_text(v: &Vec<char>, b: &Vec<(usize, usize)>, k: usize) -> (r: String)
    requires
        bounds_ok(v@, b@),
        k < b@.len(),
    ensures
        r@ == words(v@)[k as int],
{
    let (s, e) = b[k];
    assert(v@.subrange(s as int, e as int) == words(v@)[k as int]);
    crate::text::string_of(v, s, e)
}

/// Whether token `k` is one ASCII letter, and which.
fn letter_at(v: &Vec<char>, b: &Vec<(usize, usize)>, k: usize) -> (r: Option<char>)
    requires
        bounds_ok(v@, b@),
        k < b@.len(),
    ensures
        match r {
            Some(c) => letter_token(words(v@)[k as int]) && c == words(v@)[k as int][0],
            None => !letter_token(words(v@)[k as int]),
        },
{
    let (s, e) = b[k];
    assert(v@.subrange(s as int, e as int) == words(v@)[k as int]);
    if e > s && e - s == 1 {
        let c = v[s];
        if ('a' <= c && c <= 'z') || ('A' <= c && c <= 'Z') {
            return Some(c);
        }
    }
    None
}

/// Reads the drawing commands of a path's data; `None` when the data has
/// a close command followed by a number, on which the reading never ends.
pub fn svg_path_commands(path: &str) -> (r: Option<Vec<PathCommand>>)
    ensures
        match svg_commands(path@) {
            Some(cs) => r matches Some(v) && command_views(v@) == cs,
            None => r is None,
        },
{
    let v = spaced_exec(path);
    let b = word_bounds(&v);
    let ghost t = words(v@);
    let n = b.len();
    let mut out: Vec<PathCommand> = Vec::new();
    let mut i: usize = 0;
    let mut cmd = ' ';
    proof {
        assert(command_views(out@) =~= Seq::<PathCommandView>::empty());
        match svg_run(t, 0, ' ') {
            Some(s) => assert(Seq::<PathCommandView>::empty() + s =~= s),
            None => {},
        }
    }
    while i < n
        invariant
            bounds_ok(v@, b@),
            v@ == spaced_path(path@),
            t == words(v@),
            n == b@.len(),
            n == t.len(),
            i <= n,
            svg_run(t, 0, ' ') == (match svg_run(t, i as int, cmd) {
                Some(s) => Some(command_views(out@) + s),
                None => None::<Seq<PathCommandView>>,
            }),
        decreases n - i,
    {
        let ghost p = command_views(out@);
        let ghost i0 = i as int;
        let ghost cmd0 = cmd;
        let mut j = i;
        let mut c = cmd;
        if let Some(l) = letter_at(&v, &b, i) {
            c = l;
            j = i + 1;
        }
        if c == 'M' || c == 'm' || c == 'L' || c == 'l' {
            if j < n && n - j > 1 {
                let rel = c == 'm' || c == 'l';
                let x = token_text(&v, &b, j);
                let y = token_text(&v, &b, j + 1);
                let command = if c == 'M' || c == 'm' {
                    PathCommand::MoveTo { relative: rel, x, y }
                } else {
                    PathCommand::LineTo { relative: rel, x, y }
                };
                let next = if c == 'M' {
                    'L'
                } else if c == 'm' {
                    'l'
                } else {
                    c
                };
                proof {
                    lemma_then_cmd_glue(p, command@, svg_run(t, j + 2, next));
                    assert(command_views(out@.push(command)) =~= p.push(command@));
                }
                out.push(command);
                i = j + 2;
                cmd = next;
            } else {
                proof {
                    assert(svg_run(t, i as int, cmd) == Some(Seq::<PathCommandView>::empty()));
                    assert(command_views(out@) + Seq::<PathCommandView>::empty() =~= command_views(out@));
                }
                return Some(out);
            }
        } else if c == 'H' || c == 'h' || c == 'V' || c == 'v' {
            if j < n {
                let num = token_text(&v, &b, j);
                let command = if c == 'H' || c == 'h' {
                    PathCommand::Horizontal { relative: c == 'h', x: num }
                } else {
                    PathCommand::Vertical { relative: c == 'v', y: num }
                };
                proof {
                    lemma_then_cmd_glue(p, command@, svg_run(t, j + 1, c));
                    assert(command_views(out@.push(command)) =~= p.push(command@));
                }
                out.push(command);
                i = j + 1;
                cmd = c;
            } else {
                proof {
                    assert(svg_run(t, i as int, cmd) == Some(Seq::<PathCommandView>::empty()));
                    assert(command_views(out@) + Seq::<PathCommandView>::empty() =~= command_views(out@));
                }
                return Some(out);
            }
        } else if c == 'C' || c == 'c' {
            if j < n && n - j > 5 {
                let c1x = token_text(&v, &b, j);
                let c1y = token_text(&v, &b, j + 1);
                let c2x = token_text(&v, &b, j + 2);
                let c2y = token_text(&v, &b, j + 3);
                let x = token_text(&v, &b, j + 4);
                let y = token_text(&v, &b, j + 5);
                proof {
                    assert(seq![c1x@, c1y@, c2x@, c2y@, x@, y@] =~= t.subrange(j as int, j + 6));
                }
                let command = PathCommand::CurveTo { relative: c == 'c', c1x, c1y, c2x, c2y, x, y };
                proof {
                    lemma_then_cmd_glue(p, command@, svg_run(t, j + 6, c));
                    assert(command_views(out@.push(command)) =~= p.push(command@));
                }
                out.push(command);
                i = j + 6;
                cmd = c;
            } else {
                proof {
                    assert(svg_run(t, i as int, cmd) == Some(Seq::<PathCommandView>::empty()));
                    assert(command_views(out@) + Seq::<PathCommandView>::empty() =~= command_views(out@));
                }
                return Some(out);
            }
        } else if c == 'Z' || c == 'z' {
            if j >= n {
                proof {
                    lemma_then_cmd_glue(p, PathCommandView::Close, Some(Seq::<PathCommandView>::empty()));
                    assert(command_views(out@.push(PathCommand::Close)) =~= p.push(PathCommandView::Close));
                    assert(p.push(PathCommandView::Close) + Seq::<PathCommandView>::empty() =~= p.push(PathCommandView::Close));
                }
                out.push(PathCommand::Close);
                i = j;
                cmd = c;
                assert(svg_run(t, 0, ' ') == Some(command_views(out@)));
                return Some(out);
            } else if j > i && letter_at(&v, &b, j).is_some() {
                proof {
                    lemma_then_cmd_glue(p, PathCommandView::Close, svg_run(t, j as int, c));
                    assert(command_views(out@.push(PathCommand::Close)) =~= p.push(PathCommandView::Close));
                }
                out.push(PathCommand::Close);
                i = j;
                cmd = c;
            } else {
                assert(svg_run(t, i as int, cmd) is None);
                return None;
            }
        } else if j < n && n - j > 1 {
            i = j + 1;
            cmd = c;
        } else {
                proof {
                    assert(svg_run(t, i as int, cmd) == Some(Seq::<PathCommandView>::empty()));
                    assert(command_views(out@) + Seq::<PathCommandView>::empty() =~= command_views(out@));
                }
                return Some(out);
        }
    }
    proof {
        assert(svg_run(t, i as int, cmd) == Some(Seq::<PathCommandView>::empty()));
        assert(command_views(out@) + Seq::<PathCommandView>::empty() =~= command_views(out@));
    }
    Some(out)
}

/// No token from `j` on is a command letter.
pub open spec fn no_letters(t: Seq<Seq<char>>, j: int) -> bool {
    forall|k: int| j <= k < t.len() ==> !letter_token(#[trigger] t[k])
}

/// A line to each pair of number tokens from `j` on (a last lone number is
/// dropped).
pub open spec fn pair_lines(t: Seq<Seq<char>>, j: int, relative: bool) -> Seq<PathCommandView> {
    Seq::new(
        ((t.len() - j) / 2) as nat,
        |k: int| PathCommandView::LineTo { relative: relative, x: t[j + 2 * k], y: t[j + 2 * k + 1] },
    )
}

/// A horizontal (`H`, `h`) or vertical (`V`, `v`) line per number token
/// from `j` on.
pub open spec fn single_runs(t: Seq<Seq<char>>, j: int, c: char) -> Seq<PathCommandView> {
    Seq::new(
        (t.len() - j) as nat,
        |k: int| if c == 'H' || c == 'h' {
            PathCommandView::Horizontal { relative: c == 'h', x: t[j + k] }
        } else {
            PathCommandView::Vertical { relative: c == 'v', y: t[j + k] }
        },
    )
}

/// A curve to each group of six number tokens from `j` on.
pub open spec fn curve_runs(t: Seq<Seq<char>>, j: int, relative: bool) -> Seq<PathCommandView> {
    Seq::new(
        ((t.len() - j) / 6) as nat,
        |k: int| PathCommandView::CurveTo { relative: relative, nums: t.subrange(j + 6 * k, j + 6 * k + 6) },
    )
}

proof fn lemma_line_pairs(t: Seq<Seq<char>>, j: int, c: char)
    requires
        c == 'L' || c == 'l',
        0 <= j <= t.len(),
        no_letters(t, j),
    ensures
        svg_run(t, j, c) == Some(pair_lines(t, j, c == 'l')),
    decreases t.len() - j,
{
    if j < t.len() {
        assert(!letter_token(t[j]));
        if j + 1 < t.len() {
            lemma_line_pairs(t, j + 2, c);
            let x = PathCommandView::LineTo { relative: c == 'l', x: t[j], y: t[j + 1] };
            assert(((t.len() - j) / 2) as nat == 1 + ((t.len() - (j + 2)) / 2) as nat);
            assert(seq![x] + pair_lines(t, j + 2, c == 'l') =~= pair_lines(t, j, c == 'l'));
        } else {
            assert(pair_lines(t, j, c == 'l') =~= Seq::<PathCommandView>::empty());
        }
    } else {
        assert(pair_lines(t, j, c == 'l') =~= Seq::<PathCommandView>::empty());
    }
}

proof fn lemma_single_runs(t: Seq<Seq<char>>, j: int, c: char)
    requires
        c == 'H' || c == 'h' || c == 'V' || c == 'v',
        0 <= j <= t.len(),
        no_letters(t, j),
    ensures
        svg_run(t, j, c) == Some(single_runs(t, j, c)),
    decreases t.len() - j,
{
    if j < t.len() {
        assert(!letter_token(t[j]));
        lemma_single_runs(t, j + 1, c);
        assert(seq![single_runs(t, j, c)[0]] + single_runs(t, j + 1, c) =~= single_runs(t, j, c));
    } else {
        assert(single_runs(t, j, c) =~= Seq::<PathCommandView>::empty());
    }
}

proof fn lemma_curve_runs(t: Seq<Seq<char>>, j: int, c: char)
    requires
        c == 'C' || c == 'c',
        0 <= j <= t.len(),
        no_letters(t, j),
    ensures
        svg_run(t, j, c) == Some(curve_runs(t, j, c == 'c')),
    decreases t.len() - j,
{
    if j < t.len() {
        assert(!letter_token(t[j]));
        if j + 5 < t.len() {
            lemma_curve_runs(t, j + 6, c);
            assert(((t.len() - j) / 6) as nat == 1 + ((t.len() - (j + 6)) / 6) as nat);
            assert(seq![curve_runs(t, j, c == 'c')[0]] + curve_runs(t, j + 6, c == 'c') =~= curve_runs(t, j, c == 'c'));
        } else {
            assert(curve_runs(t, j, c == 'c') =~= Seq::<PathCommandView>::empty());
        }
    } else {
        assert(curve_runs(t, j, c == 'c') =~= Seq::<PathCommandView>::empty());
    }
}

/// Law: a command letter repeats over the numbers that follow it until the
/// next letter. `L x1 y1 x2 y2 ...` draws an absolute line to each pair and
/// `l` a relative one to each pair; `M x y` (or `m`) moves, and the pairs
/// after it are lines of the same kind (absolute after `M`, relative after
/// `m`); `H`, `h`, `V` and `v` take one number per command, and `C` and `c`
/// six; a last incomplete group is dropped.
pub proof fn law_commands_repeat_over_their_numbers(t: Seq<Seq<char>>, cmd: char)
    requires
        t.len() >= 1,
        no_letters(t, 1),
    ensures
        t[0] == seq!['L'] ==> svg_run(t, 0, cmd) == Some(pair_lines(t, 1, false)),
        t[0] == seq!['l'] ==> svg_run(t, 0, cmd) == Some(pair_lines(t, 1, true)),
        t[0] == seq!['M'] && t.len() >= 3 ==> svg_run(t, 0, cmd) == Some(
            seq![PathCommandView::MoveTo { relative: false, x: t[1], y: t[2] }] + pair_lines(t, 3, false),
        ),
        t[0] == seq!['m'] && t.len() >= 3 ==> svg_run(t, 0, cmd) == Some(
            seq![PathCommandView::MoveTo { relative: true, x: t[1], y: t[2] }] + pair_lines(t, 3, true),
        ),
        t[0] == seq!['H'] ==> svg_run(t, 0, cmd) == Some(single_runs(t, 1, 'H')),
        t[0] == seq!['h'] ==> svg_run(t, 0, cmd) == Some(single_runs(t, 1, 'h')),
        t[0] == seq!['V'] ==> svg_run(t, 0, cmd) == Some(single_runs(t, 1, 'V')),
        t[0] == seq!['v'] ==> svg_run(t, 0, cmd) == Some(single_runs(t, 1, 'v')),
        t[0] == seq!['C'] ==> svg_run(t, 0, cmd) == Some(curve_runs(t, 1, false)),
        t[0] == seq!['c'] ==> svg_run(t, 0, cmd) == Some(curve_runs(t, 1, true)),
{
    if t[0] == seq!['L'] || t[0] == seq!['l'] {
        let c = t[0][0];
        assert(letter_token(t[0]));
        lemma_line_pairs(t, 1, c);
    }
    if (t[0] == seq!['M'] || t[0] == seq!['m']) && t.len() >= 3 {
        let c = t[0][0];
        assert(letter_token(t[0]));
        let next = if c == 'M' { 'L' } else { 'l' };
        lemma_line_pairs(t, 3, next);
    }
    if t[0] == seq!['H'] || t[0] == seq!['h'] || t[0] == seq!['V'] || t[0] == seq!['v'] {
        let c = t[0][0];
        assert(letter_token(t[0]));
        lemma_single_runs(t, 1, c);
    }
    if t[0] == seq!['C'] || t[0] == seq!['c'] {
        let c = t[0][0];
        assert(letter_token(t[0]));
        lemma_curve_runs(t, 1, c);
    }
}

} // verus!
