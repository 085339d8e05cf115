//! Rainmeter paths on a case-sensitive file system: normalising Windows
//! paths, the walk that resolves them below a base directory without
//! leaving it, and the cache of resolved paths.
use crate::text::{eq_str, lower, lower_range, string_of_all, to_chars, trim, trim_bounds};
use crate::variables::{
    distinct_keys, lemma_pairs_map_len, lemma_pairs_map_lookup, lemma_pairs_map_push,
    lemma_pairs_map_update, pairs_map,
};
use vstd::prelude::*;

verus! {

pub open spec fn is_ascii_alpha(c: char) -> bool {
    ('a' <= c && c <= 'z') || ('A' <= c && c <= 'Z')
}

/// Every `\` turned into `/`.
pub open spec fn slashes(s: Seq<char>) -> Seq<char> {
    Seq::new(
        s.len(),
        |i: int|
            if s[i] == '\\' {
                '/'
            } else {
                s[i]
            },
    )
}

/// The number of leading `/`.
pub open spec fn lead_slashes(s: Seq<char>) -> nat
    decreases s.len(),
{
    if s.len() > 0 && s[0] == '/' {
        1 + lead_slashes(s.skip(1))
    } else {
        0
    }
}

/// A Rainmeter path made relative: trimmed, without a drive letter such
/// as `C:`, with `/` separators and no leading `/`.
pub open spec fn normalized(p: Seq<char>) -> Seq<char> {
    let t = trim(p);
    let w = if t.len() >= 2 && is_ascii_alpha(t[0]) && t[1] == ':' {
        t.skip(2)
    } else {
        t
    };
    let s = slashes(w);
    s.skip(lead_slashes(s) as int)
}

/// The key under which a resolution is cached: the base, `::`, and the
/// normalised path in ASCII lower case.
pub open spec fn cache_key(base: Seq<char>, raw_rel: Seq<char>) -> Seq<char> {
    base + "::"@ + lower(normalized(raw_rel))
}

/// One move of the walk below the base directory.
#[derive(Debug, Clone, PartialEq, Eq)]
pub enum PathStep {
    /// Enter the entry of this name (matched without regard to case).
    Descend(String),
    /// Go back to the parent directory.
    Up,
}

pub enum PathStepView {
    Descend(Seq<char>),
    Up,
}

impl View for PathStep {
    type V = PathStepView;

    open spec fn view(&self) -> PathStepView {
        match self {
            PathStep::Descend(s) => PathStepView::Descend(s@),
            PathStep::Up => PathStepView::Up,
        }
    }
}

pub open spec fn step_views(v: Seq<PathStep>) -> Seq<PathStepView> {
    Seq::new(v.len(), |i: int| v[i]@)
}

/// The walk for a list of segments starting `depth` levels below the base:
/// empty and `.` segments are skipped, `..` goes up unless already at the
/// base, and any other segment is entered.
pub open spec fn walk(segs: Seq<Seq<char>>) -> (Seq<PathStepView>, nat)
    decreases segs.len(),
{
    if segs.len() == 0 {
        (Seq::empty(), 0)
    } else {
        let (steps, depth) = walk(segs.drop_last());
        let s = segs.last();
        if s.len() == 0 || s == "."@ {
            (steps, depth)
        } else if s == ".."@ {
            if depth > 0 {
                (steps.push(PathStepView::Up), (depth - 1) as nat)
            } else {
                (steps, depth)
            }
        } else {
            (steps.push(PathStepView::Descend(s)), depth + 1)
        }
    }
}

/// How deep below the base a sequence of steps ends, counting each move.
pub open spec fn net_depth(steps: Seq<PathStepView>) -> int
    decreases steps.len(),
{
    if steps.len() == 0 {
        0
    } else {
        net_depth(steps.drop_last()) + match steps.last() {
            PathStepView::Up => -1int,
            PathStepView::Descend(_) => 1int,
        }
    }
}

/// The walk never goes above its base: every prefix of its steps ends at
/// or below the base, and the whole ends at the depth the walk reports.
pub proof fn law_walk_stays_below_base(segs: Seq<Seq<char>>)
    ensures
        net_depth(walk(segs).0) == walk(segs).1,
        forall|i: int| 0 <= i <= walk(segs).0.len() ==> net_depth(#[trigger] walk(segs).0.take(i)) >= 0,
    decreases segs.len(),
{
    if segs.len() > 0 {
        law_walk_stays_below_base(segs.drop_last());
        let (steps, depth) = walk(segs.drop_last());
        let (steps2, depth2) = walk(segs);
        assert forall|i: int| 0 <= i <= steps2.len() implies net_depth(#[trigger] steps2.take(i)) >= 0 by {
            if i <= steps.len() {
                assert(steps2.take(i) =~= steps.take(i));
            } else {
                assert(steps2.take(i) =~= steps2);
                assert(steps2.drop_last() =~= steps);
            }
        }
        if steps2.len() > steps.len() {
            assert(steps2.drop_last() =~= steps);
        }
    }
}

/// Two spellings of a path that normalise to the same text up to ASCII
/// case share their cache key below any base.
pub open spec fn same_path(r1: Seq<char>, r2: Seq<char>) -> bool {
    lower(normalized(r1)) == lower(normalized(r2))
}

/// A resolution remembered under one spelling of a path is found under
/// every other spelling of it (`is_cached` and `cached`), and remembering
/// it again under such a spelling leaves the number of cached resolutions
/// (`cache_len`) unchanged; a path not cached yet adds exactly one.
pub proof fn law_cache_is_case_blind(
    m: Map<Seq<char>, Seq<char>>,
    base: Seq<char>,
    r1: Seq<char>,
    r2: Seq<char>,
    p: Seq<char>,
    q: Seq<char>,
)
    requires
        m.dom().finite(),
        same_path(r1, r2),
    ensures
        m.insert(cache_key(base, r1), p).contains_key(cache_key(base, r2)),
        m.insert(cache_key(base, r1), p)[cache_key(base, r2)] == p,
        m.insert(cache_key(base, r1), p).insert(cache_key(base, r2), q).len() == m.insert(cache_key(base, r1), p).len(),
        m.insert(cache_key(base, r1), p).len() == m.len() + (if m.contains_key(cache_key(base, r1)) {
            0int
        } else {
            1int
        }),
{
    let k = cache_key(base, r1);
    assert(cache_key(base, r2) == k);
    let m1 = m.insert(k, p);
    assert(m1.dom() == m.dom().insert(k));
    vstd::set::axiom_set_insert_len(m.dom(), k);
    assert(m1.insert(k, q).dom() =~= m1.dom());
}

/// The steps that resolve a normalised path below the base.
pub fn walk_steps(normalized_path: &str) -> (r: Vec<PathStep>)
    ensures
        step_views(r@) == walk(crate::text::split_on(normalized_path@, '/')).0,
{
    let segs = crate::text::split_str(normalized_path, '/');
    let ghost sv = crate::text::views(segs@);
    let mut steps: Vec<PathStep> = Vec::new();
    let mut depth: usize = 0;
    let mut i: usize = 0;
    while i < segs.len()
        invariant
            sv == crate::text::views(segs@),
            i <= segs@.len(),
            (step_views(steps@), depth as nat) == walk(sv.take(i as int)),
            depth <= i,
        decreases segs.len() - i,
    {
        assert(sv.take(i + 1).drop_last() =~= sv.take(i as int));
        assert(sv.take(i + 1).last() == segs@[i as int]@);
        let s = segs[i].as_str();
        let sc = to_chars(s);
        let ghost old_steps = steps@;
        if sc.len() == 0 || eq_str(&sc, ".") {
        } else if eq_str(&sc, "..") {
            if depth > 0 {
                steps.push(PathStep::Up);
                depth = depth - 1;
                assert(step_views(steps@) =~= step_views(old_steps).push(PathStepView::Up));
            }
        } else {
            steps.push(PathStep::Descend(s.to_string()));
            depth = depth + 1;
            assert(step_views(steps@) =~= step_views(old_steps).push(PathStepView::Descend(s@)));
        }
        i = i + 1;
    }
    assert(sv.take(segs@.len() as int) =~= sv);
    steps
}

/// Normalises a relative or Windows path: trims it, strips a drive letter
/// (`C:` or `c:`), turns `\` into `/` and drops leading `/`.
pub fn normalize_path(rel_path: &str) -> (r: String)
    ensures
        r@ == normalized(rel_path@),
{
    let v = to_chars(rel_path);
    assert(v@.subrange(0, v@.len() as int) =~= v@);
    let (a, b) = trim_bounds(&v, 0, v.len());
    let ghost t = v@.subrange(a as int, b as int);
    let start = if b - a >= 2 && (('a' <= v[a] && v[a] <= 'z') || ('A' <= v[a] && v[a] <= 'Z'))
        && v[a + 1] == ':' {
        a + 2
    } else {
        a
    };
    let ghost w = v@.subrange(start as int, b as int);
    assert(w == (if t.len() >= 2 && is_ascii_alpha(t[0]) && t[1] == ':' {
        t.skip(2)
    } else {
        t
    })) by {
        if t.len() >= 2 {
            assert(t.skip(2) =~= v@.subrange(a + 2, b as int));
        }
    }
    let mut k = start;
    while k < b && (v[k] == '/' || v[k] == '\\')
        invariant
            start <= k <= b <= v@.len(),
            lead_slashes(slashes(w)) == (k - start) + lead_slashes(slashes(v@.subrange(k as int, b as int))),
        decreases b - k,
    {
        assert(slashes(v@.subrange(k + 1, b as int)) =~= slashes(v@.subrange(k as int, b as int)).skip(1));
        k = k + 1;
    }
    let mut out = String::new();
    let mut j = k;
    while j < b
        invariant
            k <= j <= b <= v@.len(),
            out@ == slashes(v@.subrange(k as int, j as int)),
        decreases b - j,
    {
        if v[j] == '\\' {
            out.push('/');
        } else {
            out.push(v[j]);
        }
        j = j + 1;
        assert(out@ =~= slashes(v@.subrange(k as int, j as int)));
    }
    proof {
        let s = slashes(w);
        assert(lead_slashes(slashes(v@.subrange(k as int, b as int))) == 0);
        assert(s.skip(lead_slashes(s) as int) =~= slashes(v@.subrange(k as int, b as int)));
    }
    out
}

/// Resolver state for Rainmeter paths: the cache of paths already
/// resolved, keyed case-insensitively by `cache_key`.
#[derive(Debug, Clone)]
pub struct VfsResolver {
    cache: Vec<(String, String)>,
}

impl View for VfsResolver {
    type V = Map<Seq<char>, Seq<char>>;

    closed spec fn view(&self) -> Map<Seq<char>, Seq<char>> {
        pairs_map(self.cache@)
    }
}

impl VfsResolver {
    pub closed spec fn wf(&self) -> bool {
        distinct_keys(self.cache@)
    }

    /// Creates a resolver with an empty cache.
    pub fn new() -> (r: Self)
        ensures
            r.wf(),
            r@ == Map::<Seq<char>, Seq<char>>::empty(),
    {
        VfsResolver { cache: Vec::new() }
    }

    /// Normalises a relative or Windows path (see `normalized`).
    pub fn normalize_rel_path(rel_path: &str) -> (r: String)
        ensures
            r@ == normalized(rel_path@),
    {
        normalize_path(rel_path)
    }

    /// The cache key of `raw_rel` resolved below `base`.
    pub fn cache_key_for(base: &str, raw_rel: &str) -> (r: String)
        ensures
            r@ == cache_key(base@, raw_rel@),
    {
        let n = to_chars(normalize_path(raw_rel).as_str());
        let l = lower_range(&n, 0, n.len());
        assert(n@.subrange(0, n@.len() as int) =~= n@);
        let mut out = to_chars(base);
        out.push(':');
        out.push(':');
        let mut i: usize = 0;
        let ghost pre = out@;
        while i < l.len()
            invariant
                i <= l@.len(),
                out@ == pre + l@.take(i as int),
            decreases l.len() - i,
        {
            out.push(l[i]);
            i = i + 1;
            assert(out@ =~= pre + l@.take(i as int));
        }
        assert(l@.take(l@.len() as int) =~= l@);
        proof {
            reveal_strlit("::");
            assert(pre =~= base@ + "::"@);
        }
        string_of_all(&out)
    }

    fn position(&self, key: &[char]) -> (r: Option<usize>)
        requires
            self.wf(),
        ensures
            match r {
                Some(i) => i < self.cache@.len() && self.cache@[i as int].0@ == key@,
                None => !self@.contains_key(key@),
            },
    {
        let mut i: usize = 0;
        while i < self.cache.len()
            invariant
                i <= self.cache@.len(),
                forall|j: int| 0 <= j < i ==> self.cache@[j].0@ != key@,
            decreases self.cache.len() - i,
        {
            if eq_str(key, self.cache[i].0.as_str()) {
                return Some(i);
            }
            i = i + 1;
        }
        proof {
            lemma_pairs_map_lookup(self.cache@, key@);
        }
        None
    }

    /// The cached resolution stored under `key`.
    pub fn cached(&self, key: &str) -> (r: Option<String>)
        requires
            self.wf(),
        ensures
            match r {
                Some(p) => self@.contains_key(key@) && self@[key@] == p@,
                None => !self@.contains_key(key@),
            },
    {
        let k = to_chars(key);
        match self.position(&k) {
            Some(i) => {
                proof {
                    lemma_pairs_map_lookup(self.cache@, key@);
                }
                Some(self.cache[i].1.clone())
            },
            None => None,
        }
    }

    /// Records that `key` resolved to `path`.
    pub fn remember(&mut self, key: &str, path: &str)
        requires
            old(self).wf(),
        ensures
            final(self).wf(),
            final(self)@ == old(self)@.insert(key@, path@),
    {
        let k = to_chars(key);
        match self.position(&k) {
            Some(i) => {
                let ghost old_cache = self.cache@;
                let p = (key.to_string(), path.to_string());
                proof {
                    lemma_pairs_map_update(old_cache, i as int, p);
                }
                self.cache.set(i, p);
            },
            None => {
                let p = (key.to_string(), path.to_string());
                proof {
                    lemma_pairs_map_push(self.cache@, p);
                }
                self.cache.push(p);
            },
        }
    }

    /// Whether the resolution of `raw_rel` below `base` is cached.
    pub fn is_cached(&self, base: &str, raw_rel: &str) -> (r: bool)
        requires
            self.wf(),
        ensures
            r == self@.contains_key(cache_key(base@, raw_rel@)),
    {
        let key = Self::cache_key_for(base, raw_rel);
        self.cached(key.as_str()).is_some()
    }

    /// The number of cached resolutions.
    pub fn cache_len(&self) -> (r: usize)
        requires
            self.wf(),
        ensures
            r == self@.len(),
    {
        proof {
            lemma_pairs_map_len(self.cache@);
        }
        self.cache.len()
    }

    /// Clears all cached resolutions.
    pub fn clear_cache(&mut self)
        ensures
            final(self).wf(),
            final(self)@ == Map::<Seq<char>, Seq<char>>::empty(),
    {
        self.cache = Vec::new();
    }
}

impl Default for VfsResolver {
    fn default() -> (r: Self)
        ensures
            r.wf(),
            r@ == Map::<Seq<char>, Seq<char>>::empty(),
    {
        Self::new()
    }
}

} // verus!
verus! {

/// The index of the first name equal to `segment` without ASCII case, or -1.
pub open spec fn first_folded(names: Seq<Seq<char>>, segment: Seq<char>, from: int) -> int
    decreases names.len() - from,
{
    if from < 0 || from >= names.len() {
        -1
    } else if lower(names[from]) == lower(segment) {
        from
    } else {
        first_folded(names, segment, from + 1)
    }
}

/// Picks the directory entry a path segment names when no entry has its
/// exact name: the first, in the listing's order, equal to it without
/// ASCII case.
pub fn match_entry(names: &Vec<String>, segment: &str) -> (r: Option<usize>)
    ensures
        match r {
            Some(i) => i as int == first_folded(crate::text::views(names@), segment@, 0) && i < names@.len(),
            None => first_folded(crate::text::views(names@), segment@, 0) == -1,
        },
{
    let ghost nv = crate::text::views(names@);
    let mut i: usize = 0;
    while i < names.len()
        invariant
            nv == crate::text::views(names@),
            i <= names@.len(),
            first_folded(nv, segment@, 0) == first_folded(nv, segment@, i as int),
        decreases names.len() - i,
    {
        assert(nv[i as int] == names@[i as int]@);
        if crate::text::eq_ignore_case_str(names[i].as_str(), segment) {
            return Some(i);
        }
        i = i + 1;
    }
    None
}

} // verus!
