//! Case-insensitive skin variables and `#VarName#` expansion.
use crate::text::{
    eq_str, is_ascii_char, is_ascii_letter, is_digit, lower, lower_char, lower_range, string_of,
    to_chars, to_lower_char,
};
use vstd::prelude::*;

verus! {

/// The map that a list of distinct (key, value) pairs stands for.
pub open spec fn pairs_map(s: Seq<(String, String)>) -> Map<Seq<char>, Seq<char>>
    decreases s.len(),
{
    if s.len() == 0 {
        Map::empty()
    } else {
        pairs_map(s.drop_last()).insert(s.last().0@, s.last().1@)
    }
}

/// No key occurs twice.
pub open spec fn distinct_keys(s: Seq<(String, String)>) -> bool {
    forall|i: int, j: int| 0 <= i < j < s.len() ==> s[i].0@ != s[j].0@
}

pub(crate) proof fn lemma_pairs_map_lookup(s: Seq<(String, String)>, k: Seq<char>)
    requires
        distinct_keys(s),
    ensures
        pairs_map(s).contains_key(k) <==> exists|i: int| 0 <= i < s.len() && s[i].0@ == k,
        forall|i: int| 0 <= i < s.len() && s[i].0@ == k ==> pairs_map(s)[k] == s[i].1@,
    decreases s.len(),
{
    if s.len() > 0 {
        let t = s.drop_last();
        assert(distinct_keys(t)) by {
            assert forall|i: int, j: int| 0 <= i < j < t.len() implies t[i].0@ != t[j].0@ by {
                assert(t[i] == s[i] && t[j] == s[j]);
            }
        }
        lemma_pairs_map_lookup(t, k);
        if pairs_map(s).contains_key(k) {
            if s.last().0@ != k {
                let i = choose|i: int| 0 <= i < t.len() && t[i].0@ == k;
                assert(s[i] == t[i]);
            }
        }
        assert forall|i: int| 0 <= i < s.len() && s[i].0@ == k implies pairs_map(s)[k] == s[i].1@ by {
            if i < s.len() - 1 {
                assert(s[i] == t[i]);
            }
        }
        if exists|i: int| 0 <= i < s.len() && s[i].0@ == k {
            let i = choose|i: int| 0 <= i < s.len() && s[i].0@ == k;
            if i < s.len() - 1 {
                assert(s[i] == t[i]);
            }
        }
    }
}

pub(crate) proof fn lemma_pairs_map_update(s: Seq<(String, String)>, i: int, p: (String, String))
    requires
        distinct_keys(s),
        0 <= i < s.len(),
        s[i].0@ == p.0@,
    ensures
        distinct_keys(s.update(i, p)),
        pairs_map(s.update(i, p)) == pairs_map(s).insert(p.0@, p.1@),
{
    let u = s.update(i, p);
    assert(distinct_keys(u)) by {
        assert forall|a: int, b: int| 0 <= a < b < u.len() implies u[a].0@ != u[b].0@ by {
            assert(u[a].0@ == s[a].0@ && u[b].0@ == s[b].0@);
        }
    }
    assert forall|k: Seq<char>| #[trigger] pairs_map(u).contains_key(k) == pairs_map(s).insert(
        p.0@,
        p.1@,
    ).contains_key(k) by {
        lemma_pairs_map_lookup(s, k);
        lemma_pairs_map_lookup(u, k);
        if exists|j: int| 0 <= j < s.len() && s[j].0@ == k {
            let j = choose|j: int| 0 <= j < s.len() && s[j].0@ == k;
            assert(u[j].0@ == k);
        }
        if exists|j: int| 0 <= j < u.len() && u[j].0@ == k {
            let j = choose|j: int| 0 <= j < u.len() && u[j].0@ == k;
            assert(s[j].0@ == k);
        }
        assert(u[i].0@ == p.0@);
    }
    assert forall|k: Seq<char>| #[trigger] pairs_map(u).contains_key(k) implies pairs_map(u)[k]
        == pairs_map(s).insert(p.0@, p.1@)[k] by {
        lemma_pairs_map_lookup(s, k);
        lemma_pairs_map_lookup(u, k);
        let j = choose|j: int| 0 <= j < u.len() && u[j].0@ == k;
        if j != i {
            assert(u[j] == s[j]);
        }
    }
    assert(pairs_map(u) =~= pairs_map(s).insert(p.0@, p.1@));
}

pub(crate) proof fn lemma_pairs_map_remove(s: Seq<(String, String)>, i: int)
    requires
        distinct_keys(s),
        0 <= i < s.len(),
    ensures
        distinct_keys(s.remove(i)),
        pairs_map(s.remove(i)) == pairs_map(s).remove(s[i].0@),
{
    let u = s.remove(i);
    let k0 = s[i].0@;
    assert(distinct_keys(u)) by {
        assert forall|a: int, b: int| 0 <= a < b < u.len() implies u[a].0@ != u[b].0@ by {
            let a2 = if a < i {
                a
            } else {
                a + 1
            };
            let b2 = if b < i {
                b
            } else {
                b + 1
            };
            assert(u[a] == s[a2] && u[b] == s[b2]);
        }
    }
    assert forall|k: Seq<char>| #[trigger] pairs_map(u).contains_key(k) == pairs_map(s).remove(
        k0,
    ).contains_key(k) by {
        lemma_pairs_map_lookup(s, k);
        lemma_pairs_map_lookup(u, k);
        if exists|j: int| 0 <= j < u.len() && u[j].0@ == k {
            let j = choose|j: int| 0 <= j < u.len() && u[j].0@ == k;
            let j2 = if j < i {
                j
            } else {
                j + 1
            };
            assert(s[j2] == u[j]);
        }
        if k != k0 && exists|j: int| 0 <= j < s.len() && s[j].0@ == k {
            let j = choose|j: int| 0 <= j < s.len() && s[j].0@ == k;
            assert(j != i);
            let j2 = if j < i {
                j
            } else {
                j - 1
            };
            assert(u[j2] == s[j]);
        }
    }
    assert forall|k: Seq<char>| #[trigger] pairs_map(u).contains_key(k) implies pairs_map(u)[k]
        == pairs_map(s).remove(k0)[k] by {
        lemma_pairs_map_lookup(s, k);
        lemma_pairs_map_lookup(u, k);
        let j = choose|j: int| 0 <= j < u.len() && u[j].0@ == k;
        let j2 = if j < i {
            j
        } else {
            j + 1
        };
        assert(s[j2] == u[j]);
    }
    assert(pairs_map(u) =~= pairs_map(s).remove(k0));
}

pub(crate) proof fn lemma_pairs_map_push(s: Seq<(String, String)>, p: (String, String))
    requires
        distinct_keys(s),
        !pairs_map(s).contains_key(p.0@),
    ensures
        distinct_keys(s.push(p)),
        pairs_map(s.push(p)) == pairs_map(s).insert(p.0@, p.1@),
{
    let u = s.push(p);
    assert(u.drop_last() =~= s);
    assert(distinct_keys(u)) by {
        assert forall|a: int, b: int| 0 <= a < b < u.len() implies u[a].0@ != u[b].0@ by {
            lemma_pairs_map_lookup(s, p.0@);
            if b == s.len() {
                assert(u[a] == s[a]);
            } else {
                assert(u[a] == s[a] && u[b] == s[b]);
            }
        }
    }
}

pub(crate) proof fn lemma_pairs_map_len(s: Seq<(String, String)>)
    requires
        distinct_keys(s),
    ensures
        pairs_map(s).dom().finite(),
        pairs_map(s).len() == s.len(),
    decreases s.len(),
{
    if s.len() > 0 {
        let t = s.drop_last();
        assert(distinct_keys(t)) by {
            assert forall|i: int, j: int| 0 <= i < j < t.len() implies t[i].0@ != t[j].0@ by {
                assert(t[i] == s[i] && t[j] == s[j]);
            }
        }
        lemma_pairs_map_len(t);
        lemma_pairs_map_lookup(t, s.last().0@);
        if pairs_map(t).contains_key(s.last().0@) {
            let i = choose|i: int| 0 <= i < t.len() && t[i].0@ == s.last().0@;
            assert(s[i] == t[i]);
        }
    }
}

/// Case-insensitive variable map supporting `#VarName#` expansion and built-in macros.
#[derive(Debug, Clone)]
pub struct VariableMap {
    vars: Vec<(String, String)>,
}

impl View for VariableMap {
    type V = Map<Seq<char>, Seq<char>>;

    closed spec fn view(&self) -> Map<Seq<char>, Seq<char>> {
        pairs_map(self.vars@)
    }
}

impl VariableMap {
    /// Keys are lower-case and distinct.
    pub closed spec fn wf(&self) -> bool {
        &&& distinct_keys(self.vars@)
        &&& forall|i: int| 0 <= i < self.vars@.len() ==> lower(#[trigger] self.vars@[i].0@) == self.vars@[i].0@
    }

    /// The order in which `iter` lists the keys.
    pub closed spec fn key_order(&self) -> Seq<Seq<char>> {
        Seq::new(self.vars@.len(), |i: int| self.vars@[i].0@)
    }

    /// The key order lists every key of the map once.
    pub proof fn lemma_key_order(&self)
        requires
            self.wf(),
        ensures
            forall|i: int, j: int| 0 <= i < j < self.key_order().len() ==> self.key_order()[i]
                != self.key_order()[j],
            forall|i: int| 0 <= i < self.key_order().len() ==> #[trigger] self@.contains_key(
                self.key_order()[i],
            ),
            forall|k: Seq<char>| #[trigger] self@.contains_key(k) ==> self.key_order().contains(k),
            self.key_order().len() == self@.len(),
    {
        lemma_pairs_map_len(self.vars@);
        assert forall|i: int| 0 <= i < self.key_order().len() implies #[trigger] self@.contains_key(
            self.key_order()[i],
        ) by {
            lemma_pairs_map_lookup(self.vars@, self.key_order()[i]);
        }
        assert forall|k: Seq<char>| #[trigger] self@.contains_key(k) implies self.key_order().contains(
            k,
        ) by {
            lemma_pairs_map_lookup(self.vars@, k);
            let i = choose|i: int| 0 <= i < self.vars@.len() && self.vars@[i].0@ == k;
            assert(self.key_order()[i] == k);
        }
    }

    /// Every key of the map is in lower case.
    pub proof fn lemma_keys_lower(&self)
        requires
            self.wf(),
        ensures
            forall|k: Seq<char>| #[trigger] self@.contains_key(k) ==> lower(k) == k,
            self@.dom().finite(),
    {
        assert forall|k: Seq<char>| #[trigger] self@.contains_key(k) implies lower(k) == k by {
            lemma_pairs_map_lookup(self.vars@, k);
        }
        lemma_pairs_map_len(self.vars@);
    }

    /// Position of the key `lk` (already lower-cased), if present.
    fn find(&self, lk: &[char]) -> (r: Option<usize>)
        requires
            self.wf(),
        ensures
            match r {
                Some(i) => i < self.vars@.len() && self.vars@[i as int].0@ == lk@,
                None => !self@.contains_key(lk@),
            },
    {
        let mut i: usize = 0;
        while i < self.vars.len()
            invariant
                i <= self.vars@.len(),
                forall|j: int| 0 <= j < i ==> self.vars@[j].0@ != lk@,
            decreases self.vars.len() - i,
        {
            if eq_str(lk, self.vars[i].0.as_str()) {
                return Some(i);
            }
            i = i + 1;
        }
        proof {
            lemma_pairs_map_lookup(self.vars@, lk@);
        }
        None
    }

    /// An empty map.
    pub fn empty() -> (r: Self)
        ensures
            r.wf(),
            r@ == Map::<Seq<char>, Seq<char>>::empty(),
    {
        VariableMap { vars: Vec::new() }
    }

    /// Sets a variable with case-insensitive key.
    pub fn set(&mut self, key: &str, val: &str)
        requires
            old(self).wf(),
        ensures
            final(self).wf(),
            final(self)@ == old(self)@.insert(lower(key@), val@),
            old(self)@.contains_key(lower(key@)) ==> final(self).key_order() == old(
                self,
            ).key_order(),
    {
        let kv = to_chars(key);
        let lk = lower_range(&kv, 0, kv.len());
        assert(kv@.subrange(0, kv@.len() as int) =~= kv@);
        let ks = string_of(&lk, 0, lk.len());
        assert(lk@.subrange(0, lk@.len() as int) =~= lk@);
        proof {
            assert(lower(lk@) =~= lk@);
        }
        match self.find(&lk) {
            Some(i) => {
                let ghost old_vars = self.vars@;
                self.vars.set(i, (ks, val.to_string()));
                proof {
                    lemma_pairs_map_update(old_vars, i as int, self.vars@[i as int]);
                }
            },
            None => {
                let ghost old_vars = self.vars@;
                self.vars.push((ks, val.to_string()));
                proof {
                    lemma_pairs_map_push(old_vars, self.vars@.last());
                    assert(self.vars@.drop_last() =~= old_vars);
                }
            },
        }
    }

    /// Retrieves a variable by case-insensitive key.
    pub fn get(&self, key: &str) -> (r: Option<&str>)
        requires
            self.wf(),
        ensures
            match r {
                Some(v) => self@.contains_key(lower(key@)) && v@ == self@[lower(key@)],
                None => !self@.contains_key(lower(key@)),
            },
    {
        let kv = to_chars(key);
        let lk = lower_range(&kv, 0, kv.len());
        assert(kv@.subrange(0, kv@.len() as int) =~= kv@);
        self.get_lower(&lk)
    }

    /// Lookup of an already lower-cased key.
    fn get_lower(&self, lk: &[char]) -> (r: Option<&str>)
        requires
            self.wf(),
        ensures
            match r {
                Some(v) => self@.contains_key(lk@) && v@ == self@[lk@],
                None => !self@.contains_key(lk@),
            },
    {
        match self.find(lk) {
            Some(i) => {
                proof {
                    lemma_pairs_map_lookup(self.vars@, lk@);
                }
                Some(self.vars[i].1.as_str())
            },
            None => None,
        }
    }

    /// Checks if a variable is defined (case-insensitive).
    pub fn contains_key(&self, key: &str) -> (r: bool)
        requires
            self.wf(),
        ensures
            r == self@.contains_key(lower(key@)),
    {
        self.get(key).is_some()
    }

    /// Removes a variable by case-insensitive key.
    pub fn remove(&mut self, key: &str) -> (r: Option<String>)
        requires
            old(self).wf(),
        ensures
            final(self).wf(),
            final(self)@ == old(self)@.remove(lower(key@)),
            match r {
                Some(v) => old(self)@.contains_key(lower(key@)) && v@ == old(self)@[lower(key@)],
                None => !old(self)@.contains_key(lower(key@)),
            },
    {
        let kv = to_chars(key);
        let lk = lower_range(&kv, 0, kv.len());
        assert(kv@.subrange(0, kv@.len() as int) =~= kv@);
        match self.find(&lk) {
            Some(i) => {
                let ghost old_vars = self.vars@;
                proof {
                    lemma_pairs_map_lookup(old_vars, lk@);
                    lemma_pairs_map_remove(old_vars, i as int);
                }
                let (_, v) = self.vars.remove(i);
                proof {
                    assert forall|j: int| 0 <= j < self.vars@.len() implies lower(
                        #[trigger] self.vars@[j].0@,
                    ) == self.vars@[j].0@ by {
                        if j < i {
                            assert(self.vars@[j] == old_vars[j]);
                        } else {
                            assert(self.vars@[j] == old_vars[j + 1]);
                        }
                    }
                }
                Some(v)
            },
            None => {
                assert(self@.remove(lk@) =~= self@);
                None
            },
        }
    }

    /// Number of variables stored.
    pub fn len(&self) -> (r: usize)
        requires
            self.wf(),
        ensures
            r == self@.len(),
    {
        proof {
            lemma_pairs_map_len(self.vars@);
        }
        self.vars.len()
    }

    /// Returns true if empty.
    pub fn is_empty(&self) -> (r: bool)
        requires
            self.wf(),
        ensures
            r == (self@.len() == 0),
    {
        proof {
            lemma_pairs_map_len(self.vars@);
        }
        self.vars.len() == 0
    }

    /// All (lower-case key, value) pairs, each key once.
    pub fn iter(&self) -> (r: Vec<(String, String)>)
        requires
            self.wf(),
        ensures
            r@.len() == self@.len(),
            forall|i: int| 0 <= i < r@.len() ==> #[trigger] self@.contains_key(r@[i].0@)
                && self@[r@[i].0@] == r@[i].1@,
            forall|i: int, j: int| 0 <= i < j < r@.len() ==> r@[i].0@ != r@[j].0@,
            forall|k: Seq<char>| #[trigger] self@.contains_key(k) ==> exists|i: int|
                0 <= i < r@.len() && r@[i].0@ == k,
            forall|i: int| 0 <= i < r@.len() ==> #[trigger] r@[i].0@ == self.key_order()[i],
            r@.len() == self.key_order().len(),
    {
        proof {
            lemma_pairs_map_len(self.vars@);
            assert forall|k: Seq<char>| #[trigger] self@.contains_key(k) implies exists|i: int|
                0 <= i < self.vars@.len() && self.vars@[i].0@ == k by {
                lemma_pairs_map_lookup(self.vars@, k);
            }
            assert forall|i: int| 0 <= i < self.vars@.len() implies #[trigger] self@.contains_key(
                self.vars@[i].0@,
            ) && self@[self.vars@[i].0@] == self.vars@[i].1@ by {
                lemma_pairs_map_lookup(self.vars@, self.vars@[i].0@);
            }
        }
        let mut r: Vec<(String, String)> = Vec::new();
        let mut i: usize = 0;
        while i < self.vars.len()
            invariant
                i <= self.vars@.len(),
                r@.len() == i,
                forall|j: int|
                    #![trigger r@[j]]
                    0 <= j < i ==> r@[j].0@ == self.vars@[j].0@ && r@[j].1@ == self.vars@[j].1@,
            decreases self.vars.len() - i,
        {
            let k = self.vars[i].0.clone();
            let v = self.vars[i].1.clone();
            r.push((k, v));
            assert(r@[i as int].0@ == self.vars@[i as int].0@);
            i = i + 1;
        }
        proof {
            assert forall|k: Seq<char>| #[trigger] self@.contains_key(k) implies exists|i: int|
                0 <= i < r@.len() && r@[i].0@ == k by {
                let i = choose|i: int| 0 <= i < self.vars@.len() && self.vars@[i].0@ == k;
                assert(r@[i].0@ == k);
            }
        }
        r
    }
}

} // verus!
verus! {

/// What `char::is_alphanumeric` returns: whether the character has the
/// Unicode `Alphabetic` or `Numeric` property.
pub uninterp spec fn char_alphanumeric(c: char) -> bool;

/// `char::is_alphanumeric` depends on the character alone; its answer is
/// the Unicode property table, which is left as a name beyond ASCII. Within
/// ASCII the `Alphabetic` or `Numeric` characters are exactly the letters
/// and the digits.
pub assume_specification[ char::is_alphanumeric ](c: char) -> (r: bool)
    ensures
        r == char_alphanumeric(c),
        is_ascii_char(c) ==> (r <==> (is_ascii_letter(c) || is_digit(c))),
;

/// Characters allowed in a `#VarName#` reference.
pub open spec fn valid_var_char(c: char) -> bool {
    char_alphanumeric(c) || c == '_' || c == '-' || c == '.' || c == '@' || c == ':'
}

/// Tests whether a character may appear in a variable name.
pub fn is_valid_var_char(c: char) -> (r: bool)
    ensures
        r == valid_var_char(c),
{
    c.is_alphanumeric() || c == '_' || c == '-' || c == '.' || c == '@' || c == ':'
}

/// First index at or after `from` holding `c`, or -1.
pub open spec fn find_from(s: Seq<char>, from: int, c: char) -> int
    decreases s.len() - from,
{
    if from < 0 || from >= s.len() {
        -1
    } else if s[from] == c {
        from
    } else {
        find_from(s, from + 1, c)
    }
}

pub proof fn lemma_find_from(s: Seq<char>, from: int, c: char)
    requires
        0 <= from,
    ensures
        find_from(s, from, c) == -1 ==> forall|k: int| from <= k < s.len() ==> s[k] != c,
        find_from(s, from, c) != -1 ==> from <= find_from(s, from, c) < s.len() && s[find_from(
            s,
            from,
            c,
        )] == c && forall|k: int| from <= k < find_from(s, from, c) ==> s[k] != c,
    decreases s.len() - from,
{
    if from < s.len() && s[from] != c {
        lemma_find_from(s, from + 1, c);
    }
}

/// Every character of `name` may appear in a variable reference.
pub open spec fn valid_name(name: Seq<char>) -> bool {
    name.len() > 0 && forall|k: int| 0 <= k < name.len() ==> valid_var_char(#[trigger] name[k])
}

/// One expansion pass from position `i` on: each `#name#` whose name is
/// valid and defined is replaced by its value; everything else is kept.
pub open spec fn expand_pass(m: Map<Seq<char>, Seq<char>>, s: Seq<char>, i: int) -> Seq<char>
    decreases s.len() - i,
{
    if i < 0 || i >= s.len() {
        seq![]
    } else {
        let j = find_from(s, i + 1, '#');
        let name = s.subrange(i + 1, j);
        if s[i] == '#' && j != -1 && j > i && valid_name(name) && m.contains_key(lower(name)) {
            proof {
                lemma_find_from(s, i + 1, '#');
            }
            m[lower(name)] + expand_pass(m, s, j + 1)
        } else {
            seq![s[i]] + expand_pass(m, s, i + 1)
        }
    }
}

/// Up to `n` passes, stopping as soon as a pass changes nothing.
pub open spec fn expand_n(m: Map<Seq<char>, Seq<char>>, s: Seq<char>, n: nat) -> Seq<char>
    decreases n,
{
    if n == 0 {
        s
    } else {
        let nx = expand_pass(m, s, 0);
        if nx == s {
            s
        } else {
            expand_n(m, nx, (n - 1) as nat)
        }
    }
}

/// `VariableMap::expand`: at most 16 passes.
pub open spec fn expand_spec(m: Map<Seq<char>, Seq<char>>, s: Seq<char>) -> Seq<char> {
    expand_n(m, s, 16)
}

/// A pass over text without `#` changes nothing.
pub proof fn lemma_pass_no_hash(m: Map<Seq<char>, Seq<char>>, s: Seq<char>, i: int)
    requires
        0 <= i <= s.len(),
        !crate::text::has_char(s, '#'),
    ensures
        expand_pass(m, s, i) == s.subrange(i, s.len() as int),
    decreases s.len() - i,
{
    if i < s.len() {
        assert(s[i] != '#');
        lemma_pass_no_hash(m, s, i + 1);
        assert(seq![s[i]] + s.subrange(i + 1, s.len() as int) =~= s.subrange(i, s.len() as int));
    } else {
        assert(s.subrange(i, s.len() as int) =~= seq![]);
    }
}

impl VariableMap {
    /// Expands all `#VarName#` occurrences in `input`.
    ///
    /// Supports nested/chained variable expansion up to 16 passes.
    /// Unrecognized `#...#` patterns are left unmodified.
    pub fn expand(&self, input: &str) -> (r: String)
        requires
            self.wf(),
        ensures
            r@ == expand_spec(self@, input@),
    {
        let mut current = input.to_string();
        let mut n: usize = 16;
        while n > 0
            invariant
                self.wf(),
                n <= 16,
                expand_n(self@, current@, n as nat) == expand_spec(self@, input@),
            decreases n,
        {
            let next = self.expand_single_pass(current.as_str());
            if next == current {
                return current;
            }
            current = next;
            n = n - 1;
        }
        current
    }

    /// One expansion pass.
    pub fn expand_single_pass(&self, input: &str) -> (r: String)
        requires
            self.wf(),
        ensures
            r@ == expand_pass(self@, input@, 0),
    {
        let v = to_chars(input);
        let ghost s = v@;
        let mut out = String::new();
        let mut i: usize = 0;
        while i < v.len()
            invariant
                self.wf(),
                s == v@,
                i <= v@.len(),
                out@ + expand_pass(self@, s, i as int) == expand_pass(self@, s, 0),
            decreases v.len() - i,
        {
            let c = v[i];
            if c == '#' {
                let mut j = i + 1;
                while j < v.len() && v[j] != '#'
                    invariant
                        self.wf(),
                        s == v@,
                        i < j <= v@.len(),
                        forall|k: int| i + 1 <= k < j ==> v@[k] != '#',
                    decreases v.len() - j,
                {
                    j = j + 1;
                }
                proof {
                    lemma_find_from(s, i + 1, '#');
                }
                if j < v.len() {
                    assert(find_from(s, i + 1, '#') == j);
                    let mut ok = j > i + 1;
                    let mut k = i + 1;
                    while k < j && ok
                        invariant
                            self.wf(),
                            s == v@,
                            i + 1 <= k <= j < v@.len(),
                            ok ==> j > i + 1,
                            ok ==> forall|q: int| i + 1 <= q < k ==> valid_var_char(#[trigger] v@[q]),
                            !ok ==> !valid_name(s.subrange(i + 1, j as int)),
                        decreases j - k,
                    {
                        if !is_valid_var_char(v[k]) {
                            ok = false;
                            assert(s.subrange(i + 1, j as int)[k - i - 1] == v@[k as int]);
                        }
                        k = k + 1;
                    }
                    proof {
                        if ok {
                            assert(k == j);
                            assert forall|q: int| 0 <= q < j - i - 1 implies valid_var_char(
                                #[trigger] s.subrange(i + 1, j as int)[q],
                            ) by {
                                assert(s.subrange(i + 1, j as int)[q] == v@[i + 1 + q]);
                            }
                        }
                    }
                    if ok {
                        let name = lower_range(&v, i + 1, j);
                        match self.get_lower(&name) {
                            Some(val) => {
                                assert(valid_name(s.subrange(i + 1, j as int)));
                                assert(expand_pass(self@, s, i as int) == self@[name@]
                                    + expand_pass(self@, s, j + 1));
                                let ghost before = out@;
                                out.append(val);
                                proof {
                                    assert(out@ + expand_pass(self@, s, j + 1) =~= before + (
                                    self@[name@] + expand_pass(self@, s, j + 1)));
                                }
                                i = j + 1;
                                continue ;
                            },
                            None => {},
                        }
                    }
                } else {
                    assert(find_from(s, i + 1, '#') == -1);
                }
            }
            let ghost before = out@;
            out.push(c);
            proof {
                assert(out@ + expand_pass(self@, s, i + 1) =~= before + (seq![c] + expand_pass(
                    self@,
                    s,
                    i + 1,
                )));
            }
            i = i + 1;
        }
        proof {
            assert(expand_pass(self@, s, i as int) =~= seq![]);
            assert(out@ =~= out@ + seq![]);
        }
        out
    }
}

} // verus!
verus! {

/// The built-in variables every skin starts with.
pub open spec fn builtin_vars() -> Map<Seq<char>, Seq<char>> {
    Map::empty().insert(lower("@"@), "@Resources/"@).insert(
        lower("screenareawidth"@),
        "1920"@,
    ).insert(lower("screenareaheight"@), "1080"@).insert(lower("workareawidth"@), "1920"@).insert(
        lower("workareaheight"@),
        "1080"@,
    ).insert(lower("screenareax"@), "0"@).insert(lower("screenareay"@), "0"@).insert(
        lower("workareax"@),
        "0"@,
    ).insert(lower("workareay"@), "0"@).insert(lower("programpath"@), "/usr/local/bin/"@).insert(
        lower("settingspath"@),
        "~/.config/pluvia/"@,
    )
}

/// The skin directory with a trailing `/`.
pub open spec fn dir_with_slash(d: Seq<char>) -> Seq<char> {
    if d.len() > 0 && d.last() == '/' {
        d
    } else {
        d.push('/')
    }
}

/// Built-ins plus the skin's path variables.
pub open spec fn skin_vars(d: Seq<char>) -> Map<Seq<char>, Seq<char>> {
    builtin_vars().insert(lower("currentpath"@), dir_with_slash(d)).insert(
        lower("skinspath"@),
        dir_with_slash(d),
    ).insert(lower("rootconfigpath"@), dir_with_slash(d))
}

impl VariableMap {
    /// Creates a new `VariableMap` initialized with default built-in variables
    /// (`#@#`, `#SCREENAREAWIDTH#`, `#SCREENAREAHEIGHT#`, etc.).
    pub fn new() -> (r: Self)
        ensures
            r.wf(),
            r@ == builtin_vars(),
    {
        let mut map = Self::empty();
        map.set("@", "@Resources/");
        map.set("screenareawidth", "1920");
        map.set("screenareaheight", "1080");
        map.set("workareawidth", "1920");
        map.set("workareaheight", "1080");
        map.set("screenareax", "0");
        map.set("screenareay", "0");
        map.set("workareax", "0");
        map.set("workareay", "0");
        map.set("programpath", "/usr/local/bin/");
        map.set("settingspath", "~/.config/pluvia/");
        map
    }

    /// Creates a `VariableMap` initialized with skin directory paths and built-ins.
    pub fn with_skin_dir(skin_dir: &str) -> (r: Self)
        ensures
            r.wf(),
            r@ == skin_vars(skin_dir@),
    {
        let mut map = Self::new();
        let v = to_chars(skin_dir);
        let mut formatted = skin_dir.to_string();
        if !(v.len() > 0 && v[v.len() - 1] == '/') {
            formatted.push('/');
        }
        map.set("currentpath", formatted.as_str());
        map.set("skinspath", formatted.as_str());
        map.set("rootconfigpath", formatted.as_str());
        map
    }
}

impl Default for VariableMap {
    fn default() -> (r: Self)
        ensures
            r.wf(),
            r@ == builtin_vars(),
    {
        Self::new()
    }
}

/// Law: reading a variable back after setting it gives the value written,
/// whatever the case of the key used for either access, and leaves every
/// other variable as it was.
pub proof fn law_get_after_set(
    before: Map<Seq<char>, Seq<char>>,
    key: Seq<char>,
    val: Seq<char>,
    probe: Seq<char>,
)
    ensures
        lower(probe) == lower(key) ==> before.insert(lower(key), val).contains_key(lower(probe))
            && before.insert(lower(key), val)[lower(probe)] == val,
        lower(probe) != lower(key) ==> (before.insert(lower(key), val).contains_key(lower(probe))
            == before.contains_key(lower(probe)) && (before.contains_key(lower(probe))
            ==> before.insert(lower(key), val)[lower(probe)] == before[lower(probe)])),
{
}

/// Law: after removing a variable, no spelling of its name finds it, and
/// the other variables are untouched.
pub proof fn law_get_after_remove(before: Map<Seq<char>, Seq<char>>, key: Seq<char>, probe: Seq<char>)
    ensures
        lower(probe) == lower(key) ==> !before.remove(lower(key)).contains_key(lower(probe)),
        lower(probe) != lower(key) ==> before.remove(lower(key)).contains_key(lower(probe))
            == before.contains_key(lower(probe)),
{
}

/// Law: text without `#` is left unchanged by expansion.
pub proof fn law_expand_plain_text(m: Map<Seq<char>, Seq<char>>, s: Seq<char>)
    requires
        !crate::text::has_char(s, '#'),
    ensures
        expand_spec(m, s) == s,
{
    lemma_pass_no_hash(m, s, 0);
    assert(s.subrange(0, s.len() as int) =~= s);
}

/// The reference `#name#`.
pub open spec fn var_ref(name: Seq<char>) -> Seq<char> {
    seq!['#'] + name + seq!['#']
}

/// `names` is a chain of references: every name is valid, holds no `#` and
/// is defined; the value of each name but the last is the reference to the
/// next one, and the value of the last holds no `#`.
pub open spec fn reference_chain(m: Map<Seq<char>, Seq<char>>, names: Seq<Seq<char>>) -> bool {
    &&& names.len() >= 1
    &&& forall|i: int| 0 <= i < names.len() ==> valid_name(#[trigger] names[i]) && !crate::text::has_char(names[i], '#')
        && m.contains_key(lower(names[i]))
    &&& forall|i: int| 0 <= i < names.len() - 1 ==> m[lower(#[trigger] names[i])] == var_ref(names[i + 1])
    &&& !crate::text::has_char(m[lower(names.last())], '#')
}

/// One pass over `#name#` gives the value of `name`.
proof fn lemma_pass_ref(m: Map<Seq<char>, Seq<char>>, name: Seq<char>)
    requires
        valid_name(name),
        !crate::text::has_char(name, '#'),
        m.contains_key(lower(name)),
    ensures
        expand_pass(m, var_ref(name), 0) == m[lower(name)],
{
    let s = var_ref(name);
    let j = s.len() - 1;
    lemma_find_from(s, 1, '#');
    assert forall|k: int| 1 <= k < j implies s[k] != '#' by {
        assert(s[k] == name[k - 1]);
    }
    assert(s[j] == '#');
    assert(find_from(s, 1, '#') == j);
    assert(s.subrange(1, j) =~= name);
    assert(expand_pass(m, s, j + 1) =~= seq![]);
    assert(expand_pass(m, s, 0) =~= m[lower(name)]);
}

/// The same reference names the same variable.
proof fn lemma_ref_injective(x: Seq<char>, y: Seq<char>)
    requires
        var_ref(x) == var_ref(y),
    ensures
        x == y,
{
    assert(var_ref(x).len() == x.len() + 2);
    assert(var_ref(y).len() == y.len() + 2);
    assert forall|k: int| 0 <= k < x.len() implies x[k] == y[k] by {
        assert(var_ref(x)[k + 1] == x[k]);
        assert(var_ref(y)[k + 1] == y[k]);
    }
    assert(x =~= y);
}

/// No value of a chain refers to its own name.
proof fn lemma_chain_no_self_loop(m: Map<Seq<char>, Seq<char>>, names: Seq<Seq<char>>, i: int)
    requires
        reference_chain(m, names),
        0 <= i < names.len(),
    ensures
        m[lower(names[i])] != var_ref(names[i]),
    decreases names.len() - i,
{
    if m[lower(names[i])] == var_ref(names[i]) {
        assert(var_ref(names[i])[0] == '#');
        if i == names.len() - 1 {
            assert(crate::text::has_char(m[lower(names.last())], '#'));
        } else {
            assert(m[lower(names[i])] == var_ref(names[i + 1]));
            lemma_ref_injective(names[i], names[i + 1]);
            lemma_chain_no_self_loop(m, names, i + 1);
        }
    }
}

/// Starting at the reference to `names[i]`, `n` passes reach the last
/// value once `n` covers the rest of the chain.
proof fn lemma_chain(m: Map<Seq<char>, Seq<char>>, names: Seq<Seq<char>>, i: int, n: nat)
    requires
        reference_chain(m, names),
        0 <= i < names.len(),
        n >= names.len() - i,
    ensures
        expand_n(m, var_ref(names[i]), n) == m[lower(names.last())],
    decreases names.len() - i,
{
    let s = var_ref(names[i]);
    assert(valid_name(names[i]));
    lemma_pass_ref(m, names[i]);
    lemma_chain_no_self_loop(m, names, i);
    if i < names.len() - 1 {
        assert(m[lower(names[i])] == var_ref(names[i + 1]));
        lemma_chain(m, names, i + 1, (n - 1) as nat);
    } else {
        let v = m[lower(names.last())];
        lemma_pass_no_hash(m, v, 0);
        assert(v.subrange(0, v.len() as int) =~= v);
        if n - 1 > 0 {
            assert(expand_n(m, v, (n - 1) as nat) == v);
        }
    }
}

/// `n` passes from the reference to `names[i]` reach the reference to
/// `names[i + n]` while the chain lasts.
proof fn lemma_chain_prefix(m: Map<Seq<char>, Seq<char>>, names: Seq<Seq<char>>, i: int, n: nat)
    requires
        reference_chain(m, names),
        0 <= i,
        i + n < names.len(),
    ensures
        expand_n(m, var_ref(names[i]), n) == var_ref(names[i + n]),
    decreases n,
{
    if n > 0 {
        assert(valid_name(names[i]));
        lemma_pass_ref(m, names[i]);
        lemma_chain_no_self_loop(m, names, i);
        assert(m[lower(names[i])] == var_ref(names[i + 1]));
        lemma_chain_prefix(m, names, i + 1, (n - 1) as nat);
    }
}

/// Law: expansion makes at most 16 passes: along a chain of more than 16
/// names, expanding `#x0#` stops at the reference `#x16#`.
pub proof fn law_expand_stops_after_sixteen_passes(m: Map<Seq<char>, Seq<char>>, names: Seq<Seq<char>>)
    requires
        reference_chain(m, names),
        names.len() > 16,
    ensures
        expand_spec(m, var_ref(names[0])) == var_ref(names[16]),
{
    lemma_chain_prefix(m, names, 0, 16);
}

/// Law: chained references are followed to their end: when `#x0#` names a
/// variable whose value is `#x1#`, whose value is `#x2#`, and so on, and
/// the last value holds no `#`, expanding `#x0#` gives that last value, for
/// chains of up to 16 names (one pass per name).
pub proof fn law_expand_follows_chains(m: Map<Seq<char>, Seq<char>>, names: Seq<Seq<char>>)
    requires
        reference_chain(m, names),
        names.len() <= 16,
    ensures
        expand_spec(m, var_ref(names[0])) == m[lower(names.last())],
{
    lemma_chain(m, names, 0, 16);
}

/// Law: a reference `#name#` to a defined variable expands to its value
/// (when the value holds no further reference).
pub proof fn law_expand_reference(m: Map<Seq<char>, Seq<char>>, name: Seq<char>)
    requires
        valid_name(name),
        !crate::text::has_char(name, '#'),
        m.contains_key(lower(name)),
        !crate::text::has_char(m[lower(name)], '#'),
    ensures
        expand_spec(m, seq!['#'] + name + seq!['#']) == m[lower(name)],
{
    let s = seq!['#'] + name + seq!['#'];
    let j = s.len() - 1;
    lemma_find_from(s, 1, '#');
    assert forall|k: int| 1 <= k < j implies s[k] != '#' by {
        assert(s[k] == name[k - 1]);
    }
    assert(s[j] == '#');
    assert(find_from(s, 1, '#') == j);
    assert(s.subrange(1, j) =~= name);
    assert(expand_pass(m, s, j + 1) =~= seq![]);
    assert(expand_pass(m, s, 0) =~= m[lower(name)]);
    let v = m[lower(name)];
    lemma_pass_no_hash(m, v, 0);
    assert(v.subrange(0, v.len() as int) =~= v);
    if v != s {
        assert(expand_n(m, v, 15) == v);
    }
}

} // verus!
verus! {

/// A measure's current value as text, for `[Measure]` and `[Measure:]`
/// references: `text` is its string form, `number` its numeric form.
#[derive(Debug, Clone)]
pub struct SectionValue {
    pub name: String,
    pub text: String,
    pub number: String,
}

/// A meter's bounds as text, for `[Meter:X]`, `[Meter:Y]`, `[Meter:W]`
/// and `[Meter:H]` references.
#[derive(Debug, Clone)]
pub struct SectionBounds {
    pub name: String,
    pub x: String,
    pub y: String,
    pub width: String,
    pub height: String,
}

/// ASCII upper-casing of one character.
pub open spec fn upper_char(c: char) -> char {
    if 'a' <= c && c <= 'z' {
        ((c as u32) - 32) as char
    } else {
        c
    }
}

/// The `#CURRENTSECTION#` marker.
pub open spec fn cs_pat() -> Seq<char> {
    seq!['#', 'C', 'U', 'R', 'R', 'E', 'N', 'T', 'S', 'E', 'C', 'T', 'I', 'O', 'N', '#']
}

/// Whether the marker occurs at `p`, ignoring ASCII case.
pub open spec fn cs_at(t: Seq<char>, p: int) -> bool {
    0 <= p && p + 16 <= t.len() && forall|k: int| 0 <= k < 16 ==> upper_char(#[trigger] t[p + k]) == cs_pat()[k]
}

/// First position of the marker at or after `from`, or -1.
pub open spec fn cs_find(t: Seq<char>, from: int) -> int
    decreases t.len() - from,
{
    if from < 0 || from + 16 > t.len() {
        -1
    } else if cs_at(t, from) {
        from
    } else {
        cs_find(t, from + 1)
    }
}

pub proof fn lemma_cs_find(t: Seq<char>, from: int)
    requires
        0 <= from,
    ensures
        cs_find(t, from) == -1 || (from <= cs_find(t, from) && cs_at(t, cs_find(t, from))),
        forall|p: int| from <= p && (cs_find(t, from) == -1 || p < cs_find(t, from)) ==> !cs_at(
            t,
            p,
        ),
    decreases t.len() - from,
{
    if from + 16 <= t.len() && !cs_at(t, from) {
        lemma_cs_find(t, from + 1);
    }
}

/// Number of occurrences of `c`.
pub open spec fn count_char(s: Seq<char>, c: char) -> nat
    decreases s.len(),
{
    if s.len() == 0 {
        0
    } else {
        count_char(s.drop_last(), c) + if s.last() == c {
            1nat
        } else {
            0nat
        }
    }
}

pub proof fn lemma_count_concat(x: Seq<char>, y: Seq<char>, c: char)
    ensures
        count_char(x + y, c) == count_char(x, c) + count_char(y, c),
    decreases y.len(),
{
    if y.len() > 0 {
        assert((x + y).drop_last() =~= x + y.drop_last());
        lemma_count_concat(x, y.drop_last(), c);
    } else {
        assert(x + y =~= x);
    }
}

/// A section name for which replacing the marker terminates: shorter than
/// the marker, or free of `#` (each replacement then removes two `#`).
pub open spec fn cs_ok(sec: Seq<char>) -> bool {
    sec.len() < 16 || !crate::text::has_char(sec, '#')
}

pub proof fn lemma_cs_measure(t: Seq<char>, sec: Seq<char>, p: int)
    requires
        cs_at(t, p),
        !crate::text::has_char(sec, '#'),
    ensures
        count_char(t.take(p) + sec + t.skip(p + 16), '#') + 2 == count_char(t, '#'),
{
    let a = t.take(p);
    let m = t.subrange(p, p + 16);
    let z = t.skip(p + 16);
    assert(t =~= a + m + z);
    lemma_count_concat(a, m, '#');
    lemma_count_concat(a + m, z, '#');
    lemma_count_concat(a, sec, '#');
    lemma_count_concat(a + sec, z, '#');
    assert(count_char(sec, '#') == 0) by {
        lemma_count_none(sec, '#');
    }
    assert(count_char(m, '#') == 2) by {
        assert forall|k: int| 0 <= k < 16 implies m[k] == t[p + k] by {}
        assert(upper_char(t[p + 0]) == '#');
        assert(upper_char(t[p + 15]) == '#');
        let mid = m.subrange(1, 15);
        assert forall|k: int| 0 <= k < mid.len() implies mid[k] != '#' by {
            assert(mid[k] == t[p + 1 + k]);
            assert(upper_char(t[p + (1 + k)]) == cs_pat()[1 + k]);
        }
        lemma_count_none(mid, '#');
        assert(m =~= seq![m[0]] + mid + seq![m[15]]);
        lemma_count_concat(seq![m[0]], mid, '#');
        lemma_count_concat(seq![m[0]] + mid, seq![m[15]], '#');
        assert(m[0] == '#');
        assert(m[15] == '#');
        assert(seq![m[0]].drop_last() =~= Seq::<char>::empty());
        assert(seq![m[15]].drop_last() =~= Seq::<char>::empty());
        assert(count_char(Seq::<char>::empty(), '#') == 0);
        assert(count_char(seq![m[0]], '#') == 1);
        assert(count_char(seq![m[15]], '#') == 1);
    }
}

pub proof fn lemma_count_none(s: Seq<char>, c: char)
    requires
        forall|k: int| 0 <= k < s.len() ==> s[k] != c,
    ensures
        count_char(s, c) == 0,
    decreases s.len(),
{
    if s.len() > 0 {
        assert(s[s.len() - 1] != c);
        lemma_count_none(s.drop_last(), c);
    }
}

/// One replacement of the leftmost marker by `sec`.
pub open spec fn cs_step(t: Seq<char>, sec: Seq<char>) -> Seq<char> {
    let p = cs_find(t, 0);
    t.take(p) + sec + t.skip(p + 16)
}

/// Replacing the marker in `t`, leftmost first, leaves none within `n`
/// replacements.
pub open spec fn cs_ends_within(t: Seq<char>, sec: Seq<char>, n: nat) -> bool
    decreases n,
{
    cs_find(t, 0) == -1 || (n > 0 && cs_ends_within(cs_step(t, sec), sec, (n - 1) as nat))
}

/// Replacing the marker by `sec` until none is left comes to an end (it
/// does not when each replacement brings a marker back, as with a name
/// holding the marker itself).
pub open spec fn cs_ends(t: Seq<char>, sec: Seq<char>) -> bool {
    exists|n: nat| cs_ends_within(t, sec, n)
}

/// At most `n` replacements of the marker.
pub open spec fn cs_replace_n(t: Seq<char>, sec: Seq<char>, n: nat) -> Seq<char>
    decreases n,
{
    if cs_find(t, 0) == -1 || n == 0 {
        t
    } else {
        cs_replace_n(cs_step(t, sec), sec, (n - 1) as nat)
    }
}

/// Replaces `#CURRENTSECTION#` (any ASCII case), leftmost first, until
/// none is left (meaningful where that ends, see `cs_ends`).
pub open spec fn cs_replace(t: Seq<char>, sec: Seq<char>) -> Seq<char> {
    cs_replace_n(t, sec, choose|n: nat| cs_ends_within(t, sec, n))
}

/// Once the replacements have ended, more fuel changes nothing.
pub proof fn lemma_cs_stable(t: Seq<char>, sec: Seq<char>, n: nat, m: nat)
    requires
        cs_ends_within(t, sec, n),
        n <= m,
    ensures
        cs_ends_within(t, sec, m),
        cs_replace_n(t, sec, m) == cs_replace_n(t, sec, n),
    decreases n,
{
    if cs_find(t, 0) != -1 {
        lemma_cs_stable(cs_step(t, sec), sec, (n - 1) as nat, (m - 1) as nat);
    }
}

/// The result does not depend on which sufficient fuel is taken.
pub proof fn lemma_cs_unique(t: Seq<char>, sec: Seq<char>, n: nat, m: nat)
    requires
        cs_ends_within(t, sec, n),
        cs_ends_within(t, sec, m),
    ensures
        cs_replace_n(t, sec, m) == cs_replace_n(t, sec, n),
{
    if n <= m {
        lemma_cs_stable(t, sec, n, m);
    } else {
        lemma_cs_stable(t, sec, m, n);
    }
}

/// One replacement keeps the end in reach and the final text the same.
pub proof fn lemma_cs_one_step(t: Seq<char>, sec: Seq<char>)
    requires
        cs_ends(t, sec),
        cs_find(t, 0) != -1,
    ensures
        cs_ends(cs_step(t, sec), sec),
        cs_replace(cs_step(t, sec), sec) == cs_replace(t, sec),
{
    let n = choose|n: nat| cs_ends_within(t, sec, n);
    let u = cs_step(t, sec);
    assert(cs_ends_within(u, sec, (n - 1) as nat));
    let m = choose|m: nat| cs_ends_within(u, sec, m);
    lemma_cs_unique(u, sec, (n - 1) as nat, m);
}

/// A name shorter than the marker, or free of `#`, always lets the
/// replacement end: each step shortens the text, or removes two `#`.
pub proof fn lemma_cs_ok_ends(t: Seq<char>, sec: Seq<char>)
    requires
        cs_ok(sec),
    ensures
        cs_ends(t, sec),
    decreases (if sec.len() < 16 {
        t.len() as int
    } else {
        count_char(t, '#') as int
    }),
{
    let p = cs_find(t, 0);
    if p == -1 {
        assert(cs_ends_within(t, sec, 0));
    } else {
        lemma_cs_find(t, 0);
        if sec.len() >= 16 {
            lemma_cs_measure(t, sec, p);
        }
        let u = cs_step(t, sec);
        lemma_cs_ok_ends(u, sec);
        let m = choose|m: nat| cs_ends_within(u, sec, m);
        assert(cs_ends_within(t, sec, m + 1));
    }
}

} // verus!
verus! {

/// A leading `&` removed.
pub open spec fn strip_amp(s: Seq<char>) -> Seq<char> {
    if s.len() > 0 && s[0] == '&' {
        s.drop_first()
    } else {
        s
    }
}

/// Index of the first measure named exactly `key`, or -1.
pub open spec fn measure_index(ms: Seq<SectionValue>, key: Seq<char>, from: int) -> int
    decreases ms.len() - from,
{
    if from < 0 || from >= ms.len() {
        -1
    } else if ms[from].name@ == key {
        from
    } else {
        measure_index(ms, key, from + 1)
    }
}

/// Index of the first meter named exactly `key`.
pub open spec fn bounds_exact(bs: Seq<SectionBounds>, key: Seq<char>, from: int) -> int
    decreases bs.len() - from,
{
    if from < 0 || from >= bs.len() {
        -1
    } else if bs[from].name@ == key {
        from
    } else {
        bounds_exact(bs, key, from + 1)
    }
}

/// Index of the first meter named `key` ignoring ASCII case.
pub open spec fn bounds_folded(bs: Seq<SectionBounds>, key: Seq<char>, from: int) -> int
    decreases bs.len() - from,
{
    if from < 0 || from >= bs.len() {
        -1
    } else if lower(bs[from].name@) == key {
        from
    } else {
        bounds_folded(bs, key, from + 1)
    }
}

/// The meter found by exact name, else by case-folded name, or -1.
pub open spec fn bounds_index(bs: Seq<SectionBounds>, key: Seq<char>) -> int {
    let e = bounds_exact(bs, key, 0);
    if e != -1 {
        e
    } else {
        bounds_folded(bs, key, 0)
    }
}

/// The bound named by a lower-cased property (`w`, `width`, `h`, `height`,
/// `x` or `y`).
pub open spec fn bound_prop(b: SectionBounds, prop: Seq<char>) -> Option<Seq<char>> {
    if prop == seq!['w'] || prop == seq!['w', 'i', 'd', 't', 'h'] {
        Some(b.width@)
    } else if prop == seq!['h'] || prop == seq!['h', 'e', 'i', 'g', 'h', 't'] {
        Some(b.height@)
    } else if prop == seq!['x'] {
        Some(b.x@)
    } else if prop == seq!['y'] {
        Some(b.y@)
    } else {
        None
    }
}

/// The section reference starting with `[` at character `i`, if it
/// resolves: its replacement text and the index after its closing `]`.
pub open spec fn section_ref(
    t: Seq<char>,
    i: int,
    ms: Option<Seq<SectionValue>>,
    bs: Option<Seq<SectionBounds>>,
) -> Option<(Seq<char>, int)> {
    let c = find_from(t, i, ']');
    let inner = t.subrange(i + 1, c);
    if !(0 <= i < t.len()) || t[i] != '[' || c == -1 || c <= i {
        None
    } else if inner.len() == 0 || inner[0] == '!' || inner[0] == '"' || inner[0] == '\'' || find_from(
        inner,
        0,
        ' ',
    ) != -1 {
        None
    } else {
        let colon = find_from(inner, 0, ':');
        if colon != -1 {
            let name = inner.take(colon);
            let prop = inner.skip(colon + 1);
            let cn = lower(strip_amp(name));
            let cp = lower(prop);
            let from_bounds = match bs {
                Some(bs) => {
                    let k = bounds_index(bs, cn);
                    if 0 <= k < bs.len() {
                        bound_prop(bs[k], cp)
                    } else {
                        None
                    }
                },
                None => None,
            };
            if from_bounds is Some {
                Some((from_bounds.unwrap(), c + 1))
            } else if prop.len() == 0 && ms is Some && 0 <= measure_index(ms.unwrap(), cn, 0)
                < ms.unwrap().len() {
                Some((ms.unwrap()[measure_index(ms.unwrap(), cn, 0)].number@, c + 1))
            } else {
                None
            }
        } else {
            let cn = lower(strip_amp(inner));
            if ms is Some && 0 <= measure_index(ms.unwrap(), cn, 0) < ms.unwrap().len() {
                Some((ms.unwrap()[measure_index(ms.unwrap(), cn, 0)].text@, c + 1))
            } else {
                None
            }
        }
    }
}

/// Resolves section references in `t` from character `i` on; every
/// character not part of a resolved reference is kept as it is.
pub open spec fn section_scan(
    t: Seq<char>,
    i: int,
    ms: Option<Seq<SectionValue>>,
    bs: Option<Seq<SectionBounds>>,
) -> Seq<char>
    decreases t.len() - i,
{
    if i < 0 || i >= t.len() {
        seq![]
    } else {
        match section_ref(t, i, ms, bs) {
            Some((val, next)) => {
                proof {
                    lemma_find_from(t, i, ']');
                }
                val + section_scan(t, next, ms, bs)
            },
            None => seq![t[i]] + section_scan(t, i + 1, ms, bs),
        }
    }
}

pub open spec fn opt_seq<T>(o: Option<&Vec<T>>) -> Option<Seq<T>> {
    match o {
        Some(v) => Some(v@),
        None => None,
    }
}

pub open spec fn opt_str(o: Option<&str>) -> Option<Seq<char>> {
    match o {
        Some(v) => Some(v@),
        None => None,
    }
}

/// `expand_with_full_context`: the section marker, then variables, then
/// section references when measures or bounds are given.
pub open spec fn full_context(
    m: Map<Seq<char>, Seq<char>>,
    input: Seq<char>,
    sec: Option<Seq<char>>,
    ms: Option<Seq<SectionValue>>,
    bs: Option<Seq<SectionBounds>>,
) -> Seq<char> {
    let t1 = match sec {
        Some(s) => cs_replace(input, s),
        None => input,
    };
    let t2 = expand_spec(m, t1);
    if ms is Some || bs is Some {
        section_scan(t2, 0, ms, bs)
    } else {
        t2
    }
}

} // verus!
verus! {

/// Replaces the section marker until none is left.
fn replace_current_section(text: &str, sec: &str) -> (r: String)
    requires
        cs_ends(text@, sec@),
    ensures
        r@ == cs_replace(text@, sec@),
{
    let sv = to_chars(sec);
    let mut t = to_chars(text);
    let ghost mut fuel: nat = choose|n: nat| cs_ends_within(text@, sec@, n);
    proof {
        let n = fuel;
        assert(cs_ends_within(text@, sec@, n));
        lemma_cs_unique(text@, sec@, n, n);
    }
    loop
        invariant
            sv@ == sec@,
            cs_ends(t@, sec@),
            cs_ends_within(t@, sec@, fuel),
            cs_replace(t@, sec@) == cs_replace(text@, sec@),
        decreases fuel,
    {
        proof {
            lemma_cs_find(t@, 0);
        }
        match find_current_section(&t) {
            None => {
                return crate::text::string_of_all(&t);
            },
            Some(p) => {
                assert(cs_at(t@, p as int));
                assert(p + 16 <= t.len());
                let ghost old_t = t@;
                let mut nt: Vec<char> = Vec::new();
                let mut k: usize = 0;
                while k < p
                    invariant
                        k <= p,
                        p + 16 <= t@.len(),
                        nt@ == t@.take(k as int),
                    decreases p - k,
                {
                    nt.push(t[k]);
                    k = k + 1;
                    assert(nt@ =~= t@.take(k as int));
                }
                let mut k2: usize = 0;
                while k2 < sv.len()
                    invariant
                        k2 <= sv@.len(),
                        nt@ == t@.take(p as int) + sv@.take(k2 as int),
                    decreases sv.len() - k2,
                {
                    nt.push(sv[k2]);
                    k2 = k2 + 1;
                    assert(nt@ =~= t@.take(p as int) + sv@.take(k2 as int));
                }
                let mut k3: usize = p + 16;
                while k3 < t.len()
                    invariant
                        p + 16 <= k3 <= t@.len(),
                        nt@ == t@.take(p as int) + sv@ + t@.subrange(p + 16, k3 as int),
                    decreases t.len() - k3,
                {
                    nt.push(t[k3]);
                    k3 = k3 + 1;
                    assert(nt@ =~= t@.take(p as int) + sv@ + t@.subrange(p + 16, k3 as int));
                }
                proof {
                    assert(sv@.take(sv@.len() as int) =~= sv@);
                    assert(t@.subrange(p + 16, t@.len() as int) =~= t@.skip(p + 16));
                    assert(nt@ == cs_step(t@, sec@));
                    lemma_cs_one_step(t@, sec@);
                    fuel = (fuel - 1) as nat;
                }
                t = nt;
            },
        }
    }
}

/// Position of the first section marker, ignoring ASCII case.
fn find_current_section(t: &Vec<char>) -> (r: Option<usize>)
    ensures
        match r {
            Some(p) => p as int == cs_find(t@, 0),
            None => cs_find(t@, 0) == -1,
        },
{
    let pat: [char; 16] = [
        '#',
        'C',
        'U',
        'R',
        'R',
        'E',
        'N',
        'T',
        'S',
        'E',
        'C',
        'T',
        'I',
        'O',
        'N',
        '#',
    ];
    assert(pat@ =~= cs_pat());
    if t.len() < 16 {
        return None;
    }
    let mut p: usize = 0;
    while p <= t.len() - 16
        invariant
            pat@ == cs_pat(),
            t@.len() >= 16,
            p <= t@.len() - 15,
            cs_find(t@, 0) == cs_find(t@, p as int),
        decreases t.len() - p,
    {
        let mut k: usize = 0;
        let mut ok = true;
        while k < 16 && ok
            invariant
                pat@ == cs_pat(),
                p + 16 <= t@.len(),
                k <= 16,
                ok ==> forall|q: int| 0 <= q < k ==> upper_char(#[trigger] t@[p + q]) == cs_pat()[q],
                !ok ==> !cs_at(t@, p as int),
            decreases 16 - k,
        {
            assert(p + k < t.len());
            let c = t[p + k];
            let u = if 'a' <= c && c <= 'z' {
                let n: u32 = (c as u32) - 32;
                let b: u8 = n as u8;
                b as char
            } else {
                c
            };
            if u != pat[k] {
                ok = false;
            }
            k = k + 1;
        }
        if ok {
            assert(cs_at(t@, p as int));
            return Some(p);
        }
        p = p + 1;
    }
    None
}

fn measure_index_exec(ms: &Vec<SectionValue>, key: &Vec<char>) -> (r: Option<usize>)
    ensures
        match r {
            Some(k) => k as int == measure_index(ms@, key@, 0) && k < ms@.len(),
            None => measure_index(ms@, key@, 0) == -1,
        },
{
    let mut k: usize = 0;
    while k < ms.len()
        invariant
            k <= ms@.len(),
            measure_index(ms@, key@, 0) == measure_index(ms@, key@, k as int),
        decreases ms.len() - k,
    {
        let nv = crate::text::to_chars(ms[k].name.as_str());
        if crate::text::eq_chars(&nv, key) {
            return Some(k);
        }
        k = k + 1;
    }
    None
}

fn bounds_index_exec(bs: &Vec<SectionBounds>, key: &Vec<char>) -> (r: Option<usize>)
    ensures
        match r {
            Some(k) => k as int == bounds_index(bs@, key@) && k < bs@.len(),
            None => bounds_index(bs@, key@) == -1,
        },
{
    let mut k: usize = 0;
    while k < bs.len()
        invariant
            k <= bs@.len(),
            bounds_exact(bs@, key@, 0) == bounds_exact(bs@, key@, k as int),
        decreases bs.len() - k,
    {
        let nv = crate::text::to_chars(bs[k].name.as_str());
        if crate::text::eq_chars(&nv, key) {
            return Some(k);
        }
        k = k + 1;
    }
    let mut k: usize = 0;
    while k < bs.len()
        invariant
            k <= bs@.len(),
            bounds_exact(bs@, key@, 0) == -1,
            bounds_folded(bs@, key@, 0) == bounds_folded(bs@, key@, k as int),
        decreases bs.len() - k,
    {
        let nv = crate::text::to_chars(bs[k].name.as_str());
        let low = crate::text::lower_range(&nv, 0, nv.len());
        assert(nv@.subrange(0, nv@.len() as int) =~= nv@);
        if crate::text::eq_chars(&low, key) {
            return Some(k);
        }
        k = k + 1;
    }
    None
}

fn bound_prop_exec(b: &SectionBounds, prop: &Vec<char>) -> (r: Option<String>)
    ensures
        ov_str(r) == bound_prop(*b, prop@),
{
    let w: [char; 1] = ['w'];
    let width: [char; 5] = ['w', 'i', 'd', 't', 'h'];
    let h: [char; 1] = ['h'];
    let height: [char; 6] = ['h', 'e', 'i', 'g', 'h', 't'];
    let x: [char; 1] = ['x'];
    let y: [char; 1] = ['y'];
    assert(w@ =~= seq!['w']);
    assert(width@ =~= seq!['w', 'i', 'd', 't', 'h']);
    assert(h@ =~= seq!['h']);
    assert(height@ =~= seq!['h', 'e', 'i', 'g', 'h', 't']);
    assert(x@ =~= seq!['x']);
    assert(y@ =~= seq!['y']);
    if crate::text::eq_chars(prop, &w) || crate::text::eq_chars(prop, &width) {
        Some(b.width.clone())
    } else if crate::text::eq_chars(prop, &h) || crate::text::eq_chars(prop, &height) {
        Some(b.height.clone())
    } else if crate::text::eq_chars(prop, &x) {
        Some(b.x.clone())
    } else if crate::text::eq_chars(prop, &y) {
        Some(b.y.clone())
    } else {
        None
    }
}

pub open spec fn ov_str(o: Option<String>) -> Option<Seq<char>> {
    match o {
        Some(s) => Some(s@),
        None => None,
    }
}

} // verus!
verus! {

pub open spec fn ov_ref(o: Option<(String, usize)>) -> Option<(Seq<char>, int)> {
    match o {
        Some((s, n)) => Some((s@, n as int)),
        None => None,
    }
}

/// First index in `t[lo..hi]` holding `x`, or `hi`.
fn scan_char(t: &[char], lo: usize, hi: usize, x: char) -> (r: usize)
    requires
        lo <= hi <= t@.len(),
    ensures
        lo <= r <= hi,
        forall|k: int| lo <= k < r ==> t@[k] != x,
        r < hi ==> t@[r as int] == x,
{
    let mut q = lo;
    while q < hi && t[q] != x
        invariant
            lo <= q <= hi <= t@.len(),
            forall|k: int| lo <= k < q ==> t@[k] != x,
        decreases hi - q,
    {
        q = q + 1;
    }
    q
}

/// `find_from` on a sub-sequence, from its own start, in terms of a scan
/// of the enclosing sequence.
proof fn lemma_find_in_sub(t: Seq<char>, lo: int, hi: int, x: char, r: int)
    requires
        0 <= lo <= r <= hi <= t.len(),
        forall|k: int| lo <= k < r ==> t[k] != x,
        r < hi ==> t[r] == x,
    ensures
        find_from(t.subrange(lo, hi), 0, x) == if r < hi {
            r - lo
        } else {
            -1
        },
{
    let s = t.subrange(lo, hi);
    lemma_find_from(s, 0, x);
    let f = find_from(s, 0, x);
    if f != -1 {
        assert(s[f] == t[lo + f]);
        if r < hi {
            assert(s[r - lo] == t[r]);
        }
    } else if r < hi {
        assert(s[r - lo] == t[r]);
    }
}

/// The section reference at character `i`, resolved.
fn section_ref_exec(
    b: &[char],
    i: usize,
    ms: Option<&Vec<SectionValue>>,
    bs: Option<&Vec<SectionBounds>>,
) -> (r: Option<(String, usize)>)
    requires
        i < b@.len(),
    ensures
        ov_ref(r) == section_ref(b@, i as int, opt_seq(ms), opt_seq(bs)),
{
    if b[i] != '[' {
        return None;
    }
    let c = scan_char(b, i, b.len(), ']');
    proof {
        lemma_find_from(b@, i as int, ']');
        if c < b.len() {
            assert(find_from(b@, i as int, ']') == c);
        } else {
            assert(find_from(b@, i as int, ']') == -1);
        }
    }
    if c == b.len() {
        return None;
    }
    let ghost inner = b@.subrange(i + 1, c as int);
    if c == i + 1 || b[i + 1] == '!' || b[i + 1] == '"' || b[i + 1] == '\'' {
        return None;
    }
    assert(inner[0] == b@[i + 1]);
    let sp = scan_char(b, i + 1, c, ' ');
    proof {
        lemma_find_in_sub(b@, i + 1, c as int, ' ', sp as int);
    }
    if sp < c {
        return None;
    }
    let col = scan_char(b, i + 1, c, ':');
    proof {
        lemma_find_in_sub(b@, i + 1, c as int, ':', col as int);
    }
    if col < c {
        let ghost name = inner.take(col - i - 1);
        let ghost prop = inner.skip(col - i);
        assert(name =~= b@.subrange(i + 1, col as int));
        assert(prop =~= b@.subrange(col + 1, c as int));
        let s0: usize = if col > i + 1 && b[i + 1] == '&' {
            i + 2
        } else {
            i + 1
        };
        assert(strip_amp(name) =~= b@.subrange(s0 as int, col as int));
        let cn = crate::text::lower_range(b, s0, col);
        let cp = crate::text::lower_range(b, col + 1, c);
        let from_bounds = match bs {
            Some(bs) => match bounds_index_exec(bs, &cn) {
                Some(k) => bound_prop_exec(&bs[k], &cp),
                None => None,
            },
            None => None,
        };
        if let Some(v) = from_bounds {
            return Some((v, c + 1));
        }
        if col + 1 == c {
            if let Some(ms) = ms {
                if let Some(k) = measure_index_exec(ms, &cn) {
                    return Some((ms[k].number.clone(), c + 1));
                }
            }
        }
        None
    } else {
        let s0: usize = if b[i + 1] == '&' {
            i + 2
        } else {
            i + 1
        };
        assert(strip_amp(inner) =~= b@.subrange(s0 as int, c as int));
        let cn = crate::text::lower_range(b, s0, c);
        if let Some(ms) = ms {
            if let Some(k) = measure_index_exec(ms, &cn) {
                return Some((ms[k].text.clone(), c + 1));
            }
        }
        None
    }
}

/// Resolves section references throughout `text`.
fn section_scan_exec(
    text: &str,
    ms: Option<&Vec<SectionValue>>,
    bs: Option<&Vec<SectionBounds>>,
) -> (r: String)
    ensures
        r@ == section_scan(text@, 0, opt_seq(ms), opt_seq(bs)),
{
    let b = crate::text::to_chars(text);
    let ghost bb = b@;
    let mut out = String::new();
    let mut i: usize = 0;
    while i < b.len()
        invariant
            bb == b@,
            bb == text@,
            i <= b@.len(),
            out@ + section_scan(bb, i as int, opt_seq(ms), opt_seq(bs)) == section_scan(
                bb,
                0,
                opt_seq(ms),
                opt_seq(bs),
            ),
        decreases b.len() - i,
    {
        match section_ref_exec(&b, i, ms, bs) {
            Some((val, next)) => {
                proof {
                    lemma_find_from(bb, i as int, ']');
                }
                let ghost before = out@;
                out.append(val.as_str());
                assert(out@ + section_scan(bb, next as int, opt_seq(ms), opt_seq(bs)) =~= before
                    + (val@ + section_scan(bb, next as int, opt_seq(ms), opt_seq(bs))));
                i = next;
            },
            None => {
                let ch: char = b[i];
                let ghost before = out@;
                out.push(ch);
                assert(out@ + section_scan(bb, i + 1, opt_seq(ms), opt_seq(bs)) =~= before + (seq![
                    ch,
                ] + section_scan(bb, i + 1, opt_seq(ms), opt_seq(bs))));
                i = i + 1;
            },
        }
    }
    assert(out@ =~= out@ + section_scan(bb, i as int, opt_seq(ms), opt_seq(bs)));
    out
}

impl VariableMap {
    /// Expands variables with optional context: `#CURRENTSECTION#`, `#VarName#`,
    /// and `[MeasureName]` / `[MeasureName:]` dynamic section variables.
    pub fn expand_with_context(
        &self,
        input: &str,
        current_section: Option<&str>,
        measures: Option<&Vec<SectionValue>>,
    ) -> (r: String)
        requires
            self.wf(),
            match current_section {
                Some(s) => cs_ends(input@, s@),
                None => true,
            },
        ensures
            r@ == full_context(self@, input@, opt_str(current_section), opt_seq(measures), None),
    {
        self.expand_with_full_context(input, current_section, measures, None)
    }

    /// Expands variables with full context including dynamic meter bounds
    /// (`[Meter:W]`, `[Meter:H]`, `[Meter:X]`, `[Meter:Y]`).
    pub fn expand_with_full_context(
        &self,
        input: &str,
        current_section: Option<&str>,
        measures: Option<&Vec<SectionValue>>,
        meter_bounds: Option<&Vec<SectionBounds>>,
    ) -> (r: String)
        requires
            self.wf(),
            match current_section {
                Some(s) => cs_ends(input@, s@),
                None => true,
            },
        ensures
            r@ == full_context(
                self@,
                input@,
                opt_str(current_section),
                opt_seq(measures),
                opt_seq(meter_bounds),
            ),
    {
        let t1 = match current_section {
            Some(sec) => replace_current_section(input, sec),
            None => input.to_string(),
        };
        let t2 = self.expand(t1.as_str());
        if measures.is_some() || meter_bounds.is_some() {
            section_scan_exec(t2.as_str(), measures, meter_bounds)
        } else {
            t2
        }
    }
}

} // verus!
verus! {

/// One round of chained resolution over the keys `ks` in order: each
/// defined key whose value still expands to something else is rewritten
/// to the expanded text. Also returns whether anything was rewritten.
pub open spec fn chain_round(m: Map<Seq<char>, Seq<char>>, ks: Seq<Seq<char>>) -> (
    Map<Seq<char>, Seq<char>>,
    bool,
)
    decreases ks.len(),
{
    if ks.len() == 0 {
        (m, false)
    } else {
        let (m1, c1) = chain_round(m, ks.drop_last());
        let k = ks.last();
        if m1.contains_key(k) && expand_spec(m1, m1[k]) != m1[k] {
            (m1.insert(k, expand_spec(m1, m1[k])), true)
        } else {
            (m1, c1)
        }
    }
}

/// Up to `n` rounds, stopping after a round that rewrote nothing.
pub open spec fn chain_rounds(m: Map<Seq<char>, Seq<char>>, ks: Seq<Seq<char>>, n: nat) -> Map<
    Seq<char>,
    Seq<char>,
>
    decreases n,
{
    if n == 0 {
        m
    } else {
        let (m2, changed) = chain_round(m, ks);
        if !changed {
            m2
        } else {
            chain_rounds(m2, ks, (n - 1) as nat)
        }
    }
}

impl VariableMap {
    /// Rewrites variables whose values refer to other variables with their
    /// expanded text, round after round (at most 16) until nothing changes.
    pub fn resolve_chains(&mut self)
        requires
            old(self).wf(),
        ensures
            final(self).wf(),
            final(self)@ == chain_rounds(old(self)@, old(self).key_order(), 16),
            final(self).key_order() == old(self).key_order(),
    {
        let ghost ks = self.key_order();
        let mut n: usize = 16;
        while n > 0
            invariant
                self.wf(),
                n <= 16,
                self.key_order() == ks,
                ks == old(self).key_order(),
                chain_rounds(self@, ks, n as nat) == chain_rounds(old(self)@, ks, 16),
            decreases n,
        {
            let pairs = self.iter();
            proof {
                self.lemma_keys_lower();
                self.lemma_key_order();
            }
            let ghost start = self@;
            let mut changed = false;
            let mut i: usize = 0;
            while i < pairs.len()
                invariant
                    self.wf(),
                    self.key_order() == ks,
                    pairs@.len() == ks.len(),
                    forall|j: int| 0 <= j < pairs@.len() ==> #[trigger] pairs@[j].0@ == ks[j],
                    forall|k: Seq<char>| #[trigger] self@.contains_key(k) ==> lower(k) == k,
                    i <= pairs@.len(),
                    (self@, changed) == chain_round(start, ks.take(i as int)),
                decreases pairs.len() - i,
            {
                let k = pairs[i].0.as_str();
                proof {
                    assert(ks.take(i + 1).drop_last() =~= ks.take(i as int));
                    assert(ks.take(i + 1).last() == k@);
                }
                match self.get(k) {
                    Some(val) => {
                        proof {
                            assert(lower(k@) == k@);
                        }
                        let expanded = self.expand(val);
                        let same = {
                            let v2 = val.to_string();
                            expanded == v2
                        };
                        if !same {
                            self.set(k, expanded.as_str());
                            changed = true;
                        }
                    },
                    None => {
                        proof {
                            assert(!self@.contains_key(k@)) by {
                                if self@.contains_key(k@) {
                                    assert(lower(k@) == k@);
                                }
                            }
                        }
                    },
                }
                i = i + 1;
            }
            assert(ks.take(pairs@.len() as int) =~= ks);
            if !changed {
                assert(chain_rounds(start, ks, n as nat) == self@);
                return ;
            }
            n = n - 1;
        }
    }
}

} // verus!
verus! {

impl VariableMap {
    /// A copy with the same contents and key order.
    pub fn duplicate(&self) -> (r: Self)
        requires
            self.wf(),
        ensures
            r.wf(),
            r@ == self@,
            r.key_order() == self.key_order(),
    {
        let mut v: Vec<(String, String)> = Vec::new();
        let mut i: usize = 0;
        while i < self.vars.len()
            invariant
                i <= self.vars@.len(),
                v@.len() == i,
                forall|j: int|
                    #![trigger v@[j]]
                    0 <= j < i ==> v@[j].0@ == self.vars@[j].0@ && v@[j].1@ == self.vars@[j].1@,
            decreases self.vars.len() - i,
        {
            let k = self.vars[i].0.clone();
            let val = self.vars[i].1.clone();
            v.push((k, val));
            assert(v@[i as int].0@ == self.vars@[i as int].0@);
            i = i + 1;
        }
        let r = VariableMap { vars: v };
        proof {
            lemma_same_views_map(self.vars@, r.vars@);
            assert(r.key_order() =~= self.key_order());
        }
        r
    }
}

proof fn lemma_same_views_map(a: Seq<(String, String)>, b: Seq<(String, String)>)
    requires
        a.len() == b.len(),
        forall|j: int| #![trigger b[j]] 0 <= j < a.len() ==> b[j].0@ == a[j].0@ && b[j].1@ == a[j].1@,
    ensures
        pairs_map(a) == pairs_map(b),
    decreases a.len(),
{
    if a.len() > 0 {
        lemma_same_views_map(a.drop_last(), b.drop_last());
        assert(b[b.len() - 1].0@ == a[a.len() - 1].0@);
    }
}

} // verus!
verus! {

/// `m` with the entries of `p` whose keys `m` lacks.
pub open spec fn merge_missing(
    m: Map<Seq<char>, Seq<char>>,
    p: Map<Seq<char>, Seq<char>>,
) -> Map<Seq<char>, Seq<char>> {
    Map::new(
        |k: Seq<char>| m.contains_key(k) || p.contains_key(k),
        |k: Seq<char>|
            if m.contains_key(k) {
                m[k]
            } else {
                p[k]
            },
    )
}

impl VariableMap {
    /// Adds the entries of `other` whose keys are not yet present; existing
    /// entries are kept.
    pub fn insert_missing(&mut self, other: &VariableMap)
        requires
            old(self).wf(),
            other.wf(),
        ensures
            final(self).wf(),
            final(self)@ == merge_missing(old(self)@, other@),
    {
        let pairs = other.iter();
        proof {
            other.lemma_keys_lower();
        }
        let ghost start = self@;
        let mut i: usize = 0;
        while i < pairs.len()
            invariant
                self.wf(),
                other.wf(),
                i <= pairs@.len(),
                forall|j: int| 0 <= j < pairs@.len() ==> #[trigger] other@.contains_key(pairs@[j].0@)
                    && other@[pairs@[j].0@] == pairs@[j].1@,
                forall|k: Seq<char>| #[trigger] other@.contains_key(k) ==> exists|j: int|
                    0 <= j < pairs@.len() && pairs@[j].0@ == k,
                forall|k: Seq<char>| #[trigger] other@.contains_key(k) ==> lower(k) == k,
                forall|k: Seq<char>| #[trigger]
                    self@.contains_key(k) <==> (start.contains_key(k) || exists|j: int|
                        0 <= j < i && pairs@[j].0@ == k),
                forall|k: Seq<char>| #[trigger]
                    self@.contains_key(k) ==> self@[k] == (if start.contains_key(k) {
                        start[k]
                    } else {
                        other@[k]
                    }),
            decreases pairs.len() - i,
        {
            let k = pairs[i].0.as_str();
            let v = pairs[i].1.as_str();
            proof {
                assert(other@.contains_key(pairs@[i as int].0@));
                assert(lower(k@) == k@);
            }
            if !self.contains_key(k) {
                self.set(k, v);
            }
            proof {
                assert forall|kk: Seq<char>| #[trigger]
                    self@.contains_key(kk) <==> (start.contains_key(kk) || exists|j: int|
                        0 <= j < i + 1 && pairs@[j].0@ == kk) by {
                    if kk == k@ {
                        assert(pairs@[i as int].0@ == kk);
                    } else if exists|j: int| 0 <= j < i + 1 && pairs@[j].0@ == kk {
                        let j = choose|j: int| 0 <= j < i + 1 && pairs@[j].0@ == kk;
                        assert(j < i);
                    }
                }
            }
            i = i + 1;
        }
        proof {
            assert(self@ =~= merge_missing(start, other@));
        }
    }
}

} // verus!
verus! {

/// Without a `[`, the section scan keeps the text as it is.
pub proof fn lemma_scan_plain(t: Seq<char>, i: int, ms: Option<Seq<SectionValue>>, bs: Option<Seq<SectionBounds>>)
    requires
        0 <= i <= t.len(),
        !crate::text::has_char(t, '['),
    ensures
        section_scan(t, i, ms, bs) == t.skip(i),
    decreases t.len() - i,
{
    if i < t.len() {
        assert(t[i] != '[') by {
            if t[i] == '[' {
                assert(crate::text::has_char(t, '['));
            }
        }
        lemma_scan_plain(t, i + 1, ms, bs);
        assert(t.skip(i) =~= seq![t[i]] + t.skip(i + 1));
    } else {
        assert(t.skip(i) =~= Seq::<char>::empty());
    }
}

/// Law: expansion with context is expansion with full context and no meter
/// bounds. Both `expand_with_context` and `expand_with_full_context` give
/// `full_context` of their arguments taken by `opt_str` and `opt_seq`; with
/// the bounds left out the two descriptions agree for every input.
pub proof fn law_context_is_full_context_without_bounds(
    m: Map<Seq<char>, Seq<char>>,
    input: Seq<char>,
    sec: Option<&str>,
    ms: Option<&Vec<SectionValue>>,
)
    ensures
        full_context(m, input, opt_str(sec), opt_seq(ms), None) == full_context(
            m,
            input,
            opt_str(sec),
            opt_seq(ms),
            opt_seq::<SectionBounds>(None),
        ),
{
}

/// Law: text without `#` and `[` comes back unchanged from expansion with
/// context, whatever measures and bounds are given (any character,
/// multi-byte ones included, is copied as it is).
pub proof fn law_context_keeps_plain_text(
    m: Map<Seq<char>, Seq<char>>,
    input: Seq<char>,
    ms: Option<Seq<SectionValue>>,
    bs: Option<Seq<SectionBounds>>,
)
    requires
        !crate::text::has_char(input, '#'),
        !crate::text::has_char(input, '['),
    ensures
        full_context(m, input, None, ms, bs) == input,
{
    law_expand_plain_text(m, input);
    lemma_scan_plain(input, 0, ms, bs);
    assert(input.skip(0) =~= input);
}

/// A measure name as a reference writes it: not empty, holding no `[`,
/// `]`, `#`, `:` or space, and starting with none of `!`, `"`, `'`, `&`.
pub open spec fn ref_name(n: Seq<char>) -> bool {
    &&& n.len() > 0
    &&& n[0] != '!' && n[0] != '"' && n[0] != '\'' && n[0] != '&'
    &&& forall|k: int| 0 <= k < n.len() ==> #[trigger] n[k] != ']' && n[k] != '[' && n[k] != '#' && n[k] != ':' && n[k]
        != ' '
}

/// The first measure named `key` from `from` on is at `j`.
proof fn lemma_measure_index_at(ms: Seq<SectionValue>, key: Seq<char>, j: int, from: int)
    requires
        0 <= from <= j < ms.len(),
        ms[j].name@ == key,
        forall|k: int| from <= k < j ==> (#[trigger] ms[k]).name@ != key,
    ensures
        measure_index(ms, key, from) == j,
    decreases j - from,
{
    if from < j {
        lemma_measure_index_at(ms, key, j, from + 1);
    }
}

/// The first `c` of `s` from `from` on is at `j`.
proof fn lemma_first_at(s: Seq<char>, from: int, j: int, c: char)
    requires
        0 <= from <= j < s.len(),
        s[j] == c,
        forall|k: int| from <= k < j ==> s[k] != c,
    ensures
        find_from(s, from, c) == j,
{
    lemma_find_from(s, from, c);
    let r = find_from(s, from, c);
    if r == -1 {
        assert(s[j] != c);
    } else if r < j {
        assert(s[r] == c);
    } else if r > j {
        assert(s[j] != c);
    }
}

/// No `c` in `s`.
proof fn lemma_none_of(s: Seq<char>, c: char)
    requires
        forall|k: int| 0 <= k < s.len() ==> s[k] != c,
    ensures
        find_from(s, 0, c) == -1,
        !crate::text::has_char(s, c),
{
    lemma_find_from(s, 0, c);
    if find_from(s, 0, c) != -1 {
        assert(s[find_from(s, 0, c)] == c);
    }
}

/// Law: measure references in option text. `[Name]` gives the text value
/// of the first measure named `Name` (in any case), and `[Name:]` its
/// numeric value.
pub proof fn law_measure_references(m: Map<Seq<char>, Seq<char>>, n: Seq<char>, ms: Seq<SectionValue>, j: int)
    requires
        ref_name(n),
        0 <= j < ms.len(),
        ms[j].name@ == lower(n),
        forall|k: int| 0 <= k < j ==> (#[trigger] ms[k]).name@ != lower(n),
    ensures
        full_context(m, seq!['['] + n + seq![']'], None, Some(ms), None) == ms[j].text@,
        full_context(m, seq!['['] + n + seq![':', ']'], None, Some(ms), None) == ms[j].number@,
{
    lemma_measure_index_at(ms, lower(n), j, 0);
    assert(strip_amp(n) == n);
    // `[Name]`
    let t = seq!['['] + n + seq![']'];
    assert forall|k: int| 0 <= k < t.len() implies t[k] != '#' by {
        if 1 <= k <= n.len() {
            assert(t[k] == n[k - 1]);
        }
    }
    lemma_none_of(t, '#');
    law_expand_plain_text(m, t);
    let c = n.len() as int + 1;
    assert forall|k: int| 0 <= k < c implies t[k] != ']' by {
        if k >= 1 {
            assert(t[k] == n[k - 1]);
        }
    }
    lemma_first_at(t, 0, c, ']');
    assert(t.subrange(1, c) =~= n);
    assert forall|k: int| 0 <= k < n.len() implies n[k] != ' ' && n[k] != ':' by {
        assert(n[k] != ']');
    }
    lemma_none_of(n, ' ');
    lemma_none_of(n, ':');
    assert(section_scan(t, c + 1, Some(ms), None) == Seq::<char>::empty());
    assert(section_ref(t, 0, Some(ms), None) == Some((ms[j].text@, c + 1)));
    assert(ms[j].text@ + Seq::<char>::empty() =~= ms[j].text@);
    // `[Name:]`
    let u = seq!['['] + n + seq![':', ']'];
    assert forall|k: int| 0 <= k < u.len() implies u[k] != '#' by {
        if 1 <= k <= n.len() {
            assert(u[k] == n[k - 1]);
        }
    }
    lemma_none_of(u, '#');
    law_expand_plain_text(m, u);
    let d = n.len() as int + 2;
    assert forall|k: int| 0 <= k < d implies u[k] != ']' by {
        if 1 <= k <= n.len() {
            assert(u[k] == n[k - 1]);
        }
    }
    lemma_first_at(u, 0, d, ']');
    let inner = u.subrange(1, d);
    assert(inner =~= n + seq![':']);
    assert forall|k: int| 0 <= k < inner.len() implies inner[k] != ' ' by {
        if k < n.len() {
            assert(inner[k] == n[k]);
        }
    }
    lemma_none_of(inner, ' ');
    assert forall|k: int| 0 <= k < n.len() implies inner[k] != ':' by {
        assert(inner[k] == n[k]);
    }
    lemma_first_at(inner, 0, n.len() as int, ':');
    assert(inner.take(n.len() as int) =~= n);
    assert(inner.skip(n.len() as int + 1) =~= Seq::<char>::empty());
    assert(section_scan(u, d + 1, Some(ms), None) == Seq::<char>::empty());
    assert(section_ref(u, 0, Some(ms), None) == Some((ms[j].number@, d + 1)));
    assert(ms[j].number@ + Seq::<char>::empty() =~= ms[j].number@);
}

} // verus!
