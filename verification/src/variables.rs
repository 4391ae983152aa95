use crate::errors::CaptiError;
use crate::m_value::{m2v, vv_render, vv_wf, MValue, ValueV};
use vstd::prelude::*;

verus! {

/// Whether the entry list `s` holds a variable named `k`.
pub open spec fn vm_contains(s: Seq<(String, MValue)>, k: Seq<char>) -> bool {
    exists|i: int| 0 <= i < s.len() && s[i].0@ == k
}

/// An index of the variable named `k` (unique when names are unique).
pub open spec fn vm_index_of(s: Seq<(String, MValue)>, k: Seq<char>) -> int {
    choose|i: int| 0 <= i < s.len() && s[i].0@ == k
}

/// No two entries share a name.
pub open spec fn vm_keys_unique(s: Seq<(String, MValue)>) -> bool {
    forall|i: int, j: int| 0 <= i < j < s.len() ==> s[i].0@ != s[j].0@
}

/// The mapping denoted by an entry list.
pub open spec fn vm_map(s: Seq<(String, MValue)>) -> Map<Seq<char>, ValueV> {
    Map::new(|k: Seq<char>| vm_contains(s, k), |k: Seq<char>| m2v(s[vm_index_of(s, k)].1))
}

/// With unique names, the mapping agrees with any index holding the name.
pub proof fn lemma_vm_at(s: Seq<(String, MValue)>, k: Seq<char>, i: int)
    requires
        vm_keys_unique(s),
        0 <= i < s.len(),
        s[i].0@ == k,
    ensures
        vm_contains(s, k),
        vm_index_of(s, k) == i,
        vm_map(s)[k] == m2v(s[i].1),
{
    assert(vm_contains(s, k));
    let j = vm_index_of(s, k);
    assert(0 <= j < s.len() && s[j].0@ == k);
    if i < j {
        assert(s[i].0@ != s[j].0@);
    } else if j < i {
        assert(s[j].0@ != s[i].0@);
    }
}

/// The position of the first `'}'` at or after `i`; `s.len()` when there is
/// none.
pub open spec fn find_close(s: Seq<char>, i: int) -> int
    decreases s.len() - i,
{
    if i < 0 || i >= s.len() {
        s.len() as int
    } else if s[i] == '}' {
        i
    } else {
        find_close(s, i + 1)
    }
}

/// A placeholder token `{name}` opens at position `i`: a brace with a
/// closing brace somewhere after it.
pub open spec fn opens_placeholder(s: Seq<char>, i: int) -> bool {
    0 <= i < s.len() && s[i] == '{' && i + 1 <= find_close(s, i + 1) && find_close(s, i + 1)
        < s.len()
}

/// The result of substituting every placeholder of `s` from position `i`
/// on, with each variable's rendered text; `None` exactly when a referenced
/// name is undefined in `m`. A `{` with no closing `}` stands for itself.
pub open spec fn spec_subst_from(s: Seq<char>, i: int, m: Map<Seq<char>, ValueV>) -> Option<
    Seq<char>,
>
    decreases s.len() - i,
{
    if i < 0 || i >= s.len() {
        Some(Seq::empty())
    } else if opens_placeholder(s, i) {
        let j = find_close(s, i + 1);
        let name = s.subrange(i + 1, j);
        if m.contains_key(name) {
            match spec_subst_from(s, j + 1, m) {
                Some(rest) => Some(vv_render(m[name]) + rest),
                None => None,
            }
        } else {
            None
        }
    } else {
        match spec_subst_from(s, i + 1, m) {
            Some(rest) => Some(seq![s[i]] + rest),
            None => None,
        }
    }
}

/// Substitution over the whole string.
pub open spec fn spec_subst(s: Seq<char>, m: Map<Seq<char>, ValueV>) -> Option<Seq<char>> {
    spec_subst_from(s, 0, m)
}

/// The string consists of exactly one placeholder: `{name}`.
pub open spec fn single_placeholder(s: Seq<char>) -> bool {
    s.len() >= 2 && s[0] == '{' && find_close(s, 1) == s.len() - 1
}

/// The variable name inside a single-placeholder string.
pub open spec fn placeholder_name(s: Seq<char>) -> Seq<char> {
    s.subrange(1, s.len() - 1)
}

/// No placeholder opens anywhere at or after position `i`.
pub open spec fn placeholder_free_from(s: Seq<char>, i: int) -> bool
    decreases s.len() - i,
{
    if i < 0 || i >= s.len() {
        true
    } else if opens_placeholder(s, i) {
        false
    } else {
        placeholder_free_from(s, i + 1)
    }
}

/// The string contains no placeholder token at all.
pub open spec fn placeholder_free(s: Seq<char>) -> bool {
    placeholder_free_from(s, 0)
}

/// Substitution leaves a placeholder-free suffix unchanged, whatever the
/// store holds.
proof fn lemma_subst_from_identity(s: Seq<char>, i: int, m: Map<Seq<char>, ValueV>)
    requires
        0 <= i <= s.len(),
        placeholder_free_from(s, i),
    ensures
        spec_subst_from(s, i, m) == Some(s.subrange(i, s.len() as int)),
    decreases s.len() - i,
{
    if i >= s.len() {
        assert(s.subrange(i, s.len() as int) =~= Seq::empty());
    } else {
        lemma_subst_from_identity(s, i + 1, m);
        assert(seq![s[i]] + s.subrange(i + 1, s.len() as int) =~= s.subrange(i, s.len() as int));
    }
}

/// Substitution idempotence on placeholder-free strings: a string that
/// contains no placeholder token is returned unchanged, whatever the store
/// holds.
pub proof fn lemma_subst_identity(s: Seq<char>, m: Map<Seq<char>, ValueV>)
    requires
        placeholder_free(s),
    ensures
        spec_subst(s, m) == Some(s),
{
    lemma_subst_from_identity(s, 0, m);
    assert(s.subrange(0, s.len() as int) =~= s);
}

/// The variable store: an ordered mapping from variable name to captured
/// value, scoped to one suite run. Later captures overwrite earlier ones of
/// the same name; values never leak across suites.
#[derive(Debug)]
pub struct VariableMap {
    entries: Vec<(String, MValue)>,
}

impl View for VariableMap {
    type V = Map<Seq<char>, ValueV>;

    closed spec fn view(&self) -> Map<Seq<char>, ValueV> {
        vm_map(self.entries@)
    }
}

impl VariableMap {
    /// Internal invariant: names are unique and every stored value is
    /// well-formed.
    pub closed spec fn wf(self) -> bool {
        vm_keys_unique(self.entries@) && forall|i: int|
            0 <= i < self.entries@.len() ==> vv_wf(m2v((#[trigger] self.entries@[i]).1))
    }

    /// An empty store.
    pub fn new() -> (r: Self)
        ensures
            r.wf(),
            r@ == Map::<Seq<char>, ValueV>::empty(),
    {
        let r = VariableMap { entries: Vec::new() };
        proof {
            assert(r@ =~= Map::<Seq<char>, ValueV>::empty());
        }
        r
    }

    /// Looks a variable up by name.
    #[verifier::loop_isolation(false)]
    pub fn get(&self, name: &str) -> (r: Option<&MValue>)
        requires
            self.wf(),
        ensures
            match r {
                Some(v) => self@.contains_key(name@) && v@ == self@[name@] && vv_wf(v@),
                None => !self@.contains_key(name@),
            },
    {
        let owned = name.to_owned();
        let mut i: usize = 0;
        while i < self.entries.len()
            invariant
                i <= self.entries@.len(),
                forall|j: int| 0 <= j < i ==> (#[trigger] self.entries@[j]).0@ != name@,
            decreases self.entries@.len() - i,
        {
            if self.entries[i].0 == owned {
                proof {
                    lemma_vm_at(self.entries@, name@, i as int);
                }
                return Some(&self.entries[i].1);
            }
            i = i + 1;
        }
        None
    }

    /// Stores a value under a name, overwriting any earlier value of the
    /// same name. Used after a response returns, to make captured data
    /// available to later steps.
    #[verifier::loop_isolation(false)]
    pub fn capture(&mut self, name: String, value: MValue)
        requires
            old(self).wf(),
            vv_wf(value@),
        ensures
            final(self).wf(),
            final(self)@ == old(self)@.insert(name@, value@),
    {
        let ghost olds = self.entries@;
        let mut i: usize = 0;
        while i < self.entries.len()
            invariant
                self.entries@ == olds,
                i <= olds.len(),
                forall|j: int| 0 <= j < i ==> (#[trigger] olds[j]).0@ != name@,
            decreases olds.len() - i,
        {
            if self.entries[i].0 == name {
                self.entries[i] = (name, value);
                proof {
                    let news = self.entries@;
                    assert(news == olds.update(i as int, news[i as int]));
                    assert(forall|j: int| 0 <= j < news.len() && j != i ==> news[j] == olds[j]);
                    assert(news[i as int].0@ == name@ && olds[i as int].0@ == name@);
                    assert(vm_keys_unique(news)) by {
                        assert(forall|j: int|
                            0 <= j < news.len() ==> (#[trigger] news[j]).0@ == olds[j].0@);
                    }
                    assert(self.wf());
                    assert forall|k: Seq<char>|
                        vm_contains(news, k) == vm_contains(olds, k) by {
                        if vm_contains(news, k) {
                            let w = choose|w: int| 0 <= w < news.len() && news[w].0@ == k;
                            assert(olds[w].0@ == k);
                        }
                        if vm_contains(olds, k) {
                            let w = choose|w: int| 0 <= w < olds.len() && olds[w].0@ == k;
                            assert(news[w].0@ == k);
                        }
                    }
                    assert forall|k: Seq<char>| #[trigger]
                        vm_contains(news, k) implies vm_map(news)[k] == old(self)@.insert(
                        name@,
                        value@,
                    )[k] by {
                        if k == name@ {
                            lemma_vm_at(news, k, i as int);
                        } else {
                            let w = choose|w: int| 0 <= w < news.len() && news[w].0@ == k;
                            assert(w != i);
                            lemma_vm_at(news, k, w);
                            lemma_vm_at(olds, k, w);
                        }
                    }
                    assert(vm_contains(news, name@));
                    assert(self@ =~= old(self)@.insert(name@, value@));
                }
                return ;
            }
            i = i + 1;
        }
        self.entries.push((name, value));
        proof {
            let news = self.entries@;
            assert(news == olds.push(news[olds.len() as int]));
            assert(news[olds.len() as int].0@ == name@);
            assert(!vm_contains(olds, name@));
            assert(vm_keys_unique(news));
            assert(self.wf());
            assert forall|k: Seq<char>| #[trigger]
                vm_contains(news, k) implies (k == name@ || vm_contains(olds, k)) by {
                let w = choose|w: int| 0 <= w < news.len() && news[w].0@ == k;
                if w < olds.len() {
                    assert(olds[w].0@ == k);
                }
            }
            assert forall|k: Seq<char>| #[trigger]
                vm_contains(news, k) implies vm_map(news)[k] == old(self)@.insert(
                name@,
                value@,
            )[k] by {
                if k == name@ {
                    lemma_vm_at(news, k, olds.len() as int);
                } else {
                    let w = choose|w: int| 0 <= w < news.len() && news[w].0@ == k;
                    assert(w < olds.len());
                    lemma_vm_at(news, k, w);
                    lemma_vm_at(olds, k, w);
                }
            }
            assert(vm_contains(news, name@));
            assert forall|k: Seq<char>|
                vm_contains(olds, k) implies #[trigger] vm_contains(news, k) by {
                let w = choose|w: int| 0 <= w < olds.len() && olds[w].0@ == k;
                assert(news[w].0@ == k);
            }
            assert(self@ =~= old(self)@.insert(name@, value@));
        }
    }

    /// Substitutes the suffix of `s` that starts at character `i`.
    fn subst_from(&self, s: &str, i: usize) -> (r: Result<String, CaptiError>)
        requires
            self.wf(),
            i <= s@.len(),
        ensures
            match r {
                Ok(out) => spec_subst_from(s@, i as int, self@) == Some(out@),
                Err(e) => spec_subst_from(s@, i as int, self@) is None && e is VariableError,
            },
        decreases s@.len() - i,
    {
        let n = s.unicode_len();
        if i >= n {
            return Ok(String::new());
        }
        let c = s.get_char(i);
        if c == '{' {
            let j = find_close_exec(s, i + 1);
            if j < n {
                let name = s.substring_char(i + 1, j);
                proof {
                    assert(opens_placeholder(s@, i as int));
                    assert(name@ == s@.subrange(i as int + 1, j as int));
                }
                match self.get(name) {
                    Some(v) => {
                        let rendered = v.render();
                        match self.subst_from(s, j + 1) {
                            Ok(rest) => {
                                let out = rendered.concat(rest.as_str());
                                return Ok(out);
                            },
                            Err(e) => {
                                return Err(e);
                            },
                        }
                    },
                    None => {
                        let msg = "undefined variable: ".to_owned().concat(name);
                        return Err(CaptiError::VariableError(msg));
                    },
                }
            }
            proof {
                assert(!opens_placeholder(s@, i as int));
            }
        }
        proof {
            assert(!opens_placeholder(s@, i as int));
        }
        let piece = s.substring_char(i, i + 1);
        match self.subst_from(s, i + 1) {
            Ok(rest) => {
                let out = piece.to_owned().concat(rest.as_str());
                proof {
                    assert(piece@ =~= seq![s@[i as int]]);
                }
                Ok(out)
            },
            Err(e) => Err(e),
        }
    }

    /// Replaces every placeholder of `text` with the rendered value of the
    /// named variable, returning the interpolated string. Fails with
    /// `VariableError` exactly when a referenced name is undefined — never
    /// by leaving the token in place or substituting an empty string.
    pub fn replace_in_string(&self, text: &str) -> (r: Result<String, CaptiError>)
        requires
            self.wf(),
        ensures
            match r {
                Ok(out) => spec_subst(text@, self@) == Some(out@),
                Err(e) => spec_subst(text@, self@) is None && e is VariableError,
            },
    {
        self.subst_from(text, 0)
    }

    /// Replaces placeholders in `text` and returns the result as a value.
    /// A text that is exactly one placeholder resolves to the stored value
    /// itself, structurally (so a captured number or object keeps its
    /// shape); any other text interpolates rendered values into a string.
    /// Fails with `VariableError` exactly when a referenced name is
    /// undefined.
    pub fn replace_variables(&self, text: &str) -> (r: Result<MValue, CaptiError>)
        requires
            self.wf(),
        ensures
            single_placeholder(text@) ==> (match r {
                Ok(v) => self@.contains_key(placeholder_name(text@)) && v@ == self@[
                    placeholder_name(text@)
                ],
                Err(e) => !self@.contains_key(placeholder_name(text@)) && e is VariableError,
            }),
            !single_placeholder(text@) ==> (match r {
                Ok(v) => spec_subst(text@, self@) matches Some(out) && v@ == ValueV::Str(out),
                Err(e) => spec_subst(text@, self@) is None && e is VariableError,
            }),
            r matches Ok(v) ==> vv_wf(v@),
    {
        let n = s_len(text);
        if n >= 2 && text.get_char(0) == '{' {
            let j = find_close_exec(text, 1);
            if j == n - 1 {
                let name = text.substring_char(1, n - 1);
                proof {
                    assert(single_placeholder(text@));
                    assert(name@ == placeholder_name(text@));
                }
                match self.get(name) {
                    Some(v) => {
                        return Ok(v.deep_clone());
                    },
                    None => {
                        let msg = "undefined variable: ".to_owned().concat(name);
                        return Err(CaptiError::VariableError(msg));
                    },
                }
            }
            proof {
                assert(!single_placeholder(text@));
            }
        }
        proof {
            assert(!single_placeholder(text@));
        }
        match self.replace_in_string(text) {
            Ok(out) => Ok(MValue::Str(out)),
            Err(e) => Err(e),
        }
    }
}

/// The character length of a string.
fn s_len(s: &str) -> (n: usize)
    ensures
        n == s@.len(),
{
    s.unicode_len()
}

/// Finds the first `'}'` at or after character `i`; returns the character
/// length of `s` when there is none.
#[verifier::loop_isolation(false)]
fn find_close_exec(s: &str, i: usize) -> (r: usize)
    requires
        i <= s@.len(),
    ensures
        r == find_close(s@, i as int),
        i <= r <= s@.len(),
        r < s@.len() ==> s@[r as int] == '}',
{
    let n = s.unicode_len();
    let mut j = i;
    while j < n
        invariant
            i <= j <= n,
            find_close(s@, i as int) == find_close(s@, j as int),
        decreases n - j,
    {
        if s.get_char(j) == '}' {
            return j;
        }
        j = j + 1;
    }
    j
}

} // verus!
