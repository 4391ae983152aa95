use crate::m_value::{MValue, ValueV};
use vstd::prelude::*;

verus! {

/// A built-in matcher: one comparator that a directive key inside an
/// expectation dispatches to, instead of structural equality.
///
/// The set is closed; adding a matcher means adding a variant here and a row
/// to `MatcherMap::initialize`.
#[derive(Debug, Clone, Copy, PartialEq, Eq)]
pub enum Matcher {
    /// Asserts that the actual side is present at all, regardless of the
    /// expected payload's content. Reached via the key `$exists`.
    Exists,
}

/// The directive key each matcher is registered under.
pub open spec fn spec_key(m: Matcher) -> Seq<char> {
    match m {
        Matcher::Exists => "$exists"@,
    }
}

/// Whether a directive key is one of the built-in matcher keys.
pub open spec fn is_matcher_key(k: Seq<char>) -> bool {
    k == "$exists"@
}

/// Whether matcher `m` accepts `actual` against the directive payload
/// `expected`. `Exists` asserts presence only: once the engine has found an
/// actual value to hand to it, the match holds whatever both sides contain;
/// absence of a field is reported by the engine itself, before any matcher
/// is consulted.
pub open spec fn matcher_accepts(m: Matcher, actual: ValueV, expected: ValueV) -> bool {
    match m {
        Matcher::Exists => true,
    }
}

impl Matcher {
    /// The directive key this matcher answers to.
    pub fn key(&self) -> (k: String)
        ensures
            k@ == spec_key(*self),
    {
        match self {
            Matcher::Exists => "$exists".to_owned(),
        }
    }

    /// Runs the matcher on an actual value and a directive payload.
    pub fn is_match(&self, actual: &MValue, expected: &MValue) -> (r: bool)
        ensures
            r == matcher_accepts(*self, actual@, expected@),
    {
        match self {
            Matcher::Exists => true,
        }
    }
}

/// The matcher registry: a build-once, read-only table from directive key to
/// matcher implementation. It is constructed once at process start (see
/// `initialize`) and then only read, so sharing it across concurrently
/// running suites is safe.
pub struct MatcherMap {
    entries: Vec<(String, Matcher)>,
}

impl MatcherMap {
    /// The registry's contents, as an association sequence.
    pub closed spec fn entries_view(self) -> Seq<(Seq<char>, Matcher)> {
        Seq::new(self.entries@.len(), |i: int| (self.entries@[i].0@, self.entries@[i].1))
    }

    /// The registry holds exactly the built-in matchers.
    pub open spec fn is_standard(self) -> bool {
        self.entries_view() == seq![("$exists"@, Matcher::Exists)]
    }

    /// Builds the registry populated with every built-in matcher.
    pub fn initialize() -> (r: Self)
        ensures
            r.is_standard(),
    {
        let mut map = MatcherMap { entries: Vec::new() };
        map.insert_mp(Matcher::Exists);
        proof {
            assert(map.entries_view() =~= seq![("$exists"@, Matcher::Exists)]);
        }
        map
    }

    /// Registers a matcher under its own key.
    pub fn insert_mp(&mut self, m: Matcher)
        ensures
            final(self).entries_view() == old(self).entries_view().push((spec_key(m), m)),
    {
        let k = m.key();
        self.entries.push((k, m));
        proof {
            assert(final(self).entries_view() =~= old(self).entries_view().push(
                (spec_key(m), m),
            ));
        }
    }

    /// Looks a directive key up. `None` means the key is not a directive and
    /// the caller should fall back to structural comparison.
    #[verifier::loop_isolation(false)]
    pub fn get_matcher(&self, key: &str) -> (r: Option<&Matcher>)
        ensures
            match r {
                Some(m) => exists|i: int|
                    0 <= i < self.entries_view().len() && #[trigger] self.entries_view()[i] == (
                        key@,
                        *m,
                    ),
                None => forall|i: int|
                    0 <= i < self.entries_view().len()
                        ==> (#[trigger] self.entries_view()[i]).0 != key@,
            },
            self.is_standard() ==> (r is Some <==> is_matcher_key(key@)),
            self.is_standard() ==> (r matches Some(m) ==> *m == Matcher::Exists),
    {
        let owned = key.to_owned();
        let mut i: usize = 0;
        while i < self.entries.len()
            invariant
                i <= self.entries@.len(),
                forall|j: int| 0 <= j < i ==> (#[trigger] self.entries_view()[j]).0 != key@,
            decreases self.entries@.len() - i,
        {
            if self.entries[i].0 == owned {
                proof {
                    assert(self.entries_view()[i as int] == (key@, self.entries@[i as int].1));
                    if self.is_standard() {
                        assert(self.entries_view()[0] == seq![("$exists"@, Matcher::Exists)][0]);
                        assert(self.entries_view().len() == 1);
                        assert(i == 0);
                        assert(key@ == "$exists"@);
                        assert(is_matcher_key(key@));
                    }
                }
                return Some(&self.entries[i].1);
            }
            i = i + 1;
        }
        proof {
            if self.is_standard() {
                assert(self.entries_view().len() == 1);
                assert(i == 1);
                assert(self.entries_view()[0] == seq![("$exists"@, Matcher::Exists)][0]);
                assert(self.entries_view()[0].0 == "$exists"@);
                assert(self.entries_view()[0].0 != key@);
                assert(!is_matcher_key(key@));
            }
        }
        None
    }
}

} // verus!
