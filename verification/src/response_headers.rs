use crate::compare::{FailReason, Failure, MatchResult, PathStep};
use crate::errors::CaptiError;
use crate::m_value::MValue;
use crate::query_params::{kv_contains, kv_get, kv_index_of, kv_keys_unique, lemma_kv_at, pairs_view};
use crate::variables::{spec_subst, VariableMap};
use vstd::prelude::*;

verus! {

/// Whether every header of `e` appears in `a` with an identical value.
/// Extra headers in `a` are tolerated: an expectation asserts "at least
/// these headers match", never exact-shape equality.
pub open spec fn hdrs_match(e: Seq<(Seq<char>, Seq<char>)>, a: Seq<(Seq<char>, Seq<char>)>) -> bool {
    forall|i: int|
        0 <= i < e.len() ==> kv_contains(a, (#[trigger] e[i]).0) && kv_get(a, e[i].0) == e[i].1
}

/// A header map: an ordered mapping from header name to value, names
/// unique. Used both for the header template of a request and for the
/// headers of a response.
#[derive(Debug, PartialEq, Eq)]
pub struct ResponseHeaders {
    headers: Vec<(String, String)>,
}

impl View for ResponseHeaders {
    type V = Seq<(Seq<char>, Seq<char>)>;

    closed spec fn view(&self) -> Seq<(Seq<char>, Seq<char>)> {
        pairs_view(self.headers@)
    }
}

impl Clone for ResponseHeaders {
    /// Cloning preserves the header sequence.
    fn clone(&self) -> (r: Self)
        ensures
            r@ == self@,
            r.wf() == self.wf(),
    {
        let mut out: Vec<(String, String)> = Vec::new();
        let mut i: usize = 0;
        while i < self.headers.len()
            invariant
                i <= self.headers@.len(),
                out@.len() == i,
                forall|j: int|
                    0 <= j < i ==> (#[trigger] out@[j]).0@ == self.headers@[j].0@ && out@[j].1@
                        == self.headers@[j].1@,
            decreases self.headers@.len() - i,
        {
            let k = self.headers[i].0.clone();
            let v = self.headers[i].1.clone();
            out.push((k, v));
            i = i + 1;
        }
        let r = ResponseHeaders { headers: out };
        proof {
            assert(r@ =~= self@);
        }
        r
    }
}

impl Default for ResponseHeaders {
    /// An empty header map.
    fn default() -> (r: Self)
        ensures
            r.wf(),
            r@ == Seq::<(Seq<char>, Seq<char>)>::empty(),
    {
        let r = ResponseHeaders { headers: Vec::new() };
        proof {
            assert(r@ =~= Seq::<(Seq<char>, Seq<char>)>::empty());
        }
        r
    }
}

impl ResponseHeaders {
    /// Internal invariant: header names are unique.
    pub closed spec fn wf(self) -> bool {
        kv_keys_unique(pairs_view(self.headers@))
    }

    /// The number of headers.
    pub fn len(&self) -> (n: usize)
        ensures
            n == self@.len(),
    {
        self.headers.len()
    }

    /// Sets a header, overwriting an earlier value of the same name.
    #[verifier::loop_isolation(false)]
    pub fn insert(&mut self, key: String, value: String)
        requires
            old(self).wf(),
        ensures
            final(self).wf(),
            !kv_contains(old(self)@, key@) ==> final(self)@ == old(self)@.push((key@, value@)),
            kv_contains(old(self)@, key@) ==> final(self)@ == old(self)@.update(
                kv_index_of(old(self)@, key@),
                (key@, value@),
            ),
    {
        let ghost olds = self.headers@;
        let mut i: usize = 0;
        while i < self.headers.len()
            invariant
                self.headers@ == olds,
                i <= olds.len(),
                forall|j: int| 0 <= j < i ==> (#[trigger] pairs_view(olds)[j]).0 != key@,
            decreases olds.len() - i,
        {
            if self.headers[i].0 == key {
                proof {
                    lemma_kv_at(pairs_view(olds), key@, i as int);
                }
                self.headers[i] = (key, value);
                proof {
                    assert(final(self)@ =~= old(self)@.update(i as int, (key@, value@)));
                    assert(forall|j: int|
                        0 <= j < final(self)@.len() ==> (#[trigger] final(self)@[j]).0 == old(
                            self,
                        )@[j].0);
                }
                return ;
            }
            i = i + 1;
        }
        self.headers.push((key, value));
        proof {
            assert(final(self)@ =~= old(self)@.push((key@, value@)));
            assert(!kv_contains(old(self)@, key@));
        }
    }

    /// Looks a header up by name.
    #[verifier::loop_isolation(false)]
    pub fn get(&self, key: &str) -> (r: Option<&String>)
        requires
            self.wf(),
        ensures
            match r {
                Some(v) => kv_contains(self@, key@) && v@ == kv_get(self@, key@),
                None => !kv_contains(self@, key@),
            },
    {
        let owned = key.to_owned();
        let mut i: usize = 0;
        while i < self.headers.len()
            invariant
                i <= self.headers@.len(),
                forall|j: int| 0 <= j < i ==> (#[trigger] pairs_view(self.headers@)[j]).0 != key@,
            decreases self.headers@.len() - i,
        {
            if self.headers[i].0 == owned {
                proof {
                    lemma_kv_at(pairs_view(self.headers@), key@, i as int);
                }
                return Some(&self.headers[i].1);
            }
            i = i + 1;
        }
        None
    }

    /// The headers as a list of name/value pairs, for handing to a
    /// transport collaborator.
    #[verifier::loop_isolation(false)]
    pub fn to_pairs(&self) -> (r: Vec<(String, String)>)
        ensures
            pairs_view(r@) == self@,
    {
        let mut out: Vec<(String, String)> = Vec::new();
        let mut i: usize = 0;
        while i < self.headers.len()
            invariant
                i <= self.headers@.len(),
                out@.len() == i,
                forall|j: int|
                    0 <= j < i ==> (#[trigger] out@[j]).0@ == self.headers@[j].0@ && out@[j].1@
                        == self.headers@[j].1@,
            decreases self.headers@.len() - i,
        {
            let k = self.headers[i].0.clone();
            let v = self.headers[i].1.clone();
            out.push((k, v));
            i = i + 1;
        }
        proof {
            assert(pairs_view(out@) =~= self@);
        }
        out
    }

    /// Replaces variable placeholders in every header value. Header values
    /// always interpolate to strings. On failure the map is left unchanged.
    #[verifier::loop_isolation(false)]
    pub fn populate_variables(&mut self, variables: &VariableMap) -> (r: Result<(), CaptiError>)
        requires
            old(self).wf(),
            variables.wf(),
        ensures
            final(self).wf(),
            r is Ok <==> (forall|i: int|
                0 <= i < old(self)@.len() ==> spec_subst(
                    (#[trigger] old(self)@[i]).1,
                    variables@,
                ) is Some),
            r is Ok ==> {
                &&& final(self)@.len() == old(self)@.len()
                &&& forall|i: int|
                    0 <= i < old(self)@.len() ==> (#[trigger] final(self)@[i]).0 == old(
                        self,
                    )@[i].0 && spec_subst(old(self)@[i].1, variables@) == Some(final(self)@[i].1)
            },
            r matches Err(e) ==> *final(self) == *old(self) && e is VariableError,
    {
        let mut out: Vec<(String, String)> = Vec::new();
        let mut i: usize = 0;
        while i < self.headers.len()
            invariant
                i <= self.headers@.len(),
                out@.len() == i,
                forall|j: int|
                    0 <= j < i ==> (#[trigger] pairs_view(out@)[j]).0 == pairs_view(
                        self.headers@,
                    )[j].0 && spec_subst(pairs_view(self.headers@)[j].1, variables@) == Some(
                        pairs_view(out@)[j].1,
                    ),
            decreases self.headers@.len() - i,
        {
            let key = self.headers[i].0.clone();
            proof {
                assert((#[trigger] pairs_view(self.headers@)[i as int]).1 == self.headers@[
                    i as int
                ].1@);
            }
            let ghost prev = out@;
            match variables.replace_in_string(self.headers[i].1.as_str()) {
                Ok(sv) => {
                    out.push((key, sv));
                    proof {
                        assert(out@ == prev.push((key, sv)));
                        assert(forall|j: int| 0 <= j < prev.len() ==> out@[j] == prev[j]);
                        assert(forall|j: int|
                            0 <= j < prev.len() ==> #[trigger] pairs_view(out@)[j] == pairs_view(
                                prev,
                            )[j]);
                        assert(pairs_view(out@)[i as int] == (key@, sv@));
                    }
                },
                Err(e) => {
                    proof {
                        assert(spec_subst(old(self)@[i as int].1, variables@) is None);
                    }
                    return Err(e);
                },
            }
            i = i + 1;
        }
        proof {
            assert(forall|j: int|
                0 <= j < self.headers@.len() ==> (#[trigger] pairs_view(out@)[j]).0 == pairs_view(
                    self.headers@,
                )[j].0);
            assert(kv_keys_unique(pairs_view(out@)));
            assert forall|k: int| 0 <= k < old(self)@.len() implies spec_subst(
                (#[trigger] old(self)@[k]).1,
                variables@,
            ) is Some by {
                assert(pairs_view(self.headers@)[k] == old(self)@[k]);
                assert(spec_subst(pairs_view(self.headers@)[k].1, variables@) == Some(
                    pairs_view(out@)[k].1,
                ));
            }
        }
        self.headers = out;
        Ok(())
    }

    /// Compares this header map, as the expectation, against an actual
    /// header map: every expected header must be present with an equal
    /// value; extra actual headers are ignored. Every mismatch is
    /// collected, not just the first.
    #[verifier::loop_isolation(false)]
    pub fn match_cmp(&self, other: &Self) -> (r: MatchResult)
        requires
            other.wf(),
        ensures
            (r is Pass) <==> hdrs_match(self@, other@),
            r matches MatchResult::Fail(fs) ==> fs@.len() > 0,
    {
        let mut out: Vec<Failure> = Vec::new();
        let mut i: usize = 0;
        while i < self.headers.len()
            invariant
                i <= self.headers@.len(),
                (out@.len() == 0) <==> (forall|j: int|
                    0 <= j < i ==> kv_contains(other@, (#[trigger] self@[j]).0) && kv_get(
                        other@,
                        self@[j].0,
                    ) == self@[j].1),
            decreases self.headers@.len() - i,
        {
            let key = &self.headers[i].0;
            proof {
                assert((#[trigger] pairs_view(self.headers@)[i as int]) == (self.headers@[
                    i as int
                ].0@, self.headers@[i as int].1@));
            }
            match other.get(key.as_str()) {
                Some(v) => {
                    if !(*v == self.headers[i].1) {
                        proof {
                            assert(kv_get(other@, self@[i as int].0) != self@[i as int].1);
                        }
                        let mut p: Vec<PathStep> = Vec::new();
                        p.push(PathStep::Key(key.clone()));
                        out.push(
                            Failure {
                                path: p,
                                reason: FailReason::Mismatch(
                                    MValue::Str(self.headers[i].1.clone()),
                                    MValue::Str(v.clone()),
                                ),
                            },
                        );
                    } else {
                        proof {
                            assert(kv_get(other@, self@[i as int].0) == self@[i as int].1);
                        }
                    }
                },
                None => {
                    proof {
                        assert(!kv_contains(other@, self@[i as int].0));
                    }
                    let mut p: Vec<PathStep> = Vec::new();
                    p.push(PathStep::Key(key.clone()));
                    out.push(Failure { path: p, reason: FailReason::MissingKey(key.clone()) });
                },
            }
            i = i + 1;
        }
        if out.len() == 0 {
            MatchResult::Pass
        } else {
            MatchResult::Fail(out)
        }
    }
}

} // verus!
