use crate::errors::CaptiError;
use crate::m_value::{MValue, ValueV};
use crate::variables::{
    placeholder_name, single_placeholder, spec_subst, VariableMap,
};
use vstd::prelude::*;

verus! {

/// Whether the association sequence `s` has an entry keyed `k`.
pub open spec fn kv_contains(s: Seq<(Seq<char>, Seq<char>)>, k: Seq<char>) -> bool {
    exists|i: int| 0 <= i < s.len() && s[i].0 == k
}

/// An index of the entry keyed `k` (unique when keys are unique).
pub open spec fn kv_index_of(s: Seq<(Seq<char>, Seq<char>)>, k: Seq<char>) -> int {
    choose|i: int| 0 <= i < s.len() && s[i].0 == k
}

/// The value stored under `k`.
pub open spec fn kv_get(s: Seq<(Seq<char>, Seq<char>)>, k: Seq<char>) -> Seq<char> {
    s[kv_index_of(s, k)].1
}

/// No two entries share a key.
pub open spec fn kv_keys_unique(s: Seq<(Seq<char>, Seq<char>)>) -> bool {
    forall|i: int, j: int| 0 <= i < j < s.len() ==> s[i].0 != s[j].0
}

/// With unique keys, `kv_get` agrees with any index that holds the key.
pub proof fn lemma_kv_at(s: Seq<(Seq<char>, Seq<char>)>, k: Seq<char>, i: int)
    requires
        kv_keys_unique(s),
        0 <= i < s.len(),
        s[i].0 == k,
    ensures
        kv_contains(s, k),
        kv_index_of(s, k) == i,
        kv_get(s, k) == s[i].1,
{
    assert(kv_contains(s, k));
    let j = kv_index_of(s, k);
    assert(0 <= j < s.len() && s[j].0 == k);
    if i < j {
        assert(s[i].0 != s[j].0);
    } else if j < i {
        assert(s[j].0 != s[i].0);
    }
}

/// The association sequence denoted by a list of string pairs.
pub open spec fn pairs_view(s: Seq<(String, String)>) -> Seq<(Seq<char>, Seq<char>)> {
    Seq::new(s.len(), |i: int| (s[i].0@, s[i].1@))
}

/// What `urlencoding::encode` returns for a string: a pure function of the
/// input characters alone.
pub uninterp spec fn encoded_of(s: Seq<char>) -> Seq<char>;

/// Relies on `urlencoding::encode`: percent-encodes every byte of the
/// UTF-8 form of `s` except ASCII alphanumerics and `-`, `_`, `.`, `~`,
/// deterministically from the input alone.
#[verifier::external_body]
fn encode_component(s: &str) -> (r: String)
    ensures
        r@ == encoded_of(s@),
{
    urlencoding::encode(s).into_owned()
}

/// The rendering of the entries from index `i` on as `k=v` pairs joined by
/// `&`, both sides percent-encoded.
pub open spec fn qs_parts(s: Seq<(Seq<char>, Seq<char>)>, i: int) -> Seq<char>
    decreases s.len() - i,
{
    if i < 0 || i >= s.len() {
        Seq::empty()
    } else if i == s.len() - 1 {
        encoded_of(s[i].0) + "="@ + encoded_of(s[i].1)
    } else {
        encoded_of(s[i].0) + "="@ + encoded_of(s[i].1) + "&"@ + qs_parts(s, i + 1)
    }
}

/// The full query string: empty for no entries, else `?` followed by the
/// joined pairs.
pub open spec fn spec_query_string(s: Seq<(Seq<char>, Seq<char>)>) -> Seq<char> {
    if s.len() == 0 {
        Seq::empty()
    } else {
        "?"@ + qs_parts(s, 0)
    }
}

/// What one query-parameter value resolves to under the store `m`: a
/// single-placeholder value must name a stored string (a non-string value
/// cannot stand in a query parameter); any other value interpolates.
/// `None` is the explicit fail state.
pub open spec fn qp_resolved(v: Seq<char>, m: Map<Seq<char>, ValueV>) -> Option<Seq<char>> {
    if single_placeholder(v) {
        if m.contains_key(placeholder_name(v)) && m[placeholder_name(v)] is Str {
            Some(m[placeholder_name(v)]->Str_0)
        } else {
            None
        }
    } else {
        spec_subst(v, m)
    }
}

/// The query parameters of one request template: an ordered map from
/// parameter name to (possibly placeholder-bearing) value, keys unique.
#[derive(Debug, PartialEq, Eq)]
pub struct QueryParams {
    params: Vec<(String, String)>,
}

impl View for QueryParams {
    type V = Seq<(Seq<char>, Seq<char>)>;

    closed spec fn view(&self) -> Seq<(Seq<char>, Seq<char>)> {
        pairs_view(self.params@)
    }
}

impl Default for QueryParams {
    /// An empty parameter map.
    fn default() -> (r: Self)
        ensures
            r.wf(),
            r@ == Seq::<(Seq<char>, Seq<char>)>::empty(),
    {
        let r = QueryParams { params: Vec::new() };
        proof {
            assert(r@ =~= Seq::<(Seq<char>, Seq<char>)>::empty());
        }
        r
    }
}

impl QueryParams {
    /// Internal invariant: parameter names are unique.
    pub closed spec fn wf(self) -> bool {
        kv_keys_unique(pairs_view(self.params@))
    }

    /// The number of parameters.
    pub fn len(&self) -> (n: usize)
        ensures
            n == self@.len(),
    {
        self.params.len()
    }

    /// Whether the map holds no parameters.
    pub fn is_empty(&self) -> (r: bool)
        ensures
            r == (self@.len() == 0),
    {
        self.params.len() == 0
    }

    /// Sets a parameter, overwriting an earlier value of the same name.
    #[verifier::loop_isolation(false)]
    pub fn insert(&mut self, key: String, value: String)
        requires
            old(self).wf(),
        ensures
            final(self).wf(),
            !kv_contains(old(self)@, key@) ==> final(self)@ == old(self)@.push((key@, value@)),
            kv_contains(old(self)@, key@) ==> final(self)@ == old(self)@.update(
                kv_index_of(old(self)@, key@),
                (key@, value@),
            ),
    {
        let ghost olds = self.params@;
        let mut i: usize = 0;
        while i < self.params.len()
            invariant
                self.params@ == olds,
                i <= olds.len(),
                forall|j: int| 0 <= j < i ==> (#[trigger] pairs_view(olds)[j]).0 != key@,
            decreases olds.len() - i,
        {
            if self.params[i].0 == key {
                proof {
                    lemma_kv_at(pairs_view(olds), key@, i as int);
                }
                self.params[i] = (key, value);
                proof {
                    assert(final(self)@ =~= old(self)@.update(i as int, (key@, value@)));
                    assert(forall|j: int|
                        0 <= j < final(self)@.len() ==> (#[trigger] final(self)@[j]).0 == old(
                            self,
                        )@[j].0);
                }
                return ;
            }
            i = i + 1;
        }
        self.params.push((key, value));
        proof {
            assert(final(self)@ =~= old(self)@.push((key@, value@)));
            assert(!kv_contains(old(self)@, key@));
        }
    }

    /// Renders the map as a URL query string: empty when the map is empty,
    /// else `?k=v&k2=v2…` with every name and value percent-encoded.
    pub fn as_query_string(&self) -> (r: String)
        ensures
            r@ == spec_query_string(self@),
    {
        if self.params.len() == 0 {
            return String::new();
        }
        let rest = qs_from(&self.params, 0);
        let r = "?".to_owned().concat(rest.as_str());
        proof {
            assert(r@ =~= spec_query_string(self@));
        }
        r
    }

    /// A human-readable listing of the parameters, for reports: empty for
    /// an empty map, else a `Params:` heading followed by one indented
    /// `name: value` line per parameter.
    pub fn describe(&self) -> (r: String)
        ensures
            self@.len() == 0 ==> r@ == Seq::<char>::empty(),
            self@.len() > 0 ==> r@ == "Params:\n"@ + spec_describe(self@, 0),
    {
        if self.params.len() == 0 {
            return String::new();
        }
        let body = describe_from(&self.params, 0);
        "Params:\n".to_owned().concat(body.as_str())
    }

    /// Replaces variable placeholders in every parameter value. Each value
    /// must resolve to a string: a value that is a single placeholder
    /// naming a non-string variable is an explicit failure, never a silent
    /// coercion. On failure the map is left unchanged.
    #[verifier::loop_isolation(false)]
    pub fn populate_variables(&mut self, variables: &VariableMap) -> (r: Result<(), CaptiError>)
        requires
            old(self).wf(),
            variables.wf(),
        ensures
            final(self).wf(),
            r is Ok <==> (forall|i: int|
                0 <= i < old(self)@.len() ==> qp_resolved(
                    (#[trigger] old(self)@[i]).1,
                    variables@,
                ) is Some),
            r is Ok ==> {
                &&& final(self)@.len() == old(self)@.len()
                &&& forall|i: int|
                    0 <= i < old(self)@.len() ==> (#[trigger] final(self)@[i]).0 == old(
                        self,
                    )@[i].0 && qp_resolved(old(self)@[i].1, variables@) == Some(final(self)@[i].1)
            },
            r matches Err(e) ==> *final(self) == *old(self) && e is VariableError,
    {
        let mut out: Vec<(String, String)> = Vec::new();
        let mut i: usize = 0;
        while i < self.params.len()
            invariant
                i <= self.params@.len(),
                out@.len() == i,
                forall|j: int|
                    0 <= j < i ==> (#[trigger] pairs_view(out@)[j]).0 == pairs_view(
                        self.params@,
                    )[j].0 && qp_resolved(pairs_view(self.params@)[j].1, variables@) == Some(
                        pairs_view(out@)[j].1,
                    ),
            decreases self.params@.len() - i,
        {
            let key = self.params[i].0.clone();
            proof {
                assert((#[trigger] pairs_view(self.params@)[i as int]).1 == self.params@[
                    i as int
                ].1@);
            }
            let ghost prev = out@;
            match variables.replace_variables(self.params[i].1.as_str()) {
                Ok(MValue::Str(sv)) => {
                    out.push((key, sv));
                    proof {
                        assert(out@ == prev.push((key, sv)));
                        assert(forall|j: int| 0 <= j < prev.len() ==> out@[j] == prev[j]);
                        assert(forall|j: int|
                            0 <= j < prev.len() ==> #[trigger] pairs_view(out@)[j] == pairs_view(
                                prev,
                            )[j]);
                        assert(pairs_view(out@)[i as int] == (key@, sv@));
                    }
                },
                Ok(_) => {
                    let msg = "unable to interpret query param ".to_owned().concat(
                        key.as_str(),
                    ).concat(" as string");
                    return Err(CaptiError::VariableError(msg));
                },
                Err(e) => {
                    proof {
                        assert(qp_resolved(old(self)@[i as int].1, variables@) is None);
                    }
                    return Err(e);
                },
            }
            i = i + 1;
        }
        proof {
            assert(forall|j: int|
                0 <= j < self.params@.len() ==> (#[trigger] pairs_view(out@)[j]).0 == pairs_view(
                    self.params@,
                )[j].0);
            assert(kv_keys_unique(pairs_view(out@)));
            assert forall|k: int| 0 <= k < old(self)@.len() implies qp_resolved(
                (#[trigger] old(self)@[k]).1,
                variables@,
            ) is Some by {
                assert(pairs_view(self.params@)[k] == old(self)@[k]);
                assert(qp_resolved(pairs_view(self.params@)[k].1, variables@) == Some(
                    pairs_view(out@)[k].1,
                ));
            }
        }
        self.params = out;
        Ok(())
    }
}

impl Clone for QueryParams {
    /// Cloning preserves the parameter sequence.
    fn clone(&self) -> (r: Self)
        ensures
            r@ == self@,
            r.wf() == self.wf(),
    {
        let mut out: Vec<(String, String)> = Vec::new();
        let mut i: usize = 0;
        while i < self.params.len()
            invariant
                i <= self.params@.len(),
                out@.len() == i,
                forall|j: int|
                    0 <= j < i ==> (#[trigger] out@[j]).0@ == self.params@[j].0@ && out@[j].1@
                        == self.params@[j].1@,
            decreases self.params@.len() - i,
        {
            let k = self.params[i].0.clone();
            let v = self.params[i].1.clone();
            out.push((k, v));
            i = i + 1;
        }
        let r = QueryParams { params: out };
        proof {
            assert(r@ =~= self@);
        }
        r
    }
}

/// The human-readable rendering of the parameter map for reports: one
/// `name: value` line per parameter under a `Params:` heading, nothing for
/// an empty map.
pub open spec fn spec_describe(s: Seq<(Seq<char>, Seq<char>)>, i: int) -> Seq<char>
    decreases s.len() - i,
{
    if i < 0 || i >= s.len() {
        Seq::empty()
    } else {
        "  "@ + s[i].0 + ": "@ + s[i].1 + "\n"@ + spec_describe(s, i + 1)
    }
}

/// Renders the entries of `params` from index `i` on, `&`-joined.
#[verifier::loop_isolation(false)]
fn qs_from(params: &Vec<(String, String)>, i: usize) -> (r: String)
    requires
        i <= params@.len(),
    ensures
        r@ == qs_parts(pairs_view(params@), i as int),
    decreases params@.len() - i,
{
    if i >= params.len() {
        String::new()
    } else {
        let head = encode_component(params[i].0.as_str()).concat("=").concat(
            encode_component(params[i].1.as_str()).as_str(),
        );
        if i + 1 < params.len() {
            let rest = qs_from(params, i + 1);
            let r = head.concat("&").concat(rest.as_str());
            proof {
                assert(r@ =~= qs_parts(pairs_view(params@), i as int));
            }
            r
        } else {
            proof {
                assert(head@ =~= qs_parts(pairs_view(params@), i as int));
            }
            head
        }
    }
}

/// Renders the lines of `describe` from index `i` on.
#[verifier::loop_isolation(false)]
fn describe_from(params: &Vec<(String, String)>, i: usize) -> (r: String)
    requires
        i <= params@.len(),
    ensures
        r@ == spec_describe(pairs_view(params@), i as int),
    decreases params@.len() - i,
{
    if i >= params.len() {
        String::new()
    } else {
        let line = "  ".to_owned().concat(params[i].0.as_str()).concat(": ").concat(
            params[i].1.as_str(),
        ).concat("\n");
        let rest = describe_from(params, i + 1);
        let r = line.concat(rest.as_str());
        proof {
            assert(r@ =~= spec_describe(pairs_view(params@), i as int));
        }
        r
    }
}

} // verus!
