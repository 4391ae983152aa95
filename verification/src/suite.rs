use crate::compare::{
    compare, vv_matches, FailReason, Failure, MatchResult, PathStep,
};
use crate::errors::CaptiError;
use crate::m_value::{
    lemma_obj_get_at, obj_find, obj_get, obj_has_key, fs_of, m2v, vv_wf, MValue, ValueV,
};
use crate::matcher::MatcherMap;
use crate::query_params::{qp_resolved, QueryParams};
use crate::response_headers::{hdrs_match, ResponseHeaders};
use crate::variables::{
    placeholder_name, single_placeholder, spec_subst, VariableMap,
};
use vstd::prelude::*;

verus! {

/// The position of the first `'.'` at or after `i`; `s.len()` when there is
/// none.
pub open spec fn find_dot(s: Seq<char>, i: int) -> int
    decreases s.len() - i,
{
    if i < 0 || i >= s.len() {
        s.len() as int
    } else if s[i] == '.' {
        i
    } else {
        find_dot(s, i + 1)
    }
}

/// Selects a sub-value of `v` by the dotted path that starts at character
/// `i` of `path`: each segment names a field of an object. `None` when a
/// segment is missing or the value on the way is not an object.
pub open spec fn spec_select_from(v: ValueV, path: Seq<char>, i: int) -> Option<ValueV>
    decreases path.len() - i,
{
    if i < 0 || i > path.len() {
        None
    } else if i == path.len() {
        Some(v)
    } else {
        let d = find_dot(path, i);
        let seg = path.subrange(i, d);
        if i <= d && d <= path.len() && v is Obj && obj_has_key(v->Obj_0, seg) {
            let child = obj_get(v->Obj_0, seg);
            if d == path.len() {
                Some(child)
            } else {
                spec_select_from(child, path, d + 1)
            }
        } else {
            None
        }
    }
}

/// Selects a sub-value of `v` by a dotted path.
pub open spec fn spec_select(v: ValueV, path: Seq<char>) -> Option<ValueV> {
    spec_select_from(v, path, 0)
}

/// The result of substituting variables structurally through a value:
/// every string leaf is replaced as `VariableMap::replace_variables`
/// replaces it (a single-placeholder string keeps the stored value's
/// shape); arrays and objects recurse; other leaves are unchanged. `None`
/// exactly when some referenced name is undefined.
pub open spec fn vv_subst(v: ValueV, m: Map<Seq<char>, ValueV>) -> Option<ValueV>
    decreases v,
{
    match v {
        ValueV::Str(s) => if single_placeholder(s) {
            if m.contains_key(placeholder_name(s)) {
                Some(m[placeholder_name(s)])
            } else {
                None
            }
        } else {
            match spec_subst(s, m) {
                Some(o) => Some(ValueV::Str(o)),
                None => None,
            }
        },
        ValueV::Arr(items) => if forall|i: int|
            0 <= i < items.len() ==> vv_subst(#[trigger] items[i], m) is Some {
            Some(
                ValueV::Arr(
                    Seq::new(
                        items.len(),
                        |i: int|
                            if 0 <= i < items.len() {
                                vv_subst(items[i], m)->0
                            } else {
                                ValueV::Null
                            },
                    ),
                ),
            )
        } else {
            None
        },
        ValueV::Obj(fs) => if forall|i: int|
            0 <= i < fs.len() ==> vv_subst((#[trigger] fs[i]).1, m) is Some {
            Some(
                ValueV::Obj(
                    Seq::new(
                        fs.len(),
                        |i: int|
                            if 0 <= i < fs.len() {
                                (fs[i].0, vv_subst(fs[i].1, m)->0)
                            } else {
                                (Seq::empty(), ValueV::Null)
                            },
                    ),
                ),
            )
        } else {
            None
        },
        _ => Some(v),
    }
}

/// Substitutes variables structurally through a value. Returns the new
/// value; fails with `VariableError` exactly when a referenced name is
/// undefined.
#[verifier::loop_isolation(false)]
pub fn subst_value(v: &MValue, variables: &VariableMap) -> (r: Result<MValue, CaptiError>)
    requires
        variables.wf(),
        vv_wf(v@),
    ensures
        (r is Ok) <==> vv_subst(v@, variables@) is Some,
        r matches Ok(nv) ==> vv_subst(v@, variables@) == Some(nv@) && vv_wf(nv@),
        r matches Err(e) ==> e is VariableError,
    decreases *v,
{
    match v {
        MValue::Str(s) => {
            match variables.replace_variables(s.as_str()) {
                Ok(nv) => Ok(nv),
                Err(e) => Err(e),
            }
        },
        MValue::Array(items) => {
            let mut out: Vec<MValue> = Vec::new();
            let mut i: usize = 0;
            while i < items.len()
                invariant
                    i <= items@.len(),
                    out@.len() == i,
                    forall|j: int|
                        0 <= j < i ==> vv_subst(
                            #[trigger] crate::m_value::vs_of(items@)[j],
                            variables@,
                        ) == Some(m2v(out@[j])) && vv_wf(m2v(out@[j])),
                decreases items@.len() - i,
            {
                proof {
                    crate::m_value::lemma_array_decreases(*v, i as int);
                    assert(vv_wf(crate::m_value::vs_of(items@)[i as int]));
                }
                match subst_value(&items[i], variables) {
                    Ok(nv) => {
                        out.push(nv);
                    },
                    Err(e) => {
                        proof {
                            assert(vv_subst(crate::m_value::vs_of(items@)[i as int], variables@)
                                is None);
                        }
                        return Err(e);
                    },
                }
                i = i + 1;
            }
            let r = MValue::Array(out);
            proof {
                assert(v@ == ValueV::Arr(crate::m_value::vs_of(items@)));
                assert(forall|j: int|
                    0 <= j < crate::m_value::vs_of(items@).len() ==> vv_subst(
                        #[trigger] crate::m_value::vs_of(items@)[j],
                        variables@,
                    ) is Some);
                let sub = vv_subst(v@, variables@);
                assert(sub is Some);
                assert(sub->0->Arr_0 =~= crate::m_value::vs_of(out@));
                assert(sub == Some(r@));
                assert(vv_wf(r@)) by {
                    assert(forall|j: int|
                        0 <= j < out@.len() ==> vv_wf(
                            #[trigger] crate::m_value::vs_of(out@)[j],
                        ));
                }
            }
            Ok(r)
        },
        MValue::Object(fields) => {
            let mut out: Vec<(String, MValue)> = Vec::new();
            let mut i: usize = 0;
            while i < fields.len()
                invariant
                    i <= fields@.len(),
                    out@.len() == i,
                    forall|j: int|
                        0 <= j < i ==> fs_of(out@)[j].0 == (#[trigger] fs_of(fields@)[j]).0
                            && vv_subst(fs_of(fields@)[j].1, variables@) == Some(fs_of(out@)[j].1)
                            && vv_wf(fs_of(out@)[j].1),
                decreases fields@.len() - i,
            {
                proof {
                    crate::m_value::lemma_object_decreases(*v, i as int);
                    assert(vv_wf(fs_of(fields@)[i as int].1));
                }
                let key = fields[i].0.clone();
                match subst_value(&fields[i].1, variables) {
                    Ok(nv) => {
                        out.push((key, nv));
                    },
                    Err(e) => {
                        proof {
                            assert(vv_subst(fs_of(fields@)[i as int].1, variables@) is None);
                        }
                        return Err(e);
                    },
                }
                i = i + 1;
            }
            let r = MValue::Object(out);
            proof {
                assert(v@ == ValueV::Obj(fs_of(fields@)));
                assert(forall|j: int|
                    0 <= j < fs_of(fields@).len() ==> vv_subst(
                        (#[trigger] fs_of(fields@)[j]).1,
                        variables@,
                    ) is Some);
                let sub = vv_subst(v@, variables@);
                assert(sub is Some);
                assert(sub->0->Obj_0 =~= fs_of(out@));
                assert(sub == Some(r@));
                assert(vv_wf(r@)) by {
                    assert(forall|j: int|
                        0 <= j < out@.len() ==> vv_wf((#[trigger] fs_of(out@)[j]).1));
                    assert(crate::m_value::obj_keys_unique(fs_of(out@)));
                }
            }
            Ok(r)
        },
        _ => {
            let r = v.deep_clone();
            Ok(r)
        },
    }
}

/// Selects a sub-value of `v` by a dotted path, returning a structurally
/// equal copy of it.
#[verifier::loop_isolation(false)]
pub fn select_path(v: &MValue, path: &str) -> (r: Option<MValue>)
    requires
        vv_wf(v@),
    ensures
        match r {
            Some(out) => spec_select(v@, path@) == Some(out@) && vv_wf(out@),
            None => spec_select(v@, path@) is None,
        },
{
    select_path_from(v, path, 0)
}

/// Finds the first `'.'` at or after character `i`.
#[verifier::loop_isolation(false)]
fn find_dot_exec(s: &str, i: usize) -> (r: usize)
    requires
        i <= s@.len(),
    ensures
        r == find_dot(s@, i as int),
        i <= r <= s@.len(),
{
    let n = s.unicode_len();
    let mut j = i;
    while j < n
        invariant
            i <= j <= n,
            find_dot(s@, i as int) == find_dot(s@, j as int),
        decreases n - j,
    {
        if s.get_char(j) == '.' {
            return j;
        }
        j = j + 1;
    }
    j
}

/// Walks the dotted path from character `i` on.
#[verifier::loop_isolation(false)]
fn select_path_from(v: &MValue, path: &str, i: usize) -> (r: Option<MValue>)
    requires
        vv_wf(v@),
        i <= path@.len(),
    ensures
        match r {
            Some(out) => spec_select_from(v@, path@, i as int) == Some(out@) && vv_wf(out@),
            None => spec_select_from(v@, path@, i as int) is None,
        },
    decreases path@.len() - i,
{
    let n = path.unicode_len();
    if i == n {
        return Some(v.deep_clone());
    }
    let d = find_dot_exec(path, i);
    let seg = path.substring_char(i, d);
    match v {
        MValue::Object(fields) => {
            let owned = seg.to_owned();
            match obj_find(fields, &owned) {
                Some(ix) => {
                    proof {
                        lemma_obj_get_at(fs_of(fields@), seg@, ix as int);
                        assert(vv_wf(fs_of(fields@)[ix as int].1));
                    }
                    if d == n {
                        Some(fields[ix].1.deep_clone())
                    } else {
                        select_path_from(&fields[ix].1, path, d + 1)
                    }
                },
                None => {
                    proof {
                        assert(!obj_has_key(v@->Obj_0, path@.subrange(i as int, d as int)));
                    }
                    None
                },
            }
        },
        _ => None,
    }
}

/// One request template: method, URL, query parameters, headers and an
/// optional body, each of which may carry variable placeholders.
#[derive(Debug, Clone)]
pub struct RequestTemplate {
    pub method: String,
    pub url: String,
    pub params: QueryParams,
    pub headers: ResponseHeaders,
    pub body: Option<MValue>,
}

/// The expectation a step holds against the response: an optional status
/// code, optional headers (subset check) and an optional body expectation
/// in the value model, possibly containing match directives.
#[derive(Debug, Clone)]
pub struct ResponseExpectation {
    pub status: Option<u16>,
    pub headers: Option<ResponseHeaders>,
    pub body: Option<MValue>,
}

/// A response already normalized into the value model by the transport
/// collaborator: status, headers, and body (when one could be parsed).
#[derive(Debug, Clone)]
pub struct ResponseData {
    pub status: u16,
    pub headers: ResponseHeaders,
    pub body: Option<MValue>,
}

/// A fully substituted request, ready to hand to the HTTP collaborator.
/// The query string is already appended to the URL.
#[derive(Debug, Clone)]
pub struct ResolvedRequest {
    pub method: String,
    pub url: String,
    pub headers: ResponseHeaders,
    pub body: Option<MValue>,
}

/// One request/expectation pair within a suite, plus the named captures to
/// extract from the response for later steps.
#[derive(Debug, Clone)]
pub struct Step {
    pub request: RequestTemplate,
    pub expect: ResponseExpectation,
    pub captures: Vec<(String, String)>,
}

/// The terminal outcome of one step: passed, failed with the collected
/// mismatches (a normal test outcome), or errored (substitution or
/// transport failure — never a comparison mismatch).
#[derive(Debug, Clone)]
pub enum StepOutcome {
    Passed,
    Failed(Vec<Failure>),
    Errored(CaptiError),
}

impl Step {
    /// Well-formedness of the step's templates.
    pub open spec fn wf(self) -> bool {
        &&& self.request.params.wf()
        &&& self.request.headers.wf()
        &&& (self.request.body matches Some(b) ==> vv_wf(b@))
        &&& (self.expect.headers matches Some(h) ==> h.wf())
        &&& (self.expect.body matches Some(b) ==> vv_wf(b@))
    }

    /// Whether every template of the request substitutes under `m`.
    pub open spec fn resolvable(self, m: Map<Seq<char>, ValueV>) -> bool {
        &&& spec_subst(self.request.method@, m) is Some
        &&& spec_subst(self.request.url@, m) is Some
        &&& (forall|i: int|
            0 <= i < self.request.params@.len() ==> qp_resolved(
                (#[trigger] self.request.params@[i]).1,
                m,
            ) is Some)
        &&& (forall|i: int|
            0 <= i < self.request.headers@.len() ==> spec_subst(
                (#[trigger] self.request.headers@[i]).1,
                m,
            ) is Some)
        &&& (self.request.body matches Some(b) ==> vv_subst(b@, m) is Some)
    }

    /// Applies the variable store to every template of the request — the
    /// `Pending → Substituted` transition. Succeeds exactly when every
    /// referenced variable is defined and every query parameter resolves
    /// to a string; an error here means the step is reported as errored
    /// without any request being dispatched.
    pub fn resolve(&self, variables: &VariableMap) -> (r: Result<ResolvedRequest, CaptiError>)
        requires
            self.wf(),
            variables.wf(),
        ensures
            (r is Ok) <==> self.resolvable(variables@),
            r matches Ok(q) ==> {
                &&& spec_subst(self.request.method@, variables@) == Some(q.method@)
                &&& q.url@ == spec_subst(self.request.url@, variables@)->0
                    + crate::query_params::spec_query_string(
                    Seq::new(
                        self.request.params@.len(),
                        |i: int|
                            if 0 <= i < self.request.params@.len() {
                                (
                                    self.request.params@[i].0,
                                    qp_resolved(self.request.params@[i].1, variables@)->0,
                                )
                            } else {
                                (Seq::<char>::empty(), Seq::<char>::empty())
                            },
                    ),
                )
                &&& q.headers.wf()
                &&& q.headers@.len() == self.request.headers@.len()
                &&& (forall|i: int|
                    0 <= i < self.request.headers@.len() ==> (#[trigger] q.headers@[i]).0
                        == self.request.headers@[i].0 && spec_subst(
                        self.request.headers@[i].1,
                        variables@,
                    ) == Some(q.headers@[i].1))
                &&& (self.request.body is Some <==> q.body is Some)
                &&& (q.body matches Some(b) ==> vv_subst(
                    self.request.body->0@,
                    variables@,
                ) == Some(b@) && vv_wf(b@))
            },
            r matches Err(e) ==> e is VariableError,
    {
        let method = match variables.replace_in_string(self.request.method.as_str()) {
            Ok(s) => s,
            Err(e) => {
                return Err(e);
            },
        };
        let url_base = match variables.replace_in_string(self.request.url.as_str()) {
            Ok(s) => s,
            Err(e) => {
                return Err(e);
            },
        };
        let mut params = self.request.params.clone();
        proof {
            assert(params@ == self.request.params@);
            assert(params.wf());
        }
        match params.populate_variables(variables) {
            Ok(()) => {},
            Err(e) => {
                return Err(e);
            },
        }
        let mut headers = self.request.headers.clone();
        proof {
            assert(headers@ == self.request.headers@);
            assert(headers.wf());
        }
        match headers.populate_variables(variables) {
            Ok(()) => {},
            Err(e) => {
                return Err(e);
            },
        }
        let body = match &self.request.body {
            Some(b) => {
                match subst_value(b, variables) {
                    Ok(nb) => Some(nb),
                    Err(e) => {
                        return Err(e);
                    },
                }
            },
            None => None,
        };
        let url = url_base.concat(params.as_query_string().as_str());
        proof {
            assert(params@ =~= Seq::new(
                self.request.params@.len(),
                |i: int|
                    if 0 <= i < self.request.params@.len() {
                        (
                            self.request.params@[i].0,
                            qp_resolved(self.request.params@[i].1, variables@)->0,
                        )
                    } else {
                        (Seq::<char>::empty(), Seq::<char>::empty())
                    },
            ));
        }
        Ok(ResolvedRequest { method, url, headers, body })
    }

    /// Whether a response satisfies this step's expectation.
    pub open spec fn response_matches(self, resp: ResponseData) -> bool {
        &&& (self.expect.status matches Some(s) ==> s == resp.status)
        &&& (self.expect.headers matches Some(h) ==> hdrs_match(h@, resp.headers@))
        &&& (self.expect.body matches Some(b) ==> resp.body matches Some(rb) && vv_matches(
            b@,
            rb@,
        ))
    }

    /// Compares a returned response against this step's expectation — the
    /// `Dispatched → Compared` transition. A `Fail` here is a normal test
    /// outcome, not an error; every mismatch in status, headers and body
    /// is collected.
    pub fn evaluate(&self, matchers: &MatcherMap, response: &ResponseData) -> (r: MatchResult)
        requires
            self.wf(),
            matchers.is_standard(),
            response.headers.wf(),
            response.body matches Some(b) ==> vv_wf(b@),
        ensures
            (r is Pass) <==> self.response_matches(*response),
            r matches MatchResult::Fail(fs) ==> fs@.len() > 0,
    {
        let mut out: Vec<Failure> = Vec::new();
        match &self.expect.status {
            Some(s) => {
                if !(*s == response.status) {
                    let mut p: Vec<PathStep> = Vec::new();
                    p.push(PathStep::Key("status".to_owned()));
                    out.push(
                        Failure {
                            path: p,
                            reason: FailReason::Mismatch(
                                MValue::Number(*s as i64),
                                MValue::Number(response.status as i64),
                            ),
                        },
                    );
                }
            },
            None => {},
        }
        match &self.expect.headers {
            Some(h) => {
                match h.match_cmp(&response.headers) {
                    MatchResult::Pass => {},
                    MatchResult::Fail(mut fs) => {
                        out.append(&mut fs);
                    },
                }
            },
            None => {},
        }
        match (&self.expect.body, &response.body) {
            (Some(b), Some(rb)) => {
                match compare(matchers, b, rb) {
                    MatchResult::Pass => {},
                    MatchResult::Fail(mut fs) => {
                        out.append(&mut fs);
                    },
                }
            },
            (Some(_), None) => {
                let mut p: Vec<PathStep> = Vec::new();
                p.push(PathStep::Key("body".to_owned()));
                out.push(
                    Failure { path: p, reason: FailReason::MissingKey("body".to_owned()) },
                );
            },
            (None, _) => {},
        }
        if out.len() == 0 {
            MatchResult::Pass
        } else {
            MatchResult::Fail(out)
        }
    }

    /// The store after the step's captures run against a response body:
    /// each capture whose path selects a value stores it under its name;
    /// a capture whose path selects nothing leaves the store untouched.
    pub open spec fn captures_applied(
        m: Map<Seq<char>, ValueV>,
        caps: Seq<(Seq<char>, Seq<char>)>,
        body: ValueV,
        i: int,
    ) -> Map<Seq<char>, ValueV>
        decreases caps.len() - i,
    {
        if i < 0 || i >= caps.len() {
            m
        } else {
            let m2 = match spec_select(body, caps[i].1) {
                Some(v) => m.insert(caps[i].0, v),
                None => m,
            };
            Self::captures_applied(m2, caps, body, i + 1)
        }
    }

    /// Runs the step's capture declarations against a response body,
    /// writing each selected value into the variable store. Runs exactly
    /// once per step, after comparison, regardless of pass or fail, so a
    /// later step can still use the data.
    #[verifier::loop_isolation(false)]
    pub fn apply_captures(&self, body: &MValue, variables: &mut VariableMap)
        requires
            old(variables).wf(),
            vv_wf(body@),
        ensures
            final(variables).wf(),
            final(variables)@ == Self::captures_applied(
                old(variables)@,
                crate::query_params::pairs_view(self.captures@),
                body@,
                0,
            ),
    {
        let ghost caps = crate::query_params::pairs_view(self.captures@);
        let mut i: usize = 0;
        while i < self.captures.len()
            invariant
                i <= self.captures@.len(),
                variables.wf(),
                Self::captures_applied(variables@, caps, body@, i as int)
                    == Self::captures_applied(old(variables)@, caps, body@, 0),
            decreases self.captures@.len() - i,
        {
            let name = self.captures[i].0.clone();
            match select_path(body, self.captures[i].1.as_str()) {
                Some(v) => {
                    proof {
                        assert(caps[i as int] == (name@, self.captures@[i as int].1@));
                    }
                    variables.capture(name, v);
                },
                None => {
                    proof {
                        assert(caps[i as int].1 == self.captures@[i as int].1@);
                    }
                },
            }
            i = i + 1;
        }
    }
}

/// One test suite: a name, the ordered steps, and the variable store the
/// steps share. Steps run strictly in sequence, because each may depend on
/// variables captured by the one before; suites are independent of each
/// other.
#[derive(Debug)]
pub struct Suite {
    pub name: String,
    pub steps: Vec<Step>,
    pub variables: VariableMap,
}

impl Suite {
    /// Every step's templates are well-formed and the store is valid.
    pub open spec fn wf(self) -> bool {
        &&& self.variables.wf()
        &&& forall|i: int| 0 <= i < self.steps@.len() ==> (#[trigger] self.steps@[i]).wf()
    }

    /// A suite with the given steps and an empty variable store.
    pub fn new(name: String, steps: Vec<Step>) -> (r: Suite)
        requires
            forall|i: int| 0 <= i < steps@.len() ==> (#[trigger] steps@[i]).wf(),
        ensures
            r.wf(),
            r.name@ == name@,
            r.steps@ == steps@,
            r.variables@ == Map::<Seq<char>, ValueV>::empty(),
    {
        Suite { name, steps, variables: VariableMap::new() }
    }
}

} // verus!
