use crate::m_value::{
    fs_of, lemma_array_decreases, lemma_obj_get_at, lemma_object_decreases, obj_find, obj_get,
    obj_has_key, vs_of, vv_eq, vv_wf, MValue, ValueV,
};
use crate::matcher::{is_matcher_key, matcher_accepts, Matcher, MatcherMap};
use vstd::prelude::*;

verus! {

/// One accessor on the path from the comparison root down to a failure.
#[derive(Debug, Clone, PartialEq, Eq)]
pub enum PathStep {
    Key(String),
    Index(usize),
}

/// Why one point of a comparison failed.
#[derive(Debug, Clone, PartialEq, Eq)]
pub enum FailReason {
    /// The expected object demands a key the actual object lacks.
    MissingKey(String),
    /// The arrays have different lengths (expected, actual).
    LengthMismatch(usize, usize),
    /// Structural inequality between the two sides (expected, actual).
    Mismatch(MValue, MValue),
    /// The matcher registered under this key rejected the actual value.
    DirectiveRejected(String),
}

/// One collected failure: where it happened, and why.
#[derive(Debug, Clone, PartialEq, Eq)]
pub struct Failure {
    pub path: Vec<PathStep>,
    pub reason: FailReason,
}

/// The outcome of one comparison: `Pass`, or the full list of failures
/// found. All failures of a single top-level comparison are collected, not
/// short-circuited, so a report can show every mismatch at once.
#[derive(Debug, Clone, PartialEq, Eq)]
pub enum MatchResult {
    Pass,
    Fail(Vec<Failure>),
}

impl MatchResult {
    pub fn is_pass(&self) -> (r: bool)
        ensures
            r == (*self is Pass),
    {
        match self {
            MatchResult::Pass => true,
            MatchResult::Fail(_) => false,
        }
    }
}

/// An expectation value that dispatches to a matcher: an object whose single
/// key is a registered directive key.
pub open spec fn is_directive_obj(e: ValueV) -> bool {
    e is Obj && e->Obj_0.len() == 1 && is_matcher_key(e->Obj_0[0].0)
}

/// What the matcher registered under directive key `k` says about `actual`
/// compared with the directive's payload. The key space is closed: `$exists`
/// is the only registered key.
pub open spec fn directive_accepts(k: Seq<char>, payload: ValueV, actual: ValueV) -> bool
    recommends
        is_matcher_key(k),
{
    matcher_accepts(Matcher::Exists, actual, payload)
}

/// The matching relation of the engine: `compare` passes exactly when this
/// holds of the two models.
///
/// 1. An expected object whose single key is a directive dispatches to that
///    matcher with the actual value and the directive's payload.
/// 2. Two objects match when every expected field exists in the actual
///    object and matches recursively; extra actual keys are tolerated.
/// 3. Two arrays match index-for-index and must have equal lengths.
/// 4. Anything else must be structurally equal (`vv_eq`).
pub open spec fn vv_matches(e: ValueV, a: ValueV) -> bool
    decreases e,
{
    if is_directive_obj(e) {
        directive_accepts(e->Obj_0[0].0, e->Obj_0[0].1, a)
    } else {
        match (e, a) {
            (ValueV::Obj(ef), ValueV::Obj(af)) => forall|i: int|
                0 <= i < ef.len() ==> obj_has_key(af, (#[trigger] ef[i]).0) && vv_matches(
                    ef[i].1,
                    obj_get(af, ef[i].0),
                ),
            (ValueV::Arr(ev), ValueV::Arr(av)) => ev.len() == av.len() && forall|i: int|
                0 <= i < ev.len() ==> vv_matches(#[trigger] ev[i], av[i]),
            _ => vv_eq(e, a),
        }
    }
}

/// Height facts for recursing into an object model.
pub proof fn lemma_vv_obj_decreases(v: ValueV, i: int)
    requires
        v is Obj,
        0 <= i < v->Obj_0.len(),
    ensures
        decreases_to!(v => v->Obj_0[i].1),
{
    assert(decreases_to!(v => v->Obj_0));
    assert(decreases_to!(v->Obj_0 => v->Obj_0[i]));
    assert(decreases_to!(v->Obj_0[i] => v->Obj_0[i].1));
}

/// Height facts for recursing into an array model.
pub proof fn lemma_vv_arr_decreases(v: ValueV, i: int)
    requires
        v is Arr,
        0 <= i < v->Arr_0.len(),
    ensures
        decreases_to!(v => v->Arr_0[i]),
{
    assert(decreases_to!(v => v->Arr_0));
    assert(decreases_to!(v->Arr_0 => v->Arr_0[i]));
}

/// Structural equality is reflexive on well-formed values.
pub proof fn lemma_vv_eq_reflexive(v: ValueV)
    requires
        vv_wf(v),
    ensures
        vv_eq(v, v),
    decreases v,
{
    match v {
        ValueV::Arr(items) => {
            assert forall|i: int| 0 <= i < items.len() implies vv_eq(
                #[trigger] items[i],
                items[i],
            ) by {
                lemma_vv_arr_decreases(v, i);
                lemma_vv_eq_reflexive(items[i]);
            }
        },
        ValueV::Obj(fs) => {
            assert forall|i: int|
                0 <= i < fs.len() implies obj_has_key(fs, (#[trigger] fs[i]).0) && vv_eq(
                fs[i].1,
                obj_get(fs, fs[i].0),
            ) by {
                lemma_obj_get_at(fs, fs[i].0, i);
                lemma_vv_obj_decreases(v, i);
                lemma_vv_eq_reflexive(fs[i].1);
            }
        },
        _ => {},
    }
}

/// Reflexivity of the matching relation: every well-formed value, compared
/// against itself, passes.
pub proof fn lemma_matches_reflexive(v: ValueV)
    requires
        vv_wf(v),
    ensures
        vv_matches(v, v),
    decreases v,
{
    if is_directive_obj(v) {
    } else {
        match v {
            ValueV::Arr(items) => {
                assert forall|i: int| 0 <= i < items.len() implies vv_matches(
                    #[trigger] items[i],
                    items[i],
                ) by {
                    lemma_vv_arr_decreases(v, i);
                    lemma_matches_reflexive(items[i]);
                }
            },
            ValueV::Obj(fs) => {
                assert forall|i: int|
                    0 <= i < fs.len() implies obj_has_key(fs, (#[trigger] fs[i]).0) && vv_matches(
                    fs[i].1,
                    obj_get(fs, fs[i].0),
                ) by {
                    lemma_obj_get_at(fs, fs[i].0, i);
                    lemma_vv_obj_decreases(v, i);
                    lemma_matches_reflexive(fs[i].1);
                }
            },
            _ => {
                lemma_vv_eq_reflexive(v);
            },
        }
    }
}

/// Subset tolerance: when the actual object carries every expected field
/// with an identical value — extra actual keys allowed — the comparison
/// passes.
pub proof fn lemma_subset_passes(e: ValueV, a: ValueV)
    requires
        vv_wf(e),
        e is Obj,
        a is Obj,
        forall|i: int|
            0 <= i < e->Obj_0.len() ==> obj_has_key(a->Obj_0, (#[trigger] e->Obj_0[i]).0)
                && obj_get(a->Obj_0, e->Obj_0[i].0) == e->Obj_0[i].1,
    ensures
        vv_matches(e, a),
{
    if is_directive_obj(e) {
    } else {
        let ef = e->Obj_0;
        let af = a->Obj_0;
        assert forall|i: int|
            0 <= i < ef.len() implies obj_has_key(af, (#[trigger] ef[i]).0) && vv_matches(
            ef[i].1,
            obj_get(af, ef[i].0),
        ) by {
            assert(obj_get(af, ef[i].0) == ef[i].1);
            lemma_vv_obj_decreases(e, i);
            lemma_matches_reflexive(ef[i].1);
        }
    }
}

/// The reverse of subset tolerance: with the roles swapped, a key present in
/// the expected side but absent from the actual side makes the comparison
/// fail — unless the expected side is itself a single-key directive object.
pub proof fn lemma_extra_key_fails(e: ValueV, a: ValueV, k: Seq<char>)
    requires
        e is Obj,
        a is Obj,
        !is_directive_obj(e),
        obj_has_key(e->Obj_0, k),
        !obj_has_key(a->Obj_0, k),
    ensures
        !vv_matches(e, a),
{
    let ef = e->Obj_0;
    let i = choose|i: int| 0 <= i < ef.len() && ef[i].0 == k;
    assert(0 <= i < ef.len() && ef[i].0 == k);
    assert(!(obj_has_key(a->Obj_0, ef[i].0) && vv_matches(ef[i].1, obj_get(a->Obj_0, ef[i].0))));
}

/// The `$exists` directive passes against every actual value — `Null`
/// included: existence is about the field being present at all, not about
/// its content or the directive's payload.
pub proof fn lemma_exists_passes(payload: ValueV, a: ValueV)
    ensures
        vv_matches(ValueV::Obj(seq![("$exists"@, payload)]), a),
{
    let e = ValueV::Obj(seq![("$exists"@, payload)]);
    assert(e->Obj_0[0] == ("$exists"@, payload));
    assert(is_directive_obj(e));
}

/// Walks `expected` against `actual`, appending one `Failure` for every
/// mismatch found beneath `path`. Appends nothing exactly when the two
/// sides match.
#[verifier::loop_isolation(false)]
fn collect_failures(
    matchers: &MatcherMap,
    expected: &MValue,
    actual: &MValue,
    path: &Vec<PathStep>,
    out: &mut Vec<Failure>,
)
    requires
        matchers.is_standard(),
        vv_wf(expected@),
        vv_wf(actual@),
    ensures
        old(out)@.len() <= final(out)@.len(),
        (final(out)@.len() == old(out)@.len()) <==> vv_matches(expected@, actual@),
    decreases *expected,
{
    // Rule 1: a single-key expected object whose key is a registered
    // directive dispatches to the matcher.
    if let MValue::Object(ef) = expected {
        if ef.len() == 1 {
            let key = &ef[0].0;
            if let Some(mt) = matchers.get_matcher(key.as_str()) {
                let ok = mt.is_match(actual, &ef[0].1);
                proof {
                    assert(fs_of(ef@)[0].0 == key@);
                    assert(is_directive_obj(expected@));
                }
                if !ok {
                    let p = path.clone();
                    out.push(
                        Failure { path: p, reason: FailReason::DirectiveRejected(key.clone()) },
                    );
                }
                return ;
            }
            proof {
                assert(fs_of(ef@)[0].0 == key@);
                assert(!is_directive_obj(expected@));
            }
        } else {
            proof {
                assert(!is_directive_obj(expected@));
            }
        }
    }
    match (expected, actual) {
        (MValue::Object(ef), MValue::Object(af)) => {
            // Rule 2: subset check — every expected field must exist and
            // match; extra actual keys are ignored.
            let ghost base = out@.len();
            let mut i: usize = 0;
            while i < ef.len()
                invariant
                    i <= ef@.len(),
                    base <= out@.len(),
                    (out@.len() == base) <==> (forall|j: int|
                        0 <= j < i ==> obj_has_key(fs_of(af@), (#[trigger] fs_of(ef@)[j]).0)
                            && vv_matches(fs_of(ef@)[j].1, obj_get(fs_of(af@), fs_of(ef@)[j].0))),
                decreases ef@.len() - i,
            {
                let key = &ef[i].0;
                match obj_find(af, key) {
                    Some(ia) => {
                        proof {
                            lemma_obj_get_at(fs_of(af@), key@, ia as int);
                            lemma_object_decreases(*expected, i as int);
                            assert(vv_wf(fs_of(ef@)[i as int].1));
                            assert(vv_wf(fs_of(af@)[ia as int].1));
                        }
                        let mut p = path.clone();
                        p.push(PathStep::Key(key.clone()));
                        collect_failures(matchers, &ef[i].1, &af[ia].1, &p, out);
                    },
                    None => {
                        let mut p = path.clone();
                        p.push(PathStep::Key(key.clone()));
                        out.push(
                            Failure { path: p, reason: FailReason::MissingKey(key.clone()) },
                        );
                    },
                }
                i = i + 1;
            }
        },
        (MValue::Array(ev), MValue::Array(av)) => {
            // Rule 3: equal lengths required, and every index of the common
            // prefix is still compared so that its mismatches are reported.
            let ghost base = out@.len();
            if ev.len() != av.len() {
                let p = path.clone();
                out.push(
                    Failure { path: p, reason: FailReason::LengthMismatch(ev.len(), av.len()) },
                );
            }
            let n = if ev.len() < av.len() {
                ev.len()
            } else {
                av.len()
            };
            let mut i: usize = 0;
            while i < n
                invariant
                    i <= n,
                    base <= out@.len(),
                    ev@.len() == av@.len() ==> ((out@.len() == base) <==> (forall|j: int|
                        0 <= j < i ==> vv_matches(#[trigger] vs_of(ev@)[j], vs_of(av@)[j]))),
                    ev@.len() != av@.len() ==> out@.len() > base,
                decreases n - i,
            {
                proof {
                    lemma_array_decreases(*expected, i as int);
                    assert(expected@->Arr_0 == vs_of(ev@));
                    assert(actual@->Arr_0 == vs_of(av@));
                    crate::m_value::lemma_vv_wf_arr(expected@, i as int);
                    crate::m_value::lemma_vv_wf_arr(actual@, i as int);
                }
                let mut p = path.clone();
                p.push(PathStep::Index(i));
                collect_failures(matchers, &ev[i], &av[i], &p, out);
                i = i + 1;
            }
        },
        _ => {
            // Rule 4: structural equality.
            if !expected.structural_eq(actual) {
                let p = path.clone();
                out.push(
                    Failure {
                        path: p,
                        reason: FailReason::Mismatch(expected.deep_clone(), actual.deep_clone()),
                    },
                );
            }
        },
    }
}

/// The match engine: compares an expectation against an actual value.
///
/// Returns `Pass` exactly when `vv_matches` holds of the two models; on
/// failure, every mismatch found in the whole comparison is reported, each
/// with the path from the root to the point of failure.
pub fn compare(matchers: &MatcherMap, expected: &MValue, actual: &MValue) -> (r: MatchResult)
    requires
        matchers.is_standard(),
        vv_wf(expected@),
        vv_wf(actual@),
    ensures
        (r is Pass) <==> vv_matches(expected@, actual@),
        r matches MatchResult::Fail(fs) ==> fs@.len() > 0,
{
    let path: Vec<PathStep> = Vec::new();
    let mut out: Vec<Failure> = Vec::new();
    collect_failures(matchers, expected, actual, &path, &mut out);
    if out.len() == 0 {
        MatchResult::Pass
    } else {
        MatchResult::Fail(out)
    }
}

} // verus!
