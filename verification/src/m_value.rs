use vstd::prelude::*;

verus! {

/// The mathematical model of a data value: what an `MValue` denotes.
///
/// Strings are sequences of characters, arrays are ordered sequences, and an
/// object is the ordered association list of its fields. Key order inside an
/// object is preserved by the model but is irrelevant to structural equality
/// (see `vv_eq`).
pub enum ValueV {
    Null,
    Bool(bool),
    Num(int),
    Str(Seq<char>),
    Arr(Seq<ValueV>),
    Obj(Seq<(Seq<char>, ValueV)>),
}

/// Whether the association list `fs` has a field named `k`.
pub open spec fn obj_has_key(fs: Seq<(Seq<char>, ValueV)>, k: Seq<char>) -> bool {
    exists|i: int| 0 <= i < fs.len() && fs[i].0 == k
}

/// An index of the field named `k` in `fs` (unique when keys are unique).
pub open spec fn obj_key_index(fs: Seq<(Seq<char>, ValueV)>, k: Seq<char>) -> int {
    choose|i: int| 0 <= i < fs.len() && fs[i].0 == k
}

/// The value of the field named `k` in `fs`.
pub open spec fn obj_get(fs: Seq<(Seq<char>, ValueV)>, k: Seq<char>) -> ValueV {
    fs[obj_key_index(fs, k)].1
}

/// No two fields of `fs` share a name.
pub open spec fn obj_keys_unique(fs: Seq<(Seq<char>, ValueV)>) -> bool {
    forall|i: int, j: int| 0 <= i < j < fs.len() ==> fs[i].0 != fs[j].0
}

/// Well-formedness of a model value: every object, at every depth, has
/// unique field names. All data entering the engine is normalized to
/// well-formed values.
pub open spec fn vv_wf(v: ValueV) -> bool
    decreases v,
{
    match v {
        ValueV::Arr(items) => forall|i: int| 0 <= i < items.len() ==> vv_wf(#[trigger] items[i]),
        ValueV::Obj(fs) => obj_keys_unique(fs) && forall|i: int|
            0 <= i < fs.len() ==> vv_wf(#[trigger] fs[i].1),
        _ => true,
    }
}

/// Structural equality over the value model: arrays compare element-wise in
/// order; objects compare by key set and per-key value, order irrelevant;
/// numbers and strings compare by value.
pub open spec fn vv_eq(a: ValueV, b: ValueV) -> bool
    decreases a,
{
    match (a, b) {
        (ValueV::Null, ValueV::Null) => true,
        (ValueV::Bool(x), ValueV::Bool(y)) => x == y,
        (ValueV::Num(x), ValueV::Num(y)) => x == y,
        (ValueV::Str(x), ValueV::Str(y)) => x == y,
        (ValueV::Arr(x), ValueV::Arr(y)) => x.len() == y.len() && forall|i: int|
            0 <= i < x.len() ==> vv_eq(#[trigger] x[i], y[i]),
        (ValueV::Obj(x), ValueV::Obj(y)) => {
            &&& forall|k: Seq<char>| obj_has_key(y, k) ==> obj_has_key(x, k)
            &&& forall|i: int|
                0 <= i < x.len() ==> obj_has_key(y, #[trigger] x[i].0) && vv_eq(
                    x[i].1,
                    obj_get(y, x[i].0),
                )
        },
        _ => false,
    }
}

/// The untyped value model: the single representation that JSON bodies,
/// headers, query parameters and YAML literals are normalized into before
/// any comparison or substitution happens.
///
/// Numbers are 64-bit integers; an object is a list of fields whose names
/// are unique (see `vv_wf`), with insertion order preserved for display but
/// not significant for equality.
#[derive(Debug, PartialEq, Eq)]
pub enum MValue {
    Null,
    Bool(bool),
    Number(i64),
    Str(String),
    Array(Vec<MValue>),
    Object(Vec<(String, MValue)>),
}

/// The model denoted by an `MValue`.
pub open spec fn m2v(v: MValue) -> ValueV
    decreases v,
{
    match v {
        MValue::Null => ValueV::Null,
        MValue::Bool(b) => ValueV::Bool(b),
        MValue::Number(n) => ValueV::Num(n as int),
        MValue::Str(s) => ValueV::Str(s@),
        MValue::Array(items) => ValueV::Arr(vs_of(items@)),
        MValue::Object(fields) => ValueV::Obj(fs_of(fields@)),
    }
}

/// The models of a sequence of values.
pub open spec fn vs_of(s: Seq<MValue>) -> Seq<ValueV>
    decreases s,
{
    Seq::new(
        s.len(),
        |i: int|
            if 0 <= i < s.len() {
                m2v(s[i])
            } else {
                ValueV::Null
            },
    )
}

/// The models of a sequence of fields.
pub open spec fn fs_of(s: Seq<(String, MValue)>) -> Seq<(Seq<char>, ValueV)>
    decreases s,
{
    Seq::new(
        s.len(),
        |i: int|
            if 0 <= i < s.len() {
                (s[i].0@, m2v(s[i].1))
            } else {
                (Seq::empty(), ValueV::Null)
            },
    )
}

/// A well-formed array value has well-formed elements.
pub proof fn lemma_vv_wf_arr(v: ValueV, i: int)
    requires
        vv_wf(v),
        v is Arr,
        0 <= i < v->Arr_0.len(),
    ensures
        vv_wf(v->Arr_0[i]),
{
}

/// Height facts used by recursive traversals of an array value.
pub proof fn lemma_array_decreases(v: MValue, i: int)
    requires
        v is Array,
        0 <= i < v->Array_0@.len(),
    ensures
        decreases_to!(v => v->Array_0@[i]),
{
    assert(decreases_to!(v => v->Array_0));
    assert(decreases_to!(v->Array_0 => v->Array_0@));
    assert(decreases_to!(v->Array_0@ => v->Array_0@[i]));
}

/// Height facts used by recursive traversals of an object value.
pub proof fn lemma_object_decreases(v: MValue, i: int)
    requires
        v is Object,
        0 <= i < v->Object_0@.len(),
    ensures
        decreases_to!(v => v->Object_0@[i].1),
{
    assert(decreases_to!(v => v->Object_0));
    assert(decreases_to!(v->Object_0 => v->Object_0@));
    assert(decreases_to!(v->Object_0@ => v->Object_0@[i]));
    assert(decreases_to!(v->Object_0@[i] => v->Object_0@[i].1));
}

impl View for MValue {
    type V = ValueV;

    open spec fn view(&self) -> ValueV {
        m2v(*self)
    }
}

impl MValue {
    /// Well-formedness carried over to the executable type.
    pub open spec fn wf(self) -> bool {
        vv_wf(m2v(self))
    }

    /// A structurally equal copy: same model value.
    #[verifier::loop_isolation(false)]
    pub fn deep_clone(&self) -> (r: MValue)
        ensures
            r@ == self@,
        decreases *self,
    {
        match self {
            MValue::Null => MValue::Null,
            MValue::Bool(b) => MValue::Bool(*b),
            MValue::Number(n) => MValue::Number(*n),
            MValue::Str(s) => MValue::Str(s.clone()),
            MValue::Array(items) => {
                let mut out: Vec<MValue> = Vec::new();
                let mut i: usize = 0;
                while i < items.len()
                    invariant
                        i <= items@.len(),
                        out@.len() == i,
                        forall|j: int| 0 <= j < i ==> m2v(#[trigger] out@[j]) == m2v(items@[j]),
                    decreases items@.len() - i,
                {
                    proof {
                        lemma_array_decreases(*self, i as int);
                    }
                    let c = items[i].deep_clone();
                    out.push(c);
                    i = i + 1;
                }
                proof {
                    assert(vs_of(out@) =~= vs_of(items@));
                }
                MValue::Array(out)
            },
            MValue::Object(fields) => {
                let mut out: Vec<(String, MValue)> = Vec::new();
                let mut i: usize = 0;
                while i < fields.len()
                    invariant
                        i <= fields@.len(),
                        out@.len() == i,
                        forall|j: int|
                            0 <= j < i ==> (#[trigger] out@[j]).0@ == fields@[j].0@ && m2v(
                                out@[j].1,
                            ) == m2v(fields@[j].1),
                    decreases fields@.len() - i,
                {
                    proof {
                        lemma_object_decreases(*self, i as int);
                    }
                    let k = fields[i].0.clone();
                    let v = fields[i].1.deep_clone();
                    out.push((k, v));
                    i = i + 1;
                }
                proof {
                    assert(fs_of(out@) =~= fs_of(fields@));
                }
                MValue::Object(out)
            },
        }
    }


    /// The human-readable rendering of this value: `vv_render` of its model.
    pub fn render(&self) -> (r: String)
        ensures
            r@ == vv_render(self@),
        decreases *self, 0int,
    {
        match self {
            MValue::Null => "null".to_owned(),
            MValue::Bool(b) => if *b {
                "true".to_owned()
            } else {
                "false".to_owned()
            },
            MValue::Number(n) => i64_dec(*n),
            MValue::Str(s) => s.clone(),
            MValue::Array(items) => {
                proof {
                    assert(decreases_to!(*self => (*self)->Array_0));
                }
                let r = "[".to_owned().concat(render_elems_exec(items, 0).as_str()).concat("]");
                proof {
                    assert(r@ =~= vv_render(self@));
                }
                r
            },
            MValue::Object(fields) => {
                proof {
                    assert(decreases_to!(*self => (*self)->Object_0));
                }
                let r = "{".to_owned().concat(render_fields_exec(fields, 0).as_str()).concat("}");
                proof {
                    assert(r@ =~= vv_render(self@));
                }
                r
            },
        }
    }

    /// Structural equality per the value model: arrays in order, objects by
    /// key set, numbers and strings by value.
    #[verifier::loop_isolation(false)]
    pub fn structural_eq(&self, other: &MValue) -> (r: bool)
        requires
            vv_wf(self@),
            vv_wf(other@),
        ensures
            r == vv_eq(self@, other@),
        decreases *self,
    {
        match (self, other) {
            (MValue::Null, MValue::Null) => true,
            (MValue::Bool(x), MValue::Bool(y)) => *x == *y,
            (MValue::Number(x), MValue::Number(y)) => *x == *y,
            (MValue::Str(x), MValue::Str(y)) => *x == *y,
            (MValue::Array(x), MValue::Array(y)) => {
                if x.len() != y.len() {
                    return false;
                }
                let mut i: usize = 0;
                while i < x.len()
                    invariant
                        x@.len() == y@.len(),
                        i <= x@.len(),
                        vv_wf(ValueV::Arr(vs_of(x@))),
                        vv_wf(ValueV::Arr(vs_of(y@))),
                        forall|j: int| 0 <= j < i ==> vv_eq(vs_of(x@)[j], vs_of(y@)[j]),
                    decreases x@.len() - i,
                {
                    proof {
                        assert(vv_wf(vs_of(x@)[i as int]));
                        assert(vv_wf(vs_of(y@)[i as int]));
                        lemma_array_decreases(*self, i as int);
                    }
                    if !x[i].structural_eq(&y[i]) {
                        return false;
                    }
                    i = i + 1;
                }
                true
            },
            (MValue::Object(x), MValue::Object(y)) => {
                obj_fields_eq(x, y)
            },
            _ => false,
        }
    }
}

/// Looks a field name up in an executable field list; returns the first
/// index holding that name.
#[verifier::loop_isolation(false)]
pub fn obj_find(fields: &Vec<(String, MValue)>, key: &String) -> (r: Option<usize>)
    ensures
        match r {
            Some(i) => i < fields@.len() && fields@[i as int].0@ == key@ && forall|j: int|
                0 <= j < i ==> fields@[j].0@ != key@,
            None => !obj_has_key(fs_of(fields@), key@),
        },
{
    let mut i: usize = 0;
    while i < fields.len()
        invariant
            i <= fields@.len(),
            forall|j: int| 0 <= j < i ==> fields@[j].0@ != key@,
        decreases fields@.len() - i,
    {
        if fields[i].0 == *key {
            return Some(i);
        }
        i = i + 1;
    }
    proof {
        assert(forall|j: int|
            0 <= j < fs_of(fields@).len() ==> (#[trigger] fs_of(fields@)[j]).0 != key@);
    }
    None
}

/// With unique keys, `obj_get` on the model agrees with any index that
/// holds the key.
pub proof fn lemma_obj_get_at(fs: Seq<(Seq<char>, ValueV)>, k: Seq<char>, i: int)
    requires
        obj_keys_unique(fs),
        0 <= i < fs.len(),
        fs[i].0 == k,
    ensures
        obj_has_key(fs, k),
        obj_key_index(fs, k) == i,
        obj_get(fs, k) == fs[i].1,
{
    assert(obj_has_key(fs, k));
    let j = obj_key_index(fs, k);
    assert(0 <= j < fs.len() && fs[j].0 == k);
    if i < j {
        assert(fs[i].0 != fs[j].0);
    } else if j < i {
        assert(fs[j].0 != fs[i].0);
    }
}

/// Executable check of `vv_eq` on two field lists.
#[verifier::loop_isolation(false)]
fn obj_fields_eq(x: &Vec<(String, MValue)>, y: &Vec<(String, MValue)>) -> (r: bool)
    requires
        vv_wf(ValueV::Obj(fs_of(x@))),
        vv_wf(ValueV::Obj(fs_of(y@))),
    ensures
        r == vv_eq(ValueV::Obj(fs_of(x@)), ValueV::Obj(fs_of(y@))),
    decreases *x,
{
    let ghost xv = fs_of(x@);
    let ghost yv = fs_of(y@);
    // every key of y must be a key of x
    let mut i: usize = 0;
    while i < y.len()
        invariant
            i <= y@.len(),
            forall|j: int| 0 <= j < i ==> obj_has_key(fs_of(x@), #[trigger] fs_of(y@)[j].0),
        decreases y@.len() - i,
    {
        match obj_find(x, &y[i].0) {
            Some(ix) => {
                proof {
                    assert(fs_of(x@)[ix as int].0 == y@[i as int].0@);
                    assert(obj_has_key(fs_of(x@), fs_of(y@)[i as int].0));
                }
            },
            None => {
                proof {
                    assert(!vv_eq(ValueV::Obj(fs_of(x@)), ValueV::Obj(fs_of(y@)))) by {
                        assert(obj_has_key(fs_of(y@), fs_of(y@)[i as int].0));
                    }
                }
                return false;
            },
        }
        i = i + 1;
    }
    // every field of x must appear in y with a structurally equal value
    let mut i: usize = 0;
    while i < x.len()
        invariant
            i <= x@.len(),
            vv_wf(ValueV::Obj(fs_of(x@))),
            vv_wf(ValueV::Obj(fs_of(y@))),
            forall|j: int| 0 <= j < y@.len() ==> obj_has_key(fs_of(x@), #[trigger] fs_of(y@)[j].0),
            forall|j: int|
                0 <= j < i ==> obj_has_key(fs_of(y@), #[trigger] fs_of(x@)[j].0) && vv_eq(
                    fs_of(x@)[j].1,
                    obj_get(fs_of(y@), fs_of(x@)[j].0),
                ),
        decreases x@.len() - i,
    {
        match obj_find(y, &x[i].0) {
            Some(iy) => {
                proof {
                    lemma_obj_get_at(fs_of(y@), x@[i as int].0@, iy as int);
                    assert(vv_wf(fs_of(x@)[i as int].1));
                    assert(vv_wf(fs_of(y@)[iy as int].1));
                    assert(decreases_to!(*x => x@[i as int]));
                    assert(decreases_to!(x@[i as int] => x@[i as int].1));
                }
                if !x[i].1.structural_eq(&y[iy].1) {
                    proof {
                        assert(!vv_eq(ValueV::Obj(fs_of(x@)), ValueV::Obj(fs_of(y@)))) by {
                            assert(fs_of(x@)[i as int].1 == m2v(x@[i as int].1));
                        }
                    }
                    return false;
                }
            },
            None => {
                proof {
                    assert(!vv_eq(ValueV::Obj(fs_of(x@)), ValueV::Obj(fs_of(y@)))) by {
                        assert(!obj_has_key(fs_of(y@), fs_of(x@)[i as int].0));
                    }
                }
                return false;
            },
        }
        i = i + 1;
    }
    proof {
        assert forall|k: Seq<char>| obj_has_key(fs_of(y@), k) implies obj_has_key(
            fs_of(x@),
            k,
        ) by {
            let j = choose|j: int| 0 <= j < fs_of(y@).len() && fs_of(y@)[j].0 == k;
            assert(obj_has_key(fs_of(x@), fs_of(y@)[j].0));
        }
    }
    true
}


/// The character for one decimal digit.
pub open spec fn dec_digit(d: int) -> char {
    if d == 0 {
        '0'
    } else if d == 1 {
        '1'
    } else if d == 2 {
        '2'
    } else if d == 3 {
        '3'
    } else if d == 4 {
        '4'
    } else if d == 5 {
        '5'
    } else if d == 6 {
        '6'
    } else if d == 7 {
        '7'
    } else if d == 8 {
        '8'
    } else {
        '9'
    }
}

/// The decimal representation of a natural number, most significant digit
/// first, without leading zeros.
pub open spec fn dec_rep(n: nat) -> Seq<char>
    decreases n,
{
    if n < 10 {
        seq![dec_digit(n as int)]
    } else {
        dec_rep(n / 10).push(dec_digit((n % 10) as int))
    }
}

/// The decimal representation of an integer, with a leading minus sign when
/// negative.
pub open spec fn int_rep(n: int) -> Seq<char> {
    if n < 0 {
        seq!['-'] + dec_rep((-n) as nat)
    } else {
        dec_rep(n as nat)
    }
}

/// The human-readable rendering of a model value, used in reports and when
/// a variable is substituted into the middle of a string. Strings render
/// bare (unquoted); arrays and objects render with brackets, braces and
/// comma-separated entries.
pub open spec fn vv_render(v: ValueV) -> Seq<char>
    decreases v, 0int,
{
    match v {
        ValueV::Null => "null"@,
        ValueV::Bool(b) => if b {
            "true"@
        } else {
            "false"@
        },
        ValueV::Num(n) => int_rep(n),
        ValueV::Str(s) => s,
        ValueV::Arr(items) => "["@ + render_elems(items, 0) + "]"@,
        ValueV::Obj(fs) => "{"@ + render_fields(fs, 0) + "}"@,
    }
}

/// The rendering of array elements from index `i` on, comma-separated.
pub open spec fn render_elems(items: Seq<ValueV>, i: int) -> Seq<char>
    decreases items, items.len() - i,
{
    if i < 0 || i >= items.len() {
        Seq::empty()
    } else if i == items.len() - 1 {
        vv_render(items[i])
    } else {
        vv_render(items[i]) + ", "@ + render_elems(items, i + 1)
    }
}

/// The rendering of object fields from index `i` on, comma-separated.
pub open spec fn render_fields(fs: Seq<(Seq<char>, ValueV)>, i: int) -> Seq<char>
    decreases fs, fs.len() - i,
{
    if i < 0 || i >= fs.len() {
        Seq::empty()
    } else if i == fs.len() - 1 {
        fs[i].0 + ": "@ + vv_render(fs[i].1)
    } else {
        fs[i].0 + ": "@ + vv_render(fs[i].1) + ", "@ + render_fields(fs, i + 1)
    }
}

/// A one-character string for a decimal digit.
fn digit_str(d: u64) -> (r: &'static str)
    requires
        d < 10,
    ensures
        r@ == seq![dec_digit(d as int)],
{
    if d == 0 {
        proof {
            reveal_strlit("0");
            assert("0"@ =~= seq![dec_digit(d as int)]);
        }
        "0"
    } else if d == 1 {
        proof {
            reveal_strlit("1");
            assert("1"@ =~= seq![dec_digit(d as int)]);
        }
        "1"
    } else if d == 2 {
        proof {
            reveal_strlit("2");
            assert("2"@ =~= seq![dec_digit(d as int)]);
        }
        "2"
    } else if d == 3 {
        proof {
            reveal_strlit("3");
            assert("3"@ =~= seq![dec_digit(d as int)]);
        }
        "3"
    } else if d == 4 {
        proof {
            reveal_strlit("4");
            assert("4"@ =~= seq![dec_digit(d as int)]);
        }
        "4"
    } else if d == 5 {
        proof {
            reveal_strlit("5");
            assert("5"@ =~= seq![dec_digit(d as int)]);
        }
        "5"
    } else if d == 6 {
        proof {
            reveal_strlit("6");
            assert("6"@ =~= seq![dec_digit(d as int)]);
        }
        "6"
    } else if d == 7 {
        proof {
            reveal_strlit("7");
            assert("7"@ =~= seq![dec_digit(d as int)]);
        }
        "7"
    } else if d == 8 {
        proof {
            reveal_strlit("8");
            assert("8"@ =~= seq![dec_digit(d as int)]);
        }
        "8"
    } else {
        proof {
            reveal_strlit("9");
            assert("9"@ =~= seq![dec_digit(d as int)]);
        }
        "9"
    }
}

/// Renders a natural number in decimal.
fn u64_dec(n: u64) -> (r: String)
    ensures
        r@ == dec_rep(n as nat),
    decreases n,
{
    if n < 10 {
        digit_str(n).to_owned()
    } else {
        let prefix = u64_dec(n / 10);
        let r = prefix.concat(digit_str(n % 10));
        proof {
            assert(r@ =~= dec_rep(n as nat));
        }
        r
    }
}

/// Renders a signed number in decimal.
fn i64_dec(n: i64) -> (r: String)
    ensures
        r@ == int_rep(n as int),
{
    if n >= 0 {
        u64_dec(n as u64)
    } else {
        let m: u64 = (-(n as i128)) as u64;
        let r = "-".to_owned().concat(u64_dec(m).as_str());
        proof {
            reveal_strlit("-");
            assert(r@ =~= int_rep(n as int));
        }
        r
    }
}

/// Renders the elements of `items` from index `i` on, comma-separated.
#[verifier::loop_isolation(false)]
fn render_elems_exec(items: &Vec<MValue>, i: usize) -> (r: String)
    requires
        i <= items@.len(),
    ensures
        r@ == render_elems(vs_of(items@), i as int),
    decreases *items, items@.len() - i,
{
    if i >= items.len() {
        String::new()
    } else {
        proof {
            assert(decreases_to!(*items => items@[i as int]));
        }
        let head = items[i].render();
        if i + 1 < items.len() {
            let rest = render_elems_exec(items, i + 1);
            let r = head.concat(", ").concat(rest.as_str());
            proof {
                assert(r@ =~= render_elems(vs_of(items@), i as int));
            }
            r
        } else {
            proof {
                assert(head@ =~= render_elems(vs_of(items@), i as int));
            }
            head
        }
    }
}

/// Renders the fields of `fs` from index `i` on, comma-separated.
#[verifier::loop_isolation(false)]
fn render_fields_exec(fs: &Vec<(String, MValue)>, i: usize) -> (r: String)
    requires
        i <= fs@.len(),
    ensures
        r@ == render_fields(fs_of(fs@), i as int),
    decreases *fs, fs@.len() - i,
{
    if i >= fs.len() {
        String::new()
    } else {
        proof {
            assert(decreases_to!(*fs => fs@[i as int]));
            assert(decreases_to!(fs@[i as int] => fs@[i as int].1));
        }
        let head = fs[i].0.clone().concat(": ").concat(fs[i].1.render().as_str());
        if i + 1 < fs.len() {
            let rest = render_fields_exec(fs, i + 1);
            let r = head.concat(", ").concat(rest.as_str());
            proof {
                assert(r@ =~= render_fields(fs_of(fs@), i as int));
            }
            r
        } else {
            proof {
                assert(head@ =~= render_fields(fs_of(fs@), i as int));
            }
            head
        }
    }
}

impl Clone for MValue {
    /// Cloning preserves the model value.
    fn clone(&self) -> (r: Self)
        ensures
            r@ == self@,
    {
        self.deep_clone()
    }
}

} // verus!
