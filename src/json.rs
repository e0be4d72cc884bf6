use vstd::prelude::*;

verus! {

broadcast use {vstd::seq::group_seq_axioms, vstd::std_specs::vec::group_vec_axioms};

/// A JSON number in the forms a JSON document carries: a non-negative
/// integer, a negative integer, or a double held as its IEEE-754 bit pattern.
#[derive(Clone, Copy, Debug)]
pub enum Number {
    PosInt(u64),
    NegInt(i64),
    Float(u64),
}

/// A JSON document. Object members keep the order they were given in; where
/// a key occurs twice, the first member wins.
#[derive(Debug)]
pub enum JsonValue {
    Null,
    Bool(bool),
    Number(Number),
    String(String),
    Array(Vec<JsonValue>),
    Object(Vec<(String, JsonValue)>),
}

/// The mathematical model of a JSON document.
pub enum JsonView {
    Null,
    Bool(bool),
    Number(Number),
    String(Seq<char>),
    Array(Seq<JsonView>),
    Object(Seq<(Seq<char>, JsonView)>),
}

/// The bit pattern of the double nearest to an unsigned integer.
pub uninterp spec fn u64_double(u: u64) -> u64;

/// The bit pattern of the double nearest to a signed integer.
pub uninterp spec fn i64_double(i: i64) -> u64;

/// Relies on `serde_json::Number::as_f64` for an integer that fits `u64`:
/// the nearest double, which is never NaN, taken here as its bit pattern.
#[verifier::external_body]
fn double_of_u64(u: u64) -> (r: Option<u64>)
    ensures
        r == Some(u64_double(u)),
        r is Some ==> !double_is_nan(r->0),
{
    serde_json::Number::from(u).as_f64().map(|x| x.to_bits())
}

/// Relies on `serde_json::Number::as_f64` for an integer that fits `i64`:
/// the nearest double, which is never NaN, taken here as its bit pattern.
#[verifier::external_body]
fn double_of_i64(i: i64) -> (r: Option<u64>)
    ensures
        r == Some(i64_double(i)),
        r is Some ==> !double_is_nan(r->0),
{
    serde_json::Number::from(i).as_f64().map(|x| x.to_bits())
}

/// The sign bit of a double's bit pattern.
pub const SIGN_BIT: u64 = 0x8000_0000_0000_0000;

/// One more than the largest mantissa of a double: the exponent bits start
/// above it.
pub const MANTISSA_SPAN: u64 = 0x10_0000_0000_0000;

/// A double is NaN when its exponent bits are all set and its mantissa is
/// not zero.
pub open spec fn double_is_nan(bits: u64) -> bool {
    (bits / MANTISSA_SPAN) % 0x800 == 0x7ff && bits % MANTISSA_SPAN != 0
}

/// The position of a double on the number line: doubles that are not NaN
/// compare as their sign-and-magnitude bit patterns do, and both zeros sit
/// at zero.
pub open spec fn double_key(bits: u64) -> int {
    if bits >= SIGN_BIT {
        -(bits - SIGN_BIT)
    } else {
        bits as int
    }
}

/// `a < b` on doubles.
pub open spec fn double_lt(a: u64, b: u64) -> bool {
    !double_is_nan(a) && !double_is_nan(b) && double_key(a) < double_key(b)
}

/// `a <= b` on doubles.
pub open spec fn double_le(a: u64, b: u64) -> bool {
    !double_is_nan(a) && !double_is_nan(b) && double_key(a) <= double_key(b)
}

/// `a == b` on doubles.
pub open spec fn double_eq(a: u64, b: u64) -> bool {
    !double_is_nan(a) && !double_is_nan(b) && double_key(a) == double_key(b)
}

impl Number {
    /// The double a number reads as.
    pub open spec fn spec_double(self) -> u64 {
        match self {
            Number::PosInt(u) => u64_double(u),
            Number::NegInt(i) => i64_double(i),
            Number::Float(bits) => bits,
        }
    }

    /// Equality of numbers: integers by value, doubles as doubles, and an
    /// integer never equals a double.
    pub open spec fn spec_eq(self, other: Number) -> bool {
        match (self, other) {
            (Number::PosInt(a), Number::PosInt(b)) => a == b,
            (Number::NegInt(a), Number::NegInt(b)) => a == b,
            (Number::Float(a), Number::Float(b)) => double_eq(a, b),
            _ => false,
        }
    }

    /// The number read as a double, as its bit pattern.
    pub fn as_double(&self) -> (r: u64)
        ensures
            r == self.spec_double(),
            !(*self is Float) ==> !double_is_nan(r),
    {
        let converted = match self {
            Number::PosInt(u) => double_of_u64(*u),
            Number::NegInt(i) => double_of_i64(*i),
            Number::Float(bits) => Some(*bits),
        };
        match converted {
            Some(bits) => bits,
            None => 0,
        }
    }
}

fn is_nan_bits(bits: u64) -> (r: bool)
    ensures
        r == double_is_nan(bits),
{
    (bits / MANTISSA_SPAN) % 0x800 == 0x7ff && bits % MANTISSA_SPAN != 0
}

fn key_of(bits: u64) -> (r: i64)
    ensures
        r == double_key(bits),
{
    if bits >= SIGN_BIT {
        -((bits - SIGN_BIT) as i64)
    } else {
        bits as i64
    }
}

/// `a < b` on doubles given by their bit patterns.
pub fn double_less(a: u64, b: u64) -> (r: bool)
    ensures
        r == double_lt(a, b),
{
    !is_nan_bits(a) && !is_nan_bits(b) && key_of(a) < key_of(b)
}

/// `a <= b` on doubles given by their bit patterns.
pub fn double_less_equal(a: u64, b: u64) -> (r: bool)
    ensures
        r == double_le(a, b),
{
    !is_nan_bits(a) && !is_nan_bits(b) && key_of(a) <= key_of(b)
}

impl PartialEq for Number {
    fn eq(&self, other: &Number) -> (r: bool) {
        match (self, other) {
            (Number::PosInt(a), Number::PosInt(b)) => *a == *b,
            (Number::NegInt(a), Number::NegInt(b)) => *a == *b,
            (Number::Float(a), Number::Float(b)) => !is_nan_bits(*a) && !is_nan_bits(*b) && key_of(
                *a,
            ) == key_of(*b),
            _ => false,
        }
    }
}

impl vstd::std_specs::cmp::PartialEqSpecImpl for Number {
    open spec fn obeys_eq_spec() -> bool {
        true
    }

    open spec fn eq_spec(&self, other: &Number) -> bool {
        self.spec_eq(*other)
    }
}

impl View for JsonValue {
    type V = JsonView;

    open spec fn view(&self) -> JsonView
        decreases self,
    {
        match self {
            JsonValue::Null => JsonView::Null,
            JsonValue::Bool(b) => JsonView::Bool(*b),
            JsonValue::Number(n) => JsonView::Number(*n),
            JsonValue::String(s) => JsonView::String(s@),
            JsonValue::Array(items) => JsonView::Array(items_view(items@)),
            JsonValue::Object(members) => JsonView::Object(members_view(members@)),
        }
    }
}

/// The models of a sequence of values.
pub open spec fn items_view(items: Seq<JsonValue>) -> Seq<JsonView>
    decreases items,
{
    if items.len() == 0 {
        Seq::empty()
    } else {
        items_view(items.drop_last()).push(items.last().view())
    }
}

/// The models of a sequence of object members.
pub open spec fn members_view(members: Seq<(String, JsonValue)>) -> Seq<(Seq<char>, JsonView)>
    decreases members,
{
    if members.len() == 0 {
        Seq::empty()
    } else {
        members_view(members.drop_last()).push((members.last().0@, members.last().1.view()))
    }
}

/// The model of each element of an array is the model of that element.
pub proof fn lemma_items_view(items: Seq<JsonValue>)
    ensures
        items_view(items).len() == items.len(),
        forall|i: int| 0 <= i < items.len() ==> #[trigger] items_view(items)[i] == items[i]@,
    decreases items.len(),
{
    if items.len() > 0 {
        let init = items.drop_last();
        lemma_items_view(init);
        assert(items_view(items) == items_view(init).push(items.last()@));
        assert forall|i: int| 0 <= i < items.len() implies #[trigger] items_view(items)[i]
            == items[i]@ by {
            if i < init.len() {
                assert(init[i] == items[i]);
            }
        }
    }
}

/// The model of each member of an object is its key's model and its
/// value's model.
pub proof fn lemma_members_view(members: Seq<(String, JsonValue)>)
    ensures
        members_view(members).len() == members.len(),
        forall|i: int|
            0 <= i < members.len() ==> #[trigger] members_view(members)[i] == (
                members[i].0@,
                members[i].1@,
            ),
    decreases members.len(),
{
    if members.len() > 0 {
        let init = members.drop_last();
        lemma_members_view(init);
        assert(members_view(members) == members_view(init).push(
            (members.last().0@, members.last().1@),
        ));
        assert forall|i: int| 0 <= i < members.len() implies #[trigger] members_view(members)[i]
            == (members[i].0@, members[i].1@) by {
            if i < init.len() {
                assert(init[i] == members[i]);
            }
        }
    }
}

/// The index of the first member named `key`, or -1 when there is none.
pub open spec fn key_index(members: Seq<(Seq<char>, JsonView)>, key: Seq<char>) -> int
    decreases members.len(),
{
    if members.len() == 0 {
        -1
    } else if members[0].0 == key {
        0
    } else if key_index(members.drop_first(), key) < 0 {
        -1
    } else {
        key_index(members.drop_first(), key) + 1
    }
}

/// `key_index` finds the first member with the key, or shows there is none.
pub proof fn lemma_key_index(members: Seq<(Seq<char>, JsonView)>, key: Seq<char>)
    ensures
        -1 <= key_index(members, key) < members.len(),
        key_index(members, key) >= 0 ==> members[key_index(members, key)].0 == key,
        forall|j: int|
            0 <= j < members.len() && (key_index(members, key) < 0 || j < key_index(members, key))
                ==> members[j].0 != key,
    decreases members.len(),
{
    if members.len() > 0 && members[0].0 != key {
        let rest = members.drop_first();
        lemma_key_index(rest, key);
        assert forall|j: int|
            0 <= j < members.len() && (key_index(members, key) < 0 || j < key_index(
                members,
                key,
            )) implies members[j].0 != key by {
            if j > 0 {
                assert(members[j] == rest[j - 1]);
            }
        }
    }
}

/// The value of the member named `key`; a missing member reads as null.
pub open spec fn member(members: Seq<(Seq<char>, JsonView)>, key: Seq<char>) -> JsonView {
    if key_index(members, key) < 0 {
        JsonView::Null
    } else {
        members[key_index(members, key)].1
    }
}

/// Two member lists name the same keys.
pub open spec fn same_keys(xs: Seq<(Seq<char>, JsonView)>, ys: Seq<(Seq<char>, JsonView)>) -> bool {
    forall|k: Seq<char>| (#[trigger] key_index(xs, k) >= 0) == (key_index(ys, k) >= 0)
}

/// Deep equality of JSON values: the same kind, numbers equal as numbers,
/// arrays element by element in order, objects with the same keys and equal
/// values under each key.
pub open spec fn deep_eq(a: JsonView, b: JsonView) -> bool
    decreases a,
{
    match (a, b) {
        (JsonView::Null, JsonView::Null) => true,
        (JsonView::Bool(x), JsonView::Bool(y)) => x == y,
        (JsonView::Number(x), JsonView::Number(y)) => x.spec_eq(y),
        (JsonView::String(x), JsonView::String(y)) => x == y,
        (JsonView::Array(xs), JsonView::Array(ys)) => {
            &&& xs.len() == ys.len()
            &&& forall|i: int| 0 <= i < xs.len() ==> deep_eq(xs[i], ys[i])
        },
        (JsonView::Object(xs), JsonView::Object(ys)) => {
            &&& same_keys(xs, ys)
            &&& forall|i: int|
                0 <= i < xs.len() && #[trigger] key_index(xs, xs[i].0) == i ==> deep_eq(
                    xs[i].1,
                    ys[key_index(ys, xs[i].0)].1,
                )
        },
        _ => false,
    }
}

/// The name of a value's kind.
pub open spec fn kind_name(v: JsonView) -> Seq<char> {
    match v {
        JsonView::Null => "null"@,
        JsonView::Bool(_) => "boolean"@,
        JsonView::Number(_) => "number"@,
        JsonView::String(_) => "string"@,
        JsonView::Array(_) => "array"@,
        JsonView::Object(_) => "object"@,
    }
}

/// The name of a value's kind, as error messages give it.
pub fn json_type(value: &JsonValue) -> (r: &'static str)
    ensures
        r@ == kind_name(value@),
{
    match value {
        JsonValue::Null => "null",
        JsonValue::Bool(_) => "boolean",
        JsonValue::Number(_) => "number",
        JsonValue::String(_) => "string",
        JsonValue::Array(_) => "array",
        JsonValue::Object(_) => "object",
    }
}

/// The position of the first member named `key`.
pub fn find_member(members: &Vec<(String, JsonValue)>, key: &String) -> (r: Option<usize>)
    ensures
        key_index(members_view(members@), key@) < 0 ==> r is None,
        key_index(members_view(members@), key@) >= 0 ==> r == Some(
            key_index(members_view(members@), key@) as usize,
        ),
{
    let ghost view = members_view(members@);
    proof {
        lemma_members_view(members@);
        lemma_key_index(view, key@);
    }
    let mut i: usize = 0;
    while i < members.len()
        invariant
            i <= members.len(),
            view == members_view(members@),
            view.len() == members@.len(),
            forall|j: int|
                0 <= j < members@.len() ==> #[trigger] view[j] == (
                    members@[j].0@,
                    members@[j].1@,
                ),
            -1 <= key_index(view, key@) < view.len(),
            key_index(view, key@) >= 0 ==> view[key_index(view, key@)].0 == key@,
            forall|j: int|
                0 <= j < view.len() && (key_index(view, key@) < 0 || j < key_index(view, key@))
                    ==> view[j].0 != key@,
            forall|j: int| 0 <= j < i ==> view[j].0 != key@,
        decreases members.len() - i,
    {
        if members[i].0 == *key {
            assert(view[i as int].0 == key@);
            return Some(i);
        }
        i = i + 1;
    }
    None
}

/// Deep equality of two JSON values.
pub fn values_equal(a: &JsonValue, b: &JsonValue) -> (r: bool)
    ensures
        r == deep_eq(a@, b@),
    decreases a,
{
    match a {
        JsonValue::Null => match b {
            JsonValue::Null => true,
            _ => false,
        },
        JsonValue::Bool(x) => match b {
            JsonValue::Bool(y) => *x == *y,
            _ => false,
        },
        JsonValue::Number(x) => match b {
            JsonValue::Number(y) => *x == *y,
            _ => false,
        },
        JsonValue::String(x) => match b {
            JsonValue::String(y) => *x == *y,
            _ => false,
        },
        JsonValue::Array(xs) => match b {
            JsonValue::Array(ys) => {
                proof {
                    lemma_items_view(xs@);
                    lemma_items_view(ys@);
                }
                if xs.len() != ys.len() {
                    return false;
                }
                let mut i: usize = 0;
                while i < xs.len()
                    invariant
                        i <= xs.len(),
                        xs.len() == ys.len(),
                        *a == JsonValue::Array(*xs),
                        a@ == JsonView::Array(items_view(xs@)),
                        b@ == JsonView::Array(items_view(ys@)),
                        items_view(xs@).len() == xs@.len(),
                        items_view(ys@).len() == ys@.len(),
                        forall|j: int|
                            0 <= j < xs@.len() ==> #[trigger] items_view(xs@)[j] == xs@[j]@,
                        forall|j: int|
                            0 <= j < ys@.len() ==> #[trigger] items_view(ys@)[j] == ys@[j]@,
                        forall|j: int| 0 <= j < i ==> deep_eq(xs@[j]@, ys@[j]@),
                    decreases xs.len() - i,
                {
                    if !values_equal(&xs[i], &ys[i]) {
                        assert(!deep_eq(items_view(xs@)[i as int], items_view(ys@)[i as int]));
                        return false;
                    }
                    i = i + 1;
                }
                assert forall|j: int| 0 <= j < items_view(xs@).len() implies deep_eq(
                    items_view(xs@)[j],
                    items_view(ys@)[j],
                ) by {
                    assert(items_view(xs@)[j] == xs@[j]@);
                    assert(items_view(ys@)[j] == ys@[j]@);
                }
                true
            },
            _ => false,
        },
        JsonValue::Object(xs) => match b {
            JsonValue::Object(ys) => members_equal(a, b, xs, ys),
            _ => false,
        },
    }
}

/// Two member lists agree when they have the same keys and, under each key,
/// deeply equal values.
pub open spec fn members_agree(xv: Seq<(Seq<char>, JsonView)>, yv: Seq<(Seq<char>, JsonView)>) -> bool {
    &&& same_keys(xv, yv)
    &&& forall|i: int|
        0 <= i < xv.len() && #[trigger] key_index(xv, xv[i].0) == i ==> deep_eq(
            xv[i].1,
            yv[key_index(yv, xv[i].0)].1,
        )
}

/// Two objects are deeply equal exactly when their members agree.
pub proof fn lemma_objects_equal(xv: Seq<(Seq<char>, JsonView)>, yv: Seq<(Seq<char>, JsonView)>)
    ensures
        deep_eq(JsonView::Object(xv), JsonView::Object(yv)) == members_agree(xv, yv),
{
    let a = JsonView::Object(xv);
    let b = JsonView::Object(yv);
    if members_agree(xv, yv) {
        assert(deep_eq(a, b));
    }
    if deep_eq(a, b) {
        assert forall|i: int|
                0 <= i < xv.len() && #[trigger] key_index(xv, xv[i].0) == i implies deep_eq(
                    xv[i].1,
                    yv[key_index(yv, xv[i].0)].1,
                ) by {}
    }
}

fn members_equal(
    a: &JsonValue,
    b: &JsonValue,
    xs: &Vec<(String, JsonValue)>,
    ys: &Vec<(String, JsonValue)>,
) -> (r: bool)
    requires
        *a == JsonValue::Object(*xs),
        *b == JsonValue::Object(*ys),
    ensures
        r == deep_eq(a@, b@),
    decreases a, 0nat,
{
    let ghost xv = members_view(xs@);
    let ghost yv = members_view(ys@);
    proof {
        lemma_members_view(xs@);
        lemma_members_view(ys@);
        assert(a@ == JsonView::Object(xv));
        assert(b@ == JsonView::Object(yv));
        lemma_objects_equal(xv, yv);
    }
    let mut j: usize = 0;
    while j < ys.len()
        invariant
            j <= ys.len(),
            xv == members_view(xs@),
            yv == members_view(ys@),
            a@ == JsonView::Object(xv),
            b@ == JsonView::Object(yv),
            deep_eq(a@, b@) == members_agree(xv, yv),
            yv.len() == ys@.len(),
            forall|m: int| 0 <= m < ys@.len() ==> #[trigger] yv[m] == (ys@[m].0@, ys@[m].1@),
            forall|m: int| 0 <= m < j ==> key_index(xv, #[trigger] yv[m].0) >= 0,
        decreases ys.len() - j,
    {
        if find_member(xs, &ys[j].0).is_none() {
            proof {
                let k = yv[j as int].0;
                lemma_key_index(yv, k);
                assert(key_index(yv, k) >= 0);
                assert(key_index(xv, k) < 0);

            }
            return false;
        }
        j = j + 1;
    }
    let mut i: usize = 0;
    while i < xs.len()
        invariant
            i <= xs.len(),
            *a == JsonValue::Object(*xs),
            *b == JsonValue::Object(*ys),
            xv == members_view(xs@),
            yv == members_view(ys@),
            a@ == JsonView::Object(xv),
            b@ == JsonView::Object(yv),
            deep_eq(a@, b@) == members_agree(xv, yv),
            xv.len() == xs@.len(),
            yv.len() == ys@.len(),
            forall|m: int| 0 <= m < xs@.len() ==> #[trigger] xv[m] == (xs@[m].0@, xs@[m].1@),
            forall|m: int| 0 <= m < ys@.len() ==> #[trigger] yv[m] == (ys@[m].0@, ys@[m].1@),
            forall|m: int| 0 <= m < ys@.len() ==> key_index(xv, #[trigger] yv[m].0) >= 0,
            forall|m: int|
                0 <= m < i && key_index(xv, #[trigger] xv[m].0) == m ==> {
                    &&& key_index(yv, xv[m].0) >= 0
                    &&& deep_eq(xv[m].1, yv[key_index(yv, xv[m].0)].1)
                },
        decreases xs.len() - i,
    {
        let key = &xs[i].0;
        proof {
            assert(xv[i as int].0 == key@);
            lemma_key_index(xv, key@);
        }
        let first = find_member(xs, key);
        if first.is_some() && first.unwrap() == i {
            let found = find_member(ys, key);
            match found {
                None => {
                    proof {
                        let k = xv[i as int].0;
                        lemma_key_index(xv, k);
                        assert(key_index(xv, k) >= 0);
                        assert(key_index(yv, k) < 0);
        
                    }
                    return false;
                },
                Some(n) => {
                    proof {
                        lemma_key_index(yv, key@);
                        assert(key_index(yv, key@) >= 0);
                        assert(found == Some(key_index(yv, key@) as usize));
                        assert(key_index(yv, key@) < yv.len());
                        assert(yv.len() == ys.len());
                        assert(n == key_index(yv, key@));
                        assert(yv[n as int] == (ys@[n as int].0@, ys@[n as int].1@));
                        assert(key_index(xv, xv[i as int].0) == i);
                    }
                    if !values_equal(&xs[i].1, &ys[n].1) {
                        return false;
                    }
                },
            }
        }
        i = i + 1;
    }
    proof {
        assert forall|k: Seq<char>| #[trigger]
            key_index(xv, k) >= 0 <==> key_index(yv, k) >= 0 by {
            lemma_key_index(xv, k);
            lemma_key_index(yv, k);
            if key_index(xv, k) >= 0 {
                let m = key_index(xv, k);
                assert(xv[m].0 == k);
                assert(key_index(xv, xv[m].0) == m);
            }
            if key_index(yv, k) >= 0 {
                let m = key_index(yv, k);
                assert(yv[m].0 == k);
            }
        }
    }
    true
}

/// A copy of a JSON value.
pub fn copy_value(v: &JsonValue) -> (r: JsonValue)
    ensures
        r@ == v@,
    decreases v,
{
    match v {
        JsonValue::Null => JsonValue::Null,
        JsonValue::Bool(b) => JsonValue::Bool(*b),
        JsonValue::Number(n) => JsonValue::Number(*n),
        JsonValue::String(s) => JsonValue::String(s.clone()),
        JsonValue::Array(items) => {
            let mut out: Vec<JsonValue> = Vec::new();
            let mut i: usize = 0;
            while i < items.len()
                invariant
                    i <= items.len(),
                    *v == JsonValue::Array(*items),
                    v@ == JsonView::Array(items_view(items@)),
                    out@.len() == i,
                    forall|j: int| 0 <= j < i ==> (#[trigger] out@[j])@ == items@[j]@,
                decreases items.len() - i,
            {
                let item = copy_value(&items[i]);
                out.push(item);
                i = i + 1;
            }
            proof {
                lemma_items_view(items@);
                lemma_items_view(out@);
                assert(items_view(out@) =~= items_view(items@));
            }
            JsonValue::Array(out)
        },
        JsonValue::Object(members) => {
            let mut out: Vec<(String, JsonValue)> = Vec::new();
            let mut i: usize = 0;
            while i < members.len()
                invariant
                    i <= members.len(),
                    *v == JsonValue::Object(*members),
                    v@ == JsonView::Object(members_view(members@)),
                    out@.len() == i,
                    forall|j: int|
                        0 <= j < i ==> (#[trigger] out@[j]).0@ == members@[j].0@ && out@[j].1@
                            == members@[j].1@,
                decreases members.len() - i,
            {
                let value = copy_value(&members[i].1);
                out.push((members[i].0.clone(), value));
                i = i + 1;
            }
            proof {
                lemma_members_view(members@);
                lemma_members_view(out@);
                assert(members_view(out@) =~= members_view(members@));
            }
            JsonValue::Object(out)
        },
    }
}

impl Clone for JsonValue {
    fn clone(&self) -> (r: JsonValue)
        ensures
            r@ == self@,
    {
        copy_value(self)
    }
}

impl PartialEq for JsonValue {
    fn eq(&self, other: &JsonValue) -> (r: bool) {
        values_equal(self, other)
    }
}

impl vstd::std_specs::cmp::PartialEqSpecImpl for JsonValue {
    open spec fn obeys_eq_spec() -> bool {
        true
    }

    open spec fn eq_spec(&self, other: &JsonValue) -> bool {
        deep_eq(self@, other@)
    }
}

impl JsonValue {
    /// Whether the value is an object.
    pub fn is_object(&self) -> (r: bool)
        ensures
            r == (self@ is Object),
    {
        match self {
            JsonValue::Object(_) => true,
            _ => false,
        }
    }

    /// The value of the first member named `key` of an object; `None` where
    /// the object has no such member.
    pub fn get(&self, key: &String) -> (r: Option<&JsonValue>)
        requires
            self@ is Object,
        ensures
            match r {
                Some(v) => key_index(self@->Object_0, key@) >= 0 && v@ == member(
                    self@->Object_0,
                    key@,
                ),
                None => key_index(self@->Object_0, key@) < 0,
            },
    {
        match self {
            JsonValue::Object(members) => {
                proof {
                    lemma_members_view(members@);
                    lemma_key_index(self@->Object_0, key@);
                }
                let ghost view = self@->Object_0;
                let mut i: usize = 0;
                while i < members.len()
                    invariant
                        i <= members.len(),
                        view == self@->Object_0,
                        view.len() == members@.len(),
                        forall|j: int|
                            0 <= j < members@.len() ==> #[trigger] view[j] == (
                                members@[j].0@,
                                members@[j].1@,
                            ),
                        -1 <= key_index(view, key@) < view.len(),
                        key_index(view, key@) >= 0 ==> view[key_index(view, key@)].0 == key@,
                        forall|j: int|
                            0 <= j < view.len() && (key_index(view, key@) < 0 || j < key_index(
                                view,
                                key@,
                            )) ==> view[j].0 != key@,
                        forall|j: int| 0 <= j < i ==> view[j].0 != key@,
                    decreases members.len() - i,
                {
                    if members[i].0 == *key {
                        assert(view[i as int].0 == key@);
                        return Some(&members[i].1);
                    }
                    i = i + 1;
                }
                None
            },
            _ => None,
        }
    }
}

} // verus!
