//! Metadata filters: the expression language, its meaning on a document,
//! and the compiled form that is evaluated against candidates.
//!
//! A field is named by a dotted path. Arrays are looked through: a test
//! holds of an array when it holds of one of its elements, at any depth of
//! the path. A test on a path that reaches nothing is false.

use vstd::prelude::*;
use crate::text::{chars_of, split_chars, split_on, str_views, strings_of, views};
use crate::value::{copy_values, json_same, num_le, num_lt, number_le, number_lt, text_eq, values_view, Json, JsonValue};

verus! {

/// A test on one value.
pub enum Check {
    /// Equal to the operand, type and all.
    Eq(Json),
    /// Not equal to the operand.
    Ne(Json),
    /// A number less than the operand.
    Lt(u64),
    /// A number at most the operand.
    Le(u64),
    /// A number greater than the operand.
    Gt(u64),
    /// A number at least the operand.
    Ge(u64),
    /// Equal to one of the operands.
    In(Seq<Json>),
    /// Equal to none of the operands.
    Nin(Seq<Json>),
    /// Any value at all.
    Anything,
    /// Any value but null.
    NonNull,
}

/// `x` equals one of `vs`.
pub open spec fn among(x: Json, vs: Seq<Json>) -> bool {
    exists|j: int| 0 <= j < vs.len() && json_same(x, #[trigger] vs[j])
}

/// JsonValue `x` passes test `c`. A comparison with a number is false of
/// everything that is no number.
pub open spec fn check_holds(c: Check, x: Json) -> bool {
    match c {
        Check::Eq(v) => json_same(x, v),
        Check::Ne(v) => !json_same(x, v),
        Check::Lt(n) => x is Number && num_lt(x->Number_0, n),
        Check::Le(n) => x is Number && num_le(x->Number_0, n),
        Check::Gt(n) => x is Number && num_lt(n, x->Number_0),
        Check::Ge(n) => x is Number && num_le(n, x->Number_0),
        Check::In(vs) => among(x, vs),
        Check::Nin(vs) => !among(x, vs),
        Check::Anything => true,
        Check::NonNull => !(x is Null),
    }
}

/// Some value reached from `v` along `path` passes `c`. Each segment of the
/// path names a field of an object; an array stands for each of its
/// elements.
pub open spec fn reaches(c: Check, v: Json, path: Seq<Seq<char>>) -> bool
    decreases v,
{
    match v {
        Json::Array(items) => exists|i: int|
            0 <= i < items.len() && reaches(c, #[trigger] items[i], path),
        Json::Object(fields) => if path.len() == 0 {
            check_holds(c, v)
        } else {
            exists|i: int|
                0 <= i < fields.len() && (#[trigger] fields[i]).0 == path[0] && reaches(
                    c,
                    fields[i].1,
                    path.drop_first(),
                )
        },
        _ => path.len() == 0 && check_holds(c, v),
    }
}

/// A filter expression.
#[derive(Debug)]
pub enum FilterExpr {
    /// Every operand holds; true without operands.
    And(Vec<FilterExpr>),
    /// Some operand holds; false without operands.
    Or(Vec<FilterExpr>),
    Not(Box<FilterExpr>),
    Eq(String, JsonValue),
    Ne(String, JsonValue),
    Lt(String, u64),
    Le(String, u64),
    Gt(String, u64),
    Ge(String, u64),
    In(String, Vec<JsonValue>),
    Nin(String, Vec<JsonValue>),
    Exists(String),
    MissingOrNull(String),
}

/// The segments of a dotted path.
pub open spec fn segments(field: Seq<char>) -> Seq<Seq<char>> {
    split_on(field, '.')
}

/// A dotted path is well formed when no segment is empty.
pub open spec fn path_ok(field: Seq<char>) -> bool {
    forall|i: int| 0 <= i < segments(field).len() ==> (#[trigger] segments(field)[i]).len() > 0
}

/// Expression `e` holds of document `doc`.
pub open spec fn holds(e: FilterExpr, doc: Json) -> bool
    decreases e,
{
    match e {
        FilterExpr::And(cs) => forall|i: int| 0 <= i < cs@.len() ==> holds(#[trigger] cs@[i], doc),
        FilterExpr::Or(cs) => exists|i: int| 0 <= i < cs@.len() && holds(#[trigger] cs@[i], doc),
        FilterExpr::Not(c) => !holds(*c, doc),
        FilterExpr::Eq(f, v) => reaches(Check::Eq(v@), doc, segments(f@)),
        FilterExpr::Ne(f, v) => reaches(Check::Ne(v@), doc, segments(f@)),
        FilterExpr::Lt(f, n) => reaches(Check::Lt(n), doc, segments(f@)),
        FilterExpr::Le(f, n) => reaches(Check::Le(n), doc, segments(f@)),
        FilterExpr::Gt(f, n) => reaches(Check::Gt(n), doc, segments(f@)),
        FilterExpr::Ge(f, n) => reaches(Check::Ge(n), doc, segments(f@)),
        FilterExpr::In(f, vs) => reaches(Check::In(values_view(vs@)), doc, segments(f@)),
        FilterExpr::Nin(f, vs) => reaches(Check::Nin(values_view(vs@)), doc, segments(f@)),
        FilterExpr::Exists(f) => reaches(Check::Anything, doc, segments(f@)),
        FilterExpr::MissingOrNull(f) => !reaches(Check::NonNull, doc, segments(f@)),
    }
}

/// Every path that `e` names is well formed.
pub open spec fn paths_ok(e: FilterExpr) -> bool
    decreases e,
{
    match e {
        FilterExpr::And(cs) => forall|i: int| 0 <= i < cs@.len() ==> paths_ok(#[trigger] cs@[i]),
        FilterExpr::Or(cs) => forall|i: int| 0 <= i < cs@.len() ==> paths_ok(#[trigger] cs@[i]),
        FilterExpr::Not(c) => paths_ok(*c),
        FilterExpr::Eq(f, _) => path_ok(f@),
        FilterExpr::Ne(f, _) => path_ok(f@),
        FilterExpr::Lt(f, _) => path_ok(f@),
        FilterExpr::Le(f, _) => path_ok(f@),
        FilterExpr::Gt(f, _) => path_ok(f@),
        FilterExpr::Ge(f, _) => path_ok(f@),
        FilterExpr::In(f, _) => path_ok(f@),
        FilterExpr::Nin(f, _) => path_ok(f@),
        FilterExpr::Exists(f) => path_ok(f@),
        FilterExpr::MissingOrNull(f) => path_ok(f@),
    }
}

/// The test at a leaf of a compiled filter.
#[derive(Debug)]
pub enum Test {
    Eq(JsonValue),
    Ne(JsonValue),
    Lt(u64),
    Le(u64),
    Gt(u64),
    Ge(u64),
    In(Vec<JsonValue>),
    Nin(Vec<JsonValue>),
    Exists,
    /// Holds when no value but null is reached.
    MissingOrNull,
}

impl Test {
    /// The test on one value that this leaf searches for.
    pub open spec fn check(self) -> Check {
        match self {
            Test::Eq(v) => Check::Eq(v@),
            Test::Ne(v) => Check::Ne(v@),
            Test::Lt(n) => Check::Lt(n),
            Test::Le(n) => Check::Le(n),
            Test::Gt(n) => Check::Gt(n),
            Test::Ge(n) => Check::Ge(n),
            Test::In(vs) => Check::In(values_view(vs@)),
            Test::Nin(vs) => Check::Nin(values_view(vs@)),
            Test::Exists => Check::Anything,
            Test::MissingOrNull => Check::NonNull,
        }
    }

    /// Whether value `x` passes the test that this leaf searches for.
    pub fn accepts(&self, x: &JsonValue) -> (r: bool)
        ensures
            r == check_holds(self.check(), x@),
    {
        match self {
            Test::Eq(v) => x.same(v),
            Test::Ne(v) => !x.same(v),
            Test::Lt(n) => match x {
                JsonValue::Number(a, _) => number_lt(*a, *n),
                _ => false,
            },
            Test::Le(n) => match x {
                JsonValue::Number(a, _) => number_le(*a, *n),
                _ => false,
            },
            Test::Gt(n) => match x {
                JsonValue::Number(a, _) => number_lt(*n, *a),
                _ => false,
            },
            Test::Ge(n) => match x {
                JsonValue::Number(a, _) => number_le(*n, *a),
                _ => false,
            },
            Test::In(vs) => one_of(x, vs),
            Test::Nin(vs) => !one_of(x, vs),
            Test::Exists => true,
            Test::MissingOrNull => match x {
                JsonValue::Null => false,
                _ => true,
            },
        }
    }
}

/// Whether `x` equals one of `vs`.
pub fn one_of(x: &JsonValue, vs: &Vec<JsonValue>) -> (r: bool)
    ensures
        r == among(x@, values_view(vs@)),
{
    let mut i: usize = 0;
    while i < vs.len()
        invariant
            i <= vs.len(),
            forall|j: int| 0 <= j < i ==> !json_same(x@, #[trigger] values_view(vs@)[j]),
        decreases vs.len() - i,
    {
        if x.same(&vs[i]) {
            assert(json_same(x@, values_view(vs@)[i as int]));
            return true;
        }
        i += 1;
    }
    false
}

/// Whether some value reached from `v` along `path`, from segment `from`
/// on, passes `test`.
#[verifier::loop_isolation(false)]
fn reach(test: &Test, v: &JsonValue, path: &Vec<String>, from: usize) -> (r: bool)
    requires
        from <= path@.len(),
    ensures
        r == reaches(test.check(), v@, str_views(path@).skip(from as int)),
    decreases v,
{
    let ghost rest = str_views(path@).skip(from as int);
    match v {
        JsonValue::Array(items) => {
            let mut i: usize = 0;
            while i < items.len()
                invariant
                    i <= items.len(),
                    forall|k: int| 0 <= k < i ==> !reaches(test.check(), #[trigger] v@->Array_0[k], rest),
                decreases items.len() - i,
            {
                if reach(test, &items[i], path, from) {
                    assert(reaches(test.check(), v@->Array_0[i as int], rest));
                    return true;
                }
                i += 1;
            }
            false
        },
        JsonValue::Object(fields) => {
            if from == path.len() {
                test.accepts(v)
            } else {
                let ghost inner = str_views(path@).skip(from as int + 1);
                assert(rest.drop_first() =~= inner);
                assert(rest[0] == path@[from as int]@);
                let mut i: usize = 0;
                while i < fields.len()
                    invariant
                        i <= fields.len(),
                        forall|k: int|
                            0 <= k < i ==> !((#[trigger] v@->Object_0[k]).0 == rest[0] && reaches(
                                test.check(),
                                v@->Object_0[k].1,
                                inner,
                            )),
                    decreases fields.len() - i,
                {
                    if text_eq(fields[i].0.as_str(), path[from].as_str()) && reach(
                        test,
                        &fields[i].1,
                        path,
                        from + 1,
                    ) {
                        assert(v@->Object_0[i as int].0 == rest[0] && reaches(
                            test.check(),
                            v@->Object_0[i as int].1,
                            inner,
                        ));
                        return true;
                    }
                    i += 1;
                }
                false
            }
        },
        _ => from == path.len() && test.accepts(v),
    }
}

/// A compiled filter: paths are split once, tests are ready to run.
#[derive(Debug)]
pub enum Filter {
    All(Vec<Filter>),
    Any(Vec<Filter>),
    Not(Box<Filter>),
    Field(Vec<String>, Test),
}

/// Compiled filter `f` holds of document `doc`.
pub open spec fn satisfied(f: Filter, doc: Json) -> bool
    decreases f,
{
    match f {
        Filter::All(cs) => forall|i: int| 0 <= i < cs@.len() ==> satisfied(#[trigger] cs@[i], doc),
        Filter::Any(cs) => exists|i: int| 0 <= i < cs@.len() && satisfied(#[trigger] cs@[i], doc),
        Filter::Not(c) => !satisfied(*c, doc),
        Filter::Field(path, test) => if test is MissingOrNull {
            !reaches(test.check(), doc, str_views(path@))
        } else {
            reaches(test.check(), doc, str_views(path@))
        },
    }
}

impl Filter {
    /// Whether the filter holds of `doc`. Operands are tried in order and
    /// only as far as needed.
    #[verifier::loop_isolation(false)]
    pub fn eval(&self, doc: &JsonValue) -> (r: bool)
        ensures
            r == satisfied(*self, doc@),
        decreases self,
    {
        match self {
            Filter::All(cs) => {
                let mut i: usize = 0;
                while i < cs.len()
                    invariant
                        i <= cs.len(),
                        forall|k: int| 0 <= k < i ==> satisfied(#[trigger] cs@[k], doc@),
                    decreases cs.len() - i,
                {
                    if !cs[i].eval(doc) {
                        return false;
                    }
                    i += 1;
                }
                true
            },
            Filter::Any(cs) => {
                let mut i: usize = 0;
                while i < cs.len()
                    invariant
                        i <= cs.len(),
                        forall|k: int| 0 <= k < i ==> !satisfied(#[trigger] cs@[k], doc@),
                    decreases cs.len() - i,
                {
                    if cs[i].eval(doc) {
                        return true;
                    }
                    i += 1;
                }
                false
            },
            Filter::Not(c) => !c.eval(doc),
            Filter::Field(path, test) => {
                assert(str_views(path@).skip(0) =~= str_views(path@));
                let found = reach(test, doc, path, 0);
                match test {
                    Test::MissingOrNull => !found,
                    _ => found,
                }
            },
        }
    }
}

/// Why a filter expression was refused.
#[derive(Debug)]
pub enum FilterError {
    /// A field path is empty or has an empty segment.
    MalformedPath(String),
}

/// Splits a dotted path; `None` when it is malformed.
pub fn compile_path(field: &str) -> (r: Option<Vec<String>>)
    ensures
        r is Some <==> path_ok(field@),
        r is Some ==> str_views(r->Some_0@) == segments(field@),
{
    let parts = split_chars(&chars_of(field), '.');
    let mut i: usize = 0;
    while i < parts.len()
        invariant
            i <= parts.len(),
            views(parts@) == segments(field@),
            forall|k: int| 0 <= k < i ==> (#[trigger] segments(field@)[k]).len() > 0,
        decreases parts.len() - i,
    {
        if parts[i].len() == 0 {
            assert(segments(field@)[i as int] == parts@[i as int]@);
            return None;
        }
        i += 1;
    }
    Some(strings_of(&parts))
}

/// The leaf that tests `field` with `test`, or the error for its path.
fn compile_leaf(field: &String, test: Test) -> (r: Result<Filter, FilterError>)
    ensures
        r is Ok <==> path_ok(field@),
        r is Ok ==> forall|doc: Json| #[trigger]
            satisfied(r->Ok_0, doc) == if test is MissingOrNull {
                !reaches(test.check(), doc, segments(field@))
            } else {
                reaches(test.check(), doc, segments(field@))
            },
{
    match compile_path(field.as_str()) {
        Some(path) => {
            let f = Filter::Field(path, test);
            assert forall|doc: Json| #[trigger]
                satisfied(f, doc) == if test is MissingOrNull {
                    !reaches(test.check(), doc, segments(field@))
                } else {
                    reaches(test.check(), doc, segments(field@))
                } by {
                assert(f->Field_0 == path && f->Field_1 == test);
            }
            Ok(f)
        },
        None => Err(FilterError::MalformedPath(field.clone())),
    }
}

/// Compiles each operand; fails on the first that names a malformed path.
#[verifier::loop_isolation(false)]
fn compile_all(cs: &Vec<FilterExpr>) -> (r: Result<Vec<Filter>, FilterError>)
    ensures
        r is Ok <==> forall|i: int| 0 <= i < cs@.len() ==> paths_ok(#[trigger] cs@[i]),
        r is Ok ==> r->Ok_0@.len() == cs@.len() && forall|i: int, doc: Json|
            #![trigger satisfied(r->Ok_0@[i], doc)]
            #![trigger holds(cs@[i], doc)]
            0 <= i < cs@.len() ==> satisfied(r->Ok_0@[i], doc) == holds(cs@[i], doc),
    decreases cs, 0nat,
{
    let mut out: Vec<Filter> = Vec::new();
    let mut i: usize = 0;
    while i < cs.len()
        invariant
            i <= cs.len(),
            out@.len() == i,
            forall|k: int| 0 <= k < i ==> paths_ok(#[trigger] cs@[k]),
            forall|k: int, doc: Json|
                #![trigger satisfied(out@[k], doc)]
                #![trigger holds(cs@[k], doc)]
                0 <= k < i ==> satisfied(out@[k], doc) == holds(cs@[k], doc),
        decreases cs.len() - i,
    {
        match compile(&cs[i]) {
            Ok(f) => {
                out.push(f);
            },
            Err(e) => {
                assert(!paths_ok(cs@[i as int]));
                return Err(e);
            },
        }
        i += 1;
    }
    Ok(out)
}

/// Compiles an expression. It is refused exactly when one of its paths is
/// malformed; otherwise the compiled filter holds of the same documents as
/// the expression.
pub fn compile(e: &FilterExpr) -> (r: Result<Filter, FilterError>)
    ensures
        r is Ok <==> paths_ok(*e),
        r is Ok ==> forall|doc: Json| #[trigger] satisfied(r->Ok_0, doc) == holds(*e, doc),
    decreases e, 1nat,
{
    match e {
        FilterExpr::And(cs) => match compile_all(cs) {
            Ok(fs) => {
                let f = Filter::All(fs);
                assert forall|doc: Json| #[trigger] satisfied(f, doc) == holds(*e, doc) by {
                    assert(f->All_0 == fs);
                    assert(satisfied(f, doc) == (forall|i: int|
                        0 <= i < fs@.len() ==> satisfied(#[trigger] fs@[i], doc)));
                    if satisfied(f, doc) {
                        assert forall|i: int| 0 <= i < cs@.len() implies holds(
                            #[trigger] cs@[i],
                            doc,
                        ) by {
                            assert(satisfied(fs@[i], doc));
                        }
                    }
                    if holds(*e, doc) {
                        assert forall|i: int| 0 <= i < fs@.len() implies satisfied(
                            #[trigger] fs@[i],
                            doc,
                        ) by {
                            assert(holds(cs@[i], doc));
                        }
                    }
                }
                Ok(f)
            },
            Err(x) => Err(x),
        },
        FilterExpr::Or(cs) => match compile_all(cs) {
            Ok(fs) => {
                let f = Filter::Any(fs);
                assert forall|doc: Json| #[trigger] satisfied(f, doc) == holds(*e, doc) by {
                    assert(f->Any_0 == fs);
                    assert(satisfied(f, doc) == (exists|i: int|
                        0 <= i < fs@.len() && satisfied(#[trigger] fs@[i], doc)));
                    if holds(*e, doc) {
                        let i = choose|i: int| 0 <= i < cs@.len() && holds(#[trigger] cs@[i], doc);
                        assert(satisfied(fs@[i], doc));
                    }
                    if satisfied(f, doc) {
                        let i = choose|i: int| 0 <= i < fs@.len() && satisfied(#[trigger] fs@[i], doc);
                        assert(holds(cs@[i], doc));
                    }
                }
                Ok(f)
            },
            Err(x) => Err(x),
        },
        FilterExpr::Not(c) => match compile(c) {
            Ok(f0) => {
                let f = Filter::Not(Box::new(f0));
                assert forall|doc: Json| #[trigger] satisfied(f, doc) == holds(*e, doc) by {
                    assert(satisfied(f, doc) == !satisfied(f0, doc));
                }
                Ok(f)
            },
            Err(x) => Err(x),
        },
        FilterExpr::Eq(f, v) => compile_leaf(f, Test::Eq(v.copy())),
        FilterExpr::Ne(f, v) => compile_leaf(f, Test::Ne(v.copy())),
        FilterExpr::Lt(f, n) => compile_leaf(f, Test::Lt(*n)),
        FilterExpr::Le(f, n) => compile_leaf(f, Test::Le(*n)),
        FilterExpr::Gt(f, n) => compile_leaf(f, Test::Gt(*n)),
        FilterExpr::Ge(f, n) => compile_leaf(f, Test::Ge(*n)),
        FilterExpr::In(f, vs) => compile_leaf(f, Test::In(copy_values(vs))),
        FilterExpr::Nin(f, vs) => compile_leaf(f, Test::Nin(copy_values(vs))),
        FilterExpr::Exists(f) => compile_leaf(f, Test::Exists),
        FilterExpr::MissingOrNull(f) => compile_leaf(f, Test::MissingOrNull),
    }
}

/// The JSON type of a value.
#[derive(PartialEq, Eq, Structural)]
pub enum Kind {
    Null,
    Bool,
    Number,
    Text,
    Array,
    Object,
}

/// The JSON type of `v`.
pub open spec fn kind_of(v: Json) -> Kind {
    match v {
        Json::Null => Kind::Null,
        Json::Bool(_) => Kind::Bool,
        Json::Number(_, _) => Kind::Number,
        Json::Text(_) => Kind::Text,
        Json::Array(_) => Kind::Array,
        Json::Object(_) => Kind::Object,
    }
}

/// Negating twice changes nothing: `Not(Not(e))` holds of exactly the
/// documents of which `e` holds.
pub proof fn law_double_negation(e: FilterExpr, doc: Json)
    ensures
        holds(FilterExpr::Not(Box::new(FilterExpr::Not(Box::new(e)))), doc) == holds(e, doc),
{
    let inner = FilterExpr::Not(Box::new(e));
    let outer = FilterExpr::Not(Box::new(inner));
    assert(holds(outer, doc) == !holds(inner, doc));
    assert(holds(inner, doc) == !holds(e, doc));
}

/// A conjunction without operands holds of every document.
pub proof fn law_empty_and(operands: Vec<FilterExpr>, doc: Json)
    requires
        operands@.len() == 0,
    ensures
        holds(FilterExpr::And(operands), doc),
{
}

/// A disjunction without operands holds of no document.
pub proof fn law_empty_or(operands: Vec<FilterExpr>, doc: Json)
    requires
        operands@.len() == 0,
    ensures
        !holds(FilterExpr::Or(operands), doc),
{
}

/// Equality is strict about types: equal values have the same JSON type.
pub proof fn law_equal_values_have_one_type(a: Json, b: Json)
    requires
        json_same(a, b),
    ensures
        kind_of(a) == kind_of(b),
{
}

/// An equality test passes only values of the operand's type.
pub proof fn law_eq_is_typed(x: Json, operand: Json)
    requires
        check_holds(Check::Eq(operand), x),
    ensures
        kind_of(x) == kind_of(operand),
{
}

/// A path whose first segment names no field of the document reaches
/// nothing: no test passes.
pub proof fn law_missing_field_reaches_nothing(c: Check, fields: Seq<(Seq<char>, Json)>, path: Seq<Seq<char>>)
    requires
        path.len() > 0,
        forall|i: int| 0 <= i < fields.len() ==> (#[trigger] fields[i]).0 != path[0],
    ensures
        !reaches(c, Json::Object(fields), path),
{
}

/// On a document that lacks the field, `MissingOrNull` holds and `Exists`
/// and `Eq` do not.
pub proof fn law_missing_field(field: String, operand: JsonValue, fields: Seq<(Seq<char>, Json)>)
    requires
        forall|i: int| 0 <= i < fields.len() ==> (#[trigger] fields[i]).0 != segments(field@)[0],
    ensures
        holds(FilterExpr::MissingOrNull(field), Json::Object(fields)),
        !holds(FilterExpr::Exists(field), Json::Object(fields)),
        !holds(FilterExpr::Eq(field, operand), Json::Object(fields)),
        !holds(FilterExpr::Ne(field, operand), Json::Object(fields)),
{
    crate::text::lemma_split_nonempty(field@, '.');
    law_missing_field_reaches_nothing(Check::NonNull, fields, segments(field@));
    law_missing_field_reaches_nothing(Check::Anything, fields, segments(field@));
    law_missing_field_reaches_nothing(Check::Eq(operand@), fields, segments(field@));
    law_missing_field_reaches_nothing(Check::Ne(operand@), fields, segments(field@));
}

} // verus!
