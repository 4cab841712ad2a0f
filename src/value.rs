use vstd::prelude::*;

verus! {

/// The mathematical meaning of a [`StructuredValue`].
pub enum ValueModel {
    Null,
    Bool(bool),
    Integer(int),
    Float(Seq<char>),
    Str(Seq<char>),
    Array(Seq<ValueModel>),
    Object(Seq<(Seq<char>, ValueModel)>),
}

/// The neutral payload format that crosses the boundary between the host and
/// the rendered content.
///
/// A `Float` holds the decimal text of a finite number that is not an
/// integer, in JSON number syntax (for example `1.5` or `2e-3`); the bridge
/// carries it through unchanged and never computes with it. Non-finite floats
/// have no JSON form and are not represented. An `Object` keeps its members in
/// the order given; keys are strings.
#[derive(Debug)]
pub enum StructuredValue {
    Null,
    Bool(bool),
    Integer(i64),
    Float(String),
    Str(String),
    Array(Vec<StructuredValue>),
    Object(Vec<(String, StructuredValue)>),
}

impl View for StructuredValue {
    type V = ValueModel;

    open spec fn view(&self) -> ValueModel {
        model_of(*self)
    }
}

/// The model of a value, recursively.
pub open spec fn model_of(v: StructuredValue) -> ValueModel
    decreases v,
{
    match v {
        StructuredValue::Null => ValueModel::Null,
        StructuredValue::Bool(b) => ValueModel::Bool(b),
        StructuredValue::Integer(i) => ValueModel::Integer(i as int),
        StructuredValue::Float(t) => ValueModel::Float(t@),
        StructuredValue::Str(s) => ValueModel::Str(s@),
        StructuredValue::Array(items) => ValueModel::Array(views_of(items@)),
        StructuredValue::Object(members) => ValueModel::Object(member_views_of(members@)),
    }
}

impl StructuredValue {
    /// A copy of the value, with the same model.
    pub fn duplicate(&self) -> (r: StructuredValue)
        ensures
            r@ == self@,
        decreases self,
    {
        broadcast use vstd::std_specs::vec::group_vec_axioms;

        match self {
            StructuredValue::Null => StructuredValue::Null,
            StructuredValue::Bool(b) => StructuredValue::Bool(*b),
            StructuredValue::Integer(i) => StructuredValue::Integer(*i),
            StructuredValue::Float(t) => StructuredValue::Float(t.clone()),
            StructuredValue::Str(s) => StructuredValue::Str(s.clone()),
            StructuredValue::Array(items) => {
                let mut out: Vec<StructuredValue> = Vec::new();
                let mut i: usize = 0;
                proof {
                    lemma_views_of(items@);
                }
                while i < items.len()
                    invariant
                        i <= items@.len(),
                        decreases_to!(*self => *items),
                        views_of(items@).len() == items@.len(),
                        forall|j: int| 0 <= j < items@.len() ==> #[trigger] views_of(items@)[j] == items@[j]@,
                        out@.len() == i,
                        forall|j: int| 0 <= j < i ==> #[trigger] out@[j]@ == items@[j]@,
                    decreases items@.len() - i,
                {
                    proof {
                        assert(decreases_to!(items => items[i as int]));
                    }
                    let c = items[i].duplicate();
                    out.push(c);
                    i = i + 1;
                }
                proof {
                    lemma_views_of(out@);
                    assert(views_of(out@) =~= views_of(items@));
                }
                StructuredValue::Array(out)
            },
            StructuredValue::Object(members) => {
                let mut out: Vec<(String, StructuredValue)> = Vec::new();
                let mut i: usize = 0;
                proof {
                    lemma_member_views_of(members@);
                }
                while i < members.len()
                    invariant
                        i <= members@.len(),
                        decreases_to!(*self => *members),
                        member_views_of(members@).len() == members@.len(),
                        forall|j: int|
                            0 <= j < members@.len() ==> #[trigger] member_views_of(members@)[j] == (
                                members@[j].0@,
                                members@[j].1@,
                            ),
                        out@.len() == i,
                        forall|j: int|
                            0 <= j < i ==> (#[trigger] out@[j]).0@ == members@[j].0@ && out@[j].1@
                                == members@[j].1@,
                    decreases members@.len() - i,
                {
                    proof {
                        assert(decreases_to!(members => members[i as int]));
                        assert(decreases_to!(members[i as int] => members[i as int].1));
                    }
                    let k = members[i].0.clone();
                    let c = members[i].1.duplicate();
                    out.push((k, c));
                    i = i + 1;
                }
                proof {
                    lemma_member_views_of(out@);
                    assert(member_views_of(out@) =~= member_views_of(members@));
                }
                StructuredValue::Object(out)
            },
        }
    }
}

/// Whether two values have the same model.
pub fn same_value(a: &StructuredValue, b: &StructuredValue) -> (r: bool)
    ensures
        r == (a@ == b@),
    decreases a,
{
    broadcast use vstd::std_specs::vec::group_vec_axioms;

    match (a, b) {
        (StructuredValue::Null, StructuredValue::Null) => true,
        (StructuredValue::Bool(x), StructuredValue::Bool(y)) => *x == *y,
        (StructuredValue::Integer(x), StructuredValue::Integer(y)) => *x == *y,
        (StructuredValue::Float(x), StructuredValue::Float(y)) => *x == *y,
        (StructuredValue::Str(x), StructuredValue::Str(y)) => *x == *y,
        (StructuredValue::Array(xs), StructuredValue::Array(ys)) => {
            proof {
                lemma_views_of(xs@);
                lemma_views_of(ys@);
            }
            if xs.len() != ys.len() {
                return false;
            }
            let mut i: usize = 0;
            while i < xs.len()
                invariant
                    i <= xs@.len(),
                    xs@.len() == ys@.len(),
                    decreases_to!(*a => *xs),
                    a@ == ValueModel::Array(views_of(xs@)),
                    b@ == ValueModel::Array(views_of(ys@)),
                    views_of(xs@).len() == xs@.len(),
                    views_of(ys@).len() == ys@.len(),
                    forall|j: int| 0 <= j < xs@.len() ==> #[trigger] views_of(xs@)[j] == xs@[j]@,
                    forall|j: int| 0 <= j < ys@.len() ==> #[trigger] views_of(ys@)[j] == ys@[j]@,
                    forall|j: int| 0 <= j < i ==> xs@[j]@ == ys@[j]@,
                decreases xs@.len() - i,
            {
                proof {
                    assert(decreases_to!(xs => xs[i as int]));
                }
                if !same_value(&xs[i], &ys[i]) {
                    proof {
                        assert(views_of(xs@)[i as int] != views_of(ys@)[i as int]);
                    }
                    return false;
                }
                i = i + 1;
            }
            proof {
                assert(views_of(xs@) =~= views_of(ys@));
            }
            true
        },
        (StructuredValue::Object(xs), StructuredValue::Object(ys)) => {
            proof {
                lemma_member_views_of(xs@);
                lemma_member_views_of(ys@);
            }
            if xs.len() != ys.len() {
                return false;
            }
            let mut i: usize = 0;
            while i < xs.len()
                invariant
                    i <= xs@.len(),
                    xs@.len() == ys@.len(),
                    decreases_to!(*a => *xs),
                    a@ == ValueModel::Object(member_views_of(xs@)),
                    b@ == ValueModel::Object(member_views_of(ys@)),
                    member_views_of(xs@).len() == xs@.len(),
                    member_views_of(ys@).len() == ys@.len(),
                    forall|j: int|
                        0 <= j < xs@.len() ==> #[trigger] member_views_of(xs@)[j] == (
                            xs@[j].0@,
                            xs@[j].1@,
                        ),
                    forall|j: int|
                        0 <= j < ys@.len() ==> #[trigger] member_views_of(ys@)[j] == (
                            ys@[j].0@,
                            ys@[j].1@,
                        ),
                    forall|j: int| 0 <= j < i ==> xs@[j].0@ == ys@[j].0@ && xs@[j].1@ == ys@[j].1@,
                decreases xs@.len() - i,
            {
                proof {
                    assert(decreases_to!(xs => xs[i as int]));
                    assert(decreases_to!(xs[i as int] => xs[i as int].1));
                }
                if xs[i].0 != ys[i].0 || !same_value(&xs[i].1, &ys[i].1) {
                    proof {
                        assert(member_views_of(xs@)[i as int] != member_views_of(ys@)[i as int]);
                    }
                    return false;
                }
                i = i + 1;
            }
            proof {
                assert(member_views_of(xs@) =~= member_views_of(ys@));
            }
            true
        },
        _ => false,
    }
}

impl PartialEq for StructuredValue {
    fn eq(&self, other: &StructuredValue) -> (r: bool) {
        same_value(self, other)
    }
}

impl vstd::std_specs::cmp::PartialEqSpecImpl for StructuredValue {
    open spec fn obeys_eq_spec() -> bool {
        true
    }

    open spec fn eq_spec(&self, other: &StructuredValue) -> bool {
        self@ == other@
    }
}

/// The views of a sequence of values, element by element.
pub open spec fn views_of(s: Seq<StructuredValue>) -> Seq<ValueModel>
    decreases s,
{
    if s.len() == 0 {
        Seq::empty()
    } else {
        views_of(s.subrange(0, s.len() - 1)).push(model_of(s[s.len() - 1]))
    }
}

/// The views of a sequence of object members, member by member.
pub open spec fn member_views_of(s: Seq<(String, StructuredValue)>) -> Seq<(Seq<char>, ValueModel)>
    decreases s,
{
    if s.len() == 0 {
        Seq::empty()
    } else {
        member_views_of(s.subrange(0, s.len() - 1)).push(
            (s[s.len() - 1].0@, model_of(s[s.len() - 1].1)),
        )
    }
}

pub proof fn lemma_views_of(s: Seq<StructuredValue>)
    ensures
        views_of(s).len() == s.len(),
        forall|i: int| 0 <= i < s.len() ==> #[trigger] views_of(s)[i] == s[i]@,
    decreases s.len(),
{
    if s.len() > 0 {
        lemma_views_of(s.subrange(0, s.len() - 1));
    }
}

pub proof fn lemma_member_views_of(s: Seq<(String, StructuredValue)>)
    ensures
        member_views_of(s).len() == s.len(),
        forall|i: int|
            0 <= i < s.len() ==> #[trigger] member_views_of(s)[i] == (s[i].0@, s[i].1@),
    decreases s.len(),
{
    if s.len() > 0 {
        lemma_member_views_of(s.subrange(0, s.len() - 1));
    }
}

} // verus!
