//! Serialized values tagged with the name of their type.

use vstd::prelude::*;

verus! {

/// A serialized component or resource value together with the name of its type.
///
/// The bytes are opaque to this library: it only stores, copies and compares them.
pub struct TypedValue {
    pub name: String,
    pub data: Vec<u8>,
}

/// The mathematical content of a [`TypedValue`].
pub struct ValueView {
    pub name: Seq<char>,
    pub data: Seq<u8>,
}

impl View for TypedValue {
    type V = ValueView;

    open spec fn view(&self) -> ValueView {
        ValueView { name: self.name@, data: self.data@ }
    }
}

impl DeepView for TypedValue {
    type V = ValueView;

    open spec fn deep_view(&self) -> ValueView {
        self@
    }
}

/// The first index at or after `from` whose value has the type `name`.
pub open spec fn find_type_from(values: Seq<ValueView>, name: Seq<char>, from: int) -> Option<int>
    decreases values.len() - from,
{
    if from < 0 || from >= values.len() {
        None
    } else if values[from].name == name {
        Some(from)
    } else {
        find_type_from(values, name, from + 1)
    }
}

/// The first index whose value has the type `name`.
pub open spec fn find_type(values: Seq<ValueView>, name: Seq<char>) -> Option<int> {
    find_type_from(values, name, 0)
}

/// Whether some value of `values` has the type `name`.
pub open spec fn has_type(values: Seq<ValueView>, name: Seq<char>) -> bool {
    exists|i: int| 0 <= i < values.len() && #[trigger] values[i].name == name
}

/// No two values of `values` have the same type.
pub open spec fn distinct_types(values: Seq<ValueView>) -> bool {
    forall|i: int, j: int|
        0 <= i < j < values.len() ==> #[trigger] values[i].name != #[trigger] values[j].name
}

/// `values` with `value` written over the first value of its type, or appended
/// where there is none.
pub open spec fn put_value(values: Seq<ValueView>, value: ValueView) -> Seq<ValueView> {
    match find_type(values, value.name) {
        Some(i) => values.update(i, value),
        None => values.push(value),
    }
}

/// What `find_type_from` returns: the first match at or after `from`, if any.
pub proof fn lemma_find_type_from(values: Seq<ValueView>, name: Seq<char>, from: int)
    requires
        0 <= from,
    ensures
        match find_type_from(values, name, from) {
            Some(i) => from <= i < values.len() && values[i].name == name && forall|j: int|
                from <= j < i ==> (#[trigger] values[j]).name != name,
            None => forall|j: int|
                from <= j < values.len() ==> (#[trigger] values[j]).name != name,
        },
    decreases values.len() - from,
{
    if from < values.len() && values[from].name != name {
        lemma_find_type_from(values, name, from + 1);
    }
}

/// `find_type` finds a type exactly when a value of that type is present.
pub proof fn lemma_find_type(values: Seq<ValueView>, name: Seq<char>)
    ensures
        find_type(values, name) is Some <==> has_type(values, name),
        find_type(values, name) matches Some(i) ==> 0 <= i < values.len() && values[i].name
            == name,
{
    lemma_find_type_from(values, name, 0);
}

/// Writing a value keeps the types distinct, keeps every other type's value and
/// makes the written value the one of its type.
pub proof fn lemma_put_value(values: Seq<ValueView>, value: ValueView)
    requires
        distinct_types(values),
    ensures
        distinct_types(put_value(values, value)),
        find_type(put_value(values, value), value.name) matches Some(i) && put_value(
            values,
            value,
        )[i] == value,
        forall|name: Seq<char>|
            name != value.name ==> find_type(put_value(values, value), name) == find_type(
                values,
                name,
            ),
        put_value(values, value).len() == values.len() + (if has_type(values, value.name) {
            0int
        } else {
            1int
        }),
{
    let out = put_value(values, value);
    lemma_find_type(values, value.name);
    lemma_find_type_from(values, value.name, 0);
    lemma_find_type_from(out, value.name, 0);
    match find_type(values, value.name) {
        Some(i) => {
            assert(out[i].name == value.name);
        },
        None => {
            assert(out[values.len() as int].name == value.name);
        },
    }
    assert forall|name: Seq<char>| name != value.name implies find_type(out, name)
        == find_type(values, name) by {
        lemma_find_type_from(values, name, 0);
        lemma_find_type_from(out, name, 0);
        match find_type(values, name) {
            Some(k) => {
                assert(out[k].name == name);
            },
            None => {},
        }
        match find_type(out, name) {
            Some(k) => {
                assert(values[k].name == name);
            },
            None => {},
        }
    }
}

impl TypedValue {
    /// A value of the type `name` holding `data`.
    pub fn new(name: &str, data: Vec<u8>) -> (value: TypedValue)
        ensures
            value@ == (ValueView { name: name@, data: data@ }),
    {
        TypedValue { name: name.to_owned(), data }
    }

    /// The name of the value's type.
    pub fn name(&self) -> (name: &String)
        ensures
            name@ == self@.name,
    {
        &self.name
    }

    /// A deep copy that shares nothing with `self`.
    pub fn clone_value(&self) -> (copy: TypedValue)
        ensures
            copy@ == self@,
    {
        let mut data: Vec<u8> = Vec::new();
        let mut i: usize = 0;
        while i < self.data.len()
            invariant
                i <= self.data.len(),
                data@ == self.data@.take(i as int),
            decreases self.data.len() - i,
        {
            data.push(self.data[i]);
            i += 1;
        }
        assert(self.data@.take(self.data.len() as int) == self.data@);
        TypedValue { name: self.name.clone(), data }
    }
}

/// The position of the first value of the type `name` in `values`.
pub fn position_of_type(values: &Vec<TypedValue>, name: &String) -> (found: Option<usize>)
    ensures
        match found {
            Some(i) => find_type(values.deep_view(), name@) == Some(i as int),
            None => find_type(values.deep_view(), name@) is None,
        },
{
    let mut i: usize = 0;
    while i < values.len()
        invariant
            i <= values.len(),
            find_type_from(values.deep_view(), name@, i as int) == find_type(
                values.deep_view(),
                name@,
            ),
        decreases values.len() - i,
    {
        if values[i].name == *name {
            return Some(i);
        }
        i += 1;
    }
    None
}

/// Writes `value` over the first value of its type in `values`, or appends
/// it where there is none.
pub fn put(values: &mut Vec<TypedValue>, value: TypedValue)
    ensures
        final(values).deep_view() == put_value(old(values).deep_view(), value@),
{
    let ghost before = values.deep_view();
    proof {
        lemma_find_type(before, value@.name);
    }
    match position_of_type(values, &value.name) {
        Some(i) => {
            values[i] = value;
            assert(values.deep_view() =~= before.update(i as int, value@));
        },
        None => {
            values.push(value);
            assert(values.deep_view() =~= before.push(value@));
        },
    }
}

} // verus!
