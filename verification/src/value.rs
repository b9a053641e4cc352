//! Frozen values of the global environment: values of native types known by
//! their type and their `repr`, structs built field by field, and attributes
//! that hand back a value whatever they are called on.
use vstd::prelude::*;
use vstd::string::*;
use crate::text::{join, join_strings, replace_all, replace_str, views};

verus! {

/// A value that no longer changes once it is in a global environment.
#[derive(Debug, PartialEq, Eq)]
pub enum FrozenValue {
    /// A value of a native type: the name of its type and its `repr` text.
    Native { kind: String, repr: String },
    /// A struct: its fields by name, in the order they were first set.
    Struct(Vec<(String, FrozenValue)>),
    /// An attribute: a function that ignores its receiver and returns the
    /// value it holds.
    Attribute(Box<FrozenValue>),
}

/// A frozen value as plain values.
pub enum ValueView {
    Native { kind: Seq<char>, repr: Seq<char> },
    Struct(Seq<(Seq<char>, ValueView)>),
    Attribute(Box<ValueView>),
}

pub open spec fn value_view(v: FrozenValue) -> ValueView
    decreases v, 1nat,
{
    match v {
        FrozenValue::Native { kind, repr } => ValueView::Native { kind: kind@, repr: repr@ },
        FrozenValue::Struct(fields) => ValueView::Struct(fields_view(fields@)),
        FrozenValue::Attribute(b) => ValueView::Attribute(Box::new(value_view(*b))),
    }
}

/// Named values as plain values, in their order.
pub open spec fn fields_view(fields: Seq<(String, FrozenValue)>) -> Seq<(Seq<char>, ValueView)>
    decreases fields, 0nat,
{
    if fields.len() == 0 {
        Seq::empty()
    } else {
        fields_view(fields.drop_last()).push((fields.last().0@, value_view(fields.last().1)))
    }
}

impl View for FrozenValue {
    type V = ValueView;

    open spec fn view(&self) -> ValueView {
        value_view(*self)
    }
}

/// The view of named values, entry by entry.
pub proof fn lemma_fields_view(fields: Seq<(String, FrozenValue)>)
    ensures
        fields_view(fields).len() == fields.len(),
        forall|i: int|
            0 <= i < fields.len() ==> #[trigger] fields_view(fields)[i] == (
                fields[i].0@,
                value_view(fields[i].1),
            ),
    decreases fields.len(),
{
    if fields.len() > 0 {
        lemma_fields_view(fields.drop_last());
    }
}

/// The name of the type of a value.
pub open spec fn kind_of(v: ValueView) -> Seq<char> {
    match v {
        ValueView::Native { kind, repr } => kind,
        ValueView::Struct(_) => "struct"@,
        ValueView::Attribute(_) => "attribute"@,
    }
}

/// The `repr` text of a value: a struct shows its fields as `name=repr`
/// between `struct(` and `)`, an attribute shows `<attribute>`.
pub open spec fn repr_of(v: ValueView) -> Seq<char>
    decreases v, 1nat,
{
    match v {
        ValueView::Native { kind, repr } => repr,
        ValueView::Struct(fields) => "struct("@ + join(field_reprs(fields), ", "@) + ")"@,
        ValueView::Attribute(_) => "<attribute>"@,
    }
}

/// `name=repr` for each field, in order.
pub open spec fn field_reprs(fields: Seq<(Seq<char>, ValueView)>) -> Seq<Seq<char>>
    decreases fields, 0nat,
{
    if fields.len() == 0 {
        Seq::empty()
    } else {
        field_reprs(fields.drop_last()).push(fields.last().0 + "="@ + repr_of(fields.last().1))
    }
}

/// The line that describes the global `name` bound to `v`: a function as a
/// stub definition, any other value as a comment with its `repr`.
pub open spec fn describe_text(name: Seq<char>, v: ValueView) -> Seq<char> {
    if kind_of(v) == "function"@ {
        "def "@ + replace_all(repr_of(v), " = ..."@, " = None"@) + ": pass"@
    } else {
        "# "@ + name + " = "@ + repr_of(v)
    }
}

impl FrozenValue {
    /// A copy of the value.
    pub fn copy(&self) -> (r: FrozenValue)
        ensures
            r@ == self@,
        decreases self,
    {
        match self {
            FrozenValue::Native { kind, repr } => FrozenValue::Native {
                kind: kind.clone(),
                repr: repr.clone(),
            },
            FrozenValue::Attribute(b) => {
                let inner = (**b).copy();
                FrozenValue::Attribute(Box::new(inner))
            },
            FrozenValue::Struct(fields) => {
                let mut out: Vec<(String, FrozenValue)> = Vec::new();
                let n = fields.len();
                let mut i: usize = 0;
                while i < n
                    invariant
                        n == fields@.len(),
                        i <= n,
                        *self == FrozenValue::Struct(*fields),
                        fields_view(out@) == fields_view(fields@.take(i as int)),
                    decreases n - i,
                {
                    proof {
                        let e = fields@[i as int];
                        assert(decreases_to!(*fields => fields@));
                        assert(decreases_to!(fields@ => e));
                        assert(decreases_to!(e => e.1));
                        assert(decreases_to!(*self => (*self)->Struct_0));
                    }
                    let ghost old_out = out@;
                    let v = fields[i].1.copy();
                    let k = fields[i].0.clone();
                    out.push((k, v));
                    assert(fields@.take(i + 1).drop_last() =~= fields@.take(i as int));
                    assert(out@.drop_last() =~= old_out);
                    i = i + 1;
                }
                assert(fields@.take(n as int) =~= fields@);
                FrozenValue::Struct(out)
            },
        }
    }

    /// The name of the value's type.
    pub fn kind(&self) -> (r: String)
        ensures
            r@ == kind_of(self@),
    {
        match self {
            FrozenValue::Native { kind, repr } => kind.clone(),
            FrozenValue::Struct(_) => String::from_str("struct"),
            FrozenValue::Attribute(_) => String::from_str("attribute"),
        }
    }

    /// The value's `repr` text.
    pub fn repr(&self) -> (r: String)
        ensures
            r@ == repr_of(self@),
        decreases self,
    {
        match self {
            FrozenValue::Native { kind, repr } => repr.clone(),
            FrozenValue::Attribute(_) => String::from_str("<attribute>"),
            FrozenValue::Struct(fields) => {
                let mut parts: Vec<String> = Vec::new();
                let n = fields.len();
                let mut i: usize = 0;
                proof {
                    lemma_fields_view(fields@);
                }
                while i < n
                    invariant
                        n == fields@.len(),
                        i <= n,
                        *self == FrozenValue::Struct(*fields),
                        fields_view(fields@).len() == n,
                        forall|j: int|
                            0 <= j < n ==> #[trigger] fields_view(fields@)[j] == (
                                fields@[j].0@,
                                value_view(fields@[j].1),
                            ),
                        views(parts@) == field_reprs(fields_view(fields@).take(i as int)),
                    decreases n - i,
                {
                    proof {
                        let e = fields@[i as int];
                        assert(decreases_to!(*fields => fields@));
                        assert(decreases_to!(fields@ => e));
                        assert(decreases_to!(e => e.1));
                        assert(decreases_to!(*self => (*self)->Struct_0));
                    }
                    let ghost before = views(parts@);
                    let mut part = fields[i].0.clone();
                    part.append("=");
                    let inner = fields[i].1.repr();
                    part.append(inner.as_str());
                    parts.push(part);
                    let ghost fv = fields_view(fields@);
                    assert(fv.take(i + 1).drop_last() =~= fv.take(i as int));
                    assert(fv.take(i + 1).last() == fv[i as int]);
                    assert(views(parts@) =~= before.push(fields@[i as int].0@ + "="@ + repr_of(value_view(fields@[i as int].1))));
                    i = i + 1;
                }
                assert(fields_view(fields@).take(n as int) =~= fields_view(fields@));
                let mut out = String::from_str("struct(");
                out.append(join_strings(&parts, ", ").as_str());
                out.append(")");
                out
            },
        }
    }

    /// The line that describes the global `name` bound to this value.
    pub fn describe(&self, name: &str) -> (r: String)
        ensures
            r@ == describe_text(name@, self@),
    {
        let kind = self.kind();
        let function = String::from_str("function");
        let repr = self.repr();
        if kind == function {
            proof {
                reveal_strlit(" = ...");
            }
            let mut out = String::from_str("def ");
            out.append(replace_str(repr.as_str(), " = ...", " = None").as_str());
            out.append(": pass");
            out
        } else {
            let mut out = String::from_str("# ");
            out.append(name);
            out.append(" = ");
            out.append(repr.as_str());
            out
        }
    }
}

} // verus!
