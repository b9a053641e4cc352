//! The global values of an environment and the builder that collects them.
use vstd::prelude::*;
use vstd::string::*;
use crate::text::{join, join_strings, views};
use crate::value::{describe_text, fields_view, lemma_fields_view, FrozenValue, ValueView};
use once_cell::sync::OnceCell;

verus! {

/// Whether some entry of `e` is called `name`.
pub open spec fn has_name(e: Seq<(Seq<char>, ValueView)>, name: Seq<char>) -> bool {
    exists|i: int| 0 <= i < e.len() && #[trigger] e[i].0 == name
}

/// No two entries of `e` have the same name.
pub open spec fn unique_names(e: Seq<(Seq<char>, ValueView)>) -> bool {
    forall|i: int, j: int|
        0 <= i < e.len() && 0 <= j < e.len() && i != j ==> #[trigger] e[i].0 != #[trigger] e[j].0
}

/// `e` with `name` bound to `v`: an entry of that name keeps its place and
/// takes the new value; otherwise a new entry goes at the end.
pub open spec fn insert_entry(e: Seq<(Seq<char>, ValueView)>, name: Seq<char>, v: ValueView) -> Seq<
    (Seq<char>, ValueView),
> {
    if has_name(e, name) {
        let i = choose|i: int| 0 <= i < e.len() && #[trigger] e[i].0 == name;
        e.update(i, (name, v))
    } else {
        e.push((name, v))
    }
}

/// The value bound to `name` in `e`, if any.
pub open spec fn lookup(e: Seq<(Seq<char>, ValueView)>, name: Seq<char>) -> Option<ValueView> {
    if has_name(e, name) {
        let i = choose|i: int| 0 <= i < e.len() && #[trigger] e[i].0 == name;
        Some(e[i].1)
    } else {
        None
    }
}

/// A builder of globals as plain values.
pub struct BuilderView {
    /// The top-level globals, in the order they were first set.
    pub variables: Seq<(Seq<char>, ValueView)>,
    /// The fields of the struct being built, while one is.
    pub struct_fields: Option<Seq<(Seq<char>, ValueView)>>,
}

/// A builder with nothing in it.
pub open spec fn empty_builder() -> BuilderView {
    BuilderView { variables: Seq::empty(), struct_fields: None }
}

impl BuilderView {
    pub open spec fn wf(self) -> bool {
        &&& unique_names(self.variables)
        &&& (self.struct_fields matches Some(f) ==> unique_names(f))
    }

    /// `name` bound to `v`: among the fields of the struct being built if
    /// there is one, else among the top-level globals.
    pub open spec fn set(self, name: Seq<char>, v: ValueView) -> BuilderView {
        match self.struct_fields {
            Some(f) => BuilderView { struct_fields: Some(insert_entry(f, name, v)), ..self },
            None => BuilderView { variables: insert_entry(self.variables, name, v), ..self },
        }
    }

    /// A struct begun, with no fields yet.
    pub open spec fn begin_struct(self) -> BuilderView {
        BuilderView { struct_fields: Some(Seq::empty()), ..self }
    }

    /// The struct being built ended and bound to `name` among the
    /// top-level globals.
    pub open spec fn end_struct(self, name: Seq<char>) -> BuilderView {
        let fields = self.struct_fields.unwrap();
        BuilderView { variables: insert_entry(self.variables, name, ValueView::Struct(fields)), struct_fields: None }
    }
}

/// `b` with each entry of `e` set in turn.
pub open spec fn set_each(b: BuilderView, e: Seq<(Seq<char>, ValueView)>) -> BuilderView
    decreases e.len(),
{
    if e.len() == 0 {
        b
    } else {
        set_each(b, e.drop_last()).set(e.last().0, e.last().1)
    }
}

/// The value of a built-in function called `name`. This library models a
/// built-in function as a native value of type `function` whose `repr` is
/// its bare name.
pub open spec fn builtin_view(name: Seq<char>) -> ValueView {
    ValueView::Native { kind: "function"@, repr: name }
}

/// A built-in function for each of `names`, in order.
pub open spec fn builtin_entries(names: Seq<Seq<char>>) -> Seq<(Seq<char>, ValueView)> {
    names.map_values(|n: Seq<char>| (n, builtin_view(n)))
}

/// The constants of the Starlark standard: `None`, `True` and `False`, as
/// this library models them (native values with their type and `repr`).
pub open spec fn standard_constants() -> Seq<(Seq<char>, ValueView)> {
    seq![
        ("None"@, ValueView::Native { kind: "NoneType"@, repr: "None"@ }),
        ("True"@, ValueView::Native { kind: "bool"@, repr: "True"@ }),
        ("False"@, ValueView::Native { kind: "bool"@, repr: "False"@ }),
    ]
}

/// The names of the built-in functions of the Starlark standard, as this
/// library models the standard environment (`print` comes with
/// `LibraryExtension::Print`).
pub open spec fn standard_functions() -> Seq<Seq<char>> {
    seq![
        "any"@, "all"@, "bool"@, "chr"@, "dict"@, "dir"@, "enumerate"@, "fail"@, "float"@,
        "getattr"@, "hasattr"@, "hash"@, "int"@, "len"@, "list"@, "max"@, "min"@, "ord"@,
        "range"@, "repr"@, "reversed"@, "sorted"@, "str"@, "tuple"@, "type"@, "zip"@,
    ]
}

/// A builder holding the Starlark standard environment.
pub open spec fn standard_builder() -> BuilderView {
    set_each(set_each(empty_builder(), standard_constants()), builtin_entries(standard_functions()))
}

/// The names of the functions that each extension of the standard library
/// adds, as this library models the extensions.
pub open spec fn extension_functions(e: LibraryExtension) -> Seq<Seq<char>> {
    match e {
        LibraryExtension::StructType => seq!["struct"@],
        LibraryExtension::RecordType => seq!["record"@, "field"@],
        LibraryExtension::EnumType => seq!["enum"@],
        LibraryExtension::MapFunction => seq!["map"@],
        LibraryExtension::Filter => seq!["filter"@],
        LibraryExtension::Partial => seq!["partial"@],
        LibraryExtension::Dedupe => seq!["dedupe"@],
        LibraryExtension::Debug => seq!["debug"@],
        LibraryExtension::Print => seq!["print"@],
        LibraryExtension::Breakpoint => seq!["breakpoint"@],
        LibraryExtension::Json => seq!["json"@],
        LibraryExtension::Abs => seq!["abs"@],
        LibraryExtension::ExperimentalRegex => seq!["experimental_regex"@],
    }
}

/// Every extension, in the order `LibraryExtension::all` gives them.
pub open spec fn all_extensions() -> Seq<LibraryExtension> {
    seq![
        LibraryExtension::StructType,
        LibraryExtension::RecordType,
        LibraryExtension::EnumType,
        LibraryExtension::MapFunction,
        LibraryExtension::Filter,
        LibraryExtension::Partial,
        LibraryExtension::Dedupe,
        LibraryExtension::Debug,
        LibraryExtension::Print,
        LibraryExtension::Breakpoint,
        LibraryExtension::Json,
        LibraryExtension::Abs,
        LibraryExtension::ExperimentalRegex,
    ]
}

/// A builder holding the standard environment and then, in order, what
/// each of `extensions` adds.
pub open spec fn extended_builder(extensions: Seq<LibraryExtension>) -> BuilderView
    decreases extensions.len(),
{
    if extensions.len() == 0 {
        standard_builder()
    } else {
        set_each(
            extended_builder(extensions.drop_last()),
            builtin_entries(extension_functions(extensions.last())),
        )
    }
}

/// Additions to the Starlark standard environment.
#[derive(Clone, Copy, Debug, PartialEq, Eq)]
pub enum LibraryExtension {
    /// The `struct` type and its constructor `struct()`.
    StructType,
    /// The `record` type, its constructor `record()` and `field()`.
    RecordType,
    /// The `enum` type and its constructor `enum()`.
    EnumType,
    /// `map(f, xs)`.
    MapFunction,
    /// `filter(f, xs)`.
    Filter,
    /// `partial(f, *args, **kwargs)`.
    Partial,
    /// `dedupe(x)`.
    Dedupe,
    /// `debug(x)`.
    Debug,
    /// `print(x)`.
    Print,
    /// `breakpoint()`.
    Breakpoint,
    /// `json(x)`.
    Json,
    /// `abs(x)`.
    Abs,
    /// `experimental_regex(pattern, s)`.
    ExperimentalRegex,
}

/// A built-in function called `name`.
fn builtin(name: &str) -> (v: FrozenValue)
    ensures
        v@ == builtin_view(name@),
{
    FrozenValue::Native { kind: String::from_str("function"), repr: String::from_str(name) }
}

/// A native constant.
fn constant(kind: &str, repr: &str) -> (v: FrozenValue)
    ensures
        v@ == (ValueView::Native { kind: kind@, repr: repr@ }),
{
    FrozenValue::Native { kind: String::from_str(kind), repr: String::from_str(repr) }
}

pub open spec fn str_views(names: Seq<&str>) -> Seq<Seq<char>> {
    names.map_values(|n: &str| n@)
}

impl LibraryExtension {
    /// Every extension.
    pub fn all() -> (r: Vec<LibraryExtension>)
        ensures
            r@ == all_extensions(),
    {
        let r = vec![
            LibraryExtension::StructType,
            LibraryExtension::RecordType,
            LibraryExtension::EnumType,
            LibraryExtension::MapFunction,
            LibraryExtension::Filter,
            LibraryExtension::Partial,
            LibraryExtension::Dedupe,
            LibraryExtension::Debug,
            LibraryExtension::Print,
            LibraryExtension::Breakpoint,
            LibraryExtension::Json,
            LibraryExtension::Abs,
            LibraryExtension::ExperimentalRegex,
        ];
        assert(r@ =~= all_extensions());
        r
    }

    /// The names of the functions this extension adds.
    fn function_names(self) -> (r: Vec<&'static str>)
        ensures
            str_views(r@) == extension_functions(self),
    {
        let r = match self {
            LibraryExtension::StructType => vec!["struct"],
            LibraryExtension::RecordType => vec!["record", "field"],
            LibraryExtension::EnumType => vec!["enum"],
            LibraryExtension::MapFunction => vec!["map"],
            LibraryExtension::Filter => vec!["filter"],
            LibraryExtension::Partial => vec!["partial"],
            LibraryExtension::Dedupe => vec!["dedupe"],
            LibraryExtension::Debug => vec!["debug"],
            LibraryExtension::Print => vec!["print"],
            LibraryExtension::Breakpoint => vec!["breakpoint"],
            LibraryExtension::Json => vec!["json"],
            LibraryExtension::Abs => vec!["abs"],
            LibraryExtension::ExperimentalRegex => vec!["experimental_regex"],
        };
        assert(str_views(r@) =~= extension_functions(self));
        r
    }

    /// Adds this extension's functions to `builder`.
    pub fn add(self, builder: &mut GlobalsBuilder)
        requires
            old(builder).wf(),
        ensures
            final(builder).wf(),
            final(builder)@ == set_each(old(builder)@, builtin_entries(extension_functions(self))),
    {
        let names = self.function_names();
        builder.set_builtins(&names);
    }
}

/// The value bound to `name` when `e` holds exactly one entry.
pub open spec fn only_entry(e: Seq<(Seq<char>, ValueView)>) -> Option<ValueView> {
    if e.len() == 1 {
        Some(e[0].1)
    } else {
        None
    }
}

/// Binding a name keeps the names unique, gives back the new value for
/// that name and the old value for every other name, and adds an entry
/// exactly when the name was not bound yet.
pub proof fn lemma_insert_entry(e: Seq<(Seq<char>, ValueView)>, name: Seq<char>, v: ValueView, other: Seq<char>)
    requires
        unique_names(e),
    ensures
        unique_names(insert_entry(e, name, v)),
        lookup(insert_entry(e, name, v), name) == Some(v),
        other != name ==> lookup(insert_entry(e, name, v), other) == lookup(e, other),
        has_name(insert_entry(e, name, v), other) == (has_name(e, other) || other == name),
        insert_entry(e, name, v).len() == if has_name(e, name) { e.len() } else { e.len() + 1 },
{
    let r = insert_entry(e, name, v);
    let at = if has_name(e, name) {
        choose|i: int| 0 <= i < e.len() && #[trigger] e[i].0 == name
    } else {
        e.len() as int
    };
    assert(r[at] == (name, v));
    assert(forall|j: int| 0 <= j < r.len() && j != at ==> #[trigger] r[j] == e[j]);
    assert(forall|j: int| 0 <= j < r.len() ==> #[trigger] r[j].0 == if j == at { name } else { e[j].0 });
    assert(r[at].0 == name);
    assert(has_name(r, name));
    let c = choose|c: int| 0 <= c < r.len() && #[trigger] r[c].0 == name;
    assert(c == at);
    if has_name(r, other) && other != name {
        let i = choose|i: int| 0 <= i < r.len() && #[trigger] r[i].0 == other;
        assert(i != at);
        assert(e[i].0 == other);
        assert(has_name(e, other));
        let k = choose|k: int| 0 <= k < e.len() && #[trigger] e[k].0 == other;
        assert(k != at);
        assert(r[k].0 == other);
        assert(k == i);
    }
    if has_name(e, other) && other != name {
        let k = choose|k: int| 0 <= k < e.len() && #[trigger] e[k].0 == other;
        assert(r[k].0 == other);
    }
}

/// Read after write: once `name` is bound to `v` outside any struct,
/// looking `name` up among the globals gives `v`, and every other name
/// keeps the value it had.
pub proof fn lemma_set_then_lookup(b: BuilderView, name: Seq<char>, v: ValueView, other: Seq<char>)
    requires
        b.wf(),
        b.struct_fields is None,
    ensures
        lookup(b.set(name, v).variables, name) == Some(v),
        other != name ==> lookup(b.set(name, v).variables, other) == lookup(b.variables, other),
{
    lemma_insert_entry(b.variables, name, v, other);
}

/// Setting the entries of `g`, whose names are unique, into an empty
/// builder gives exactly `g`: the same names, the same values, in the same
/// order.
pub proof fn lemma_set_each_into_empty(g: Seq<(Seq<char>, ValueView)>)
    requires
        unique_names(g),
    ensures
        set_each(empty_builder(), g) == (BuilderView { variables: g, struct_fields: None }),
    decreases g.len(),
{
    if g.len() == 0 {
        assert(g =~= Seq::<(Seq<char>, ValueView)>::empty());
    } else {
        let rest = g.drop_last();
        assert(unique_names(rest));
        lemma_set_each_into_empty(rest);
        assert(!has_name(rest, g.last().0));
        assert(rest.push(g.last()) =~= g);
    }
}

/// While a struct is being built, setting the entries of `e` (names
/// unique) leaves the top-level globals as they were and makes `e` the
/// struct's fields; ending the struct then binds `name` to a struct of
/// exactly those fields.
pub proof fn lemma_struct_fields(b: BuilderView, e: Seq<(Seq<char>, ValueView)>, name: Seq<char>)
    requires
        b.wf(),
        b.struct_fields is None,
        unique_names(e),
    ensures
        set_each(b.begin_struct(), e).variables == b.variables,
        set_each(b.begin_struct(), e).struct_fields == Some(e),
        lookup(set_each(b.begin_struct(), e).end_struct(name).variables, name) == Some(
            ValueView::Struct(e),
        ),
    decreases e.len(),
{
    if e.len() == 0 {
        assert(e =~= Seq::<(Seq<char>, ValueView)>::empty());
    } else {
        let rest = e.drop_last();
        assert(unique_names(rest));
        lemma_struct_fields(b, rest, name);
        assert(!has_name(rest, e.last().0));
        assert(rest.push(e.last()) =~= e);
    }
    lemma_insert_entry(b.variables, name, ValueView::Struct(e), name);
}

/// Setting entries outside any struct keeps the builder well formed and
/// outside any struct, and keeps every name that was bound.
pub proof fn lemma_set_each_keeps_names(b: BuilderView, e: Seq<(Seq<char>, ValueView)>, name: Seq<char>)
    requires
        b.wf(),
        b.struct_fields is None,
    ensures
        set_each(b, e).wf(),
        set_each(b, e).struct_fields is None,
        has_name(b.variables, name) ==> has_name(set_each(b, e).variables, name),
    decreases e.len(),
{
    if e.len() > 0 {
        lemma_set_each_keeps_names(b, e.drop_last(), name);
        lemma_insert_entry(set_each(b, e.drop_last()).variables, e.last().0, e.last().1, name);
    }
}

/// The extended environments are well formed, and extending keeps every
/// name of the standard environment.
pub proof fn lemma_extending_keeps_standard(extensions: Seq<LibraryExtension>, name: Seq<char>)
    ensures
        extended_builder(extensions).wf(),
        extended_builder(extensions).struct_fields is None,
        has_name(standard_builder().variables, name) ==> has_name(extended_builder(extensions).variables, name),
    decreases extensions.len(),
{
    if extensions.len() == 0 {
        assert(unique_names(empty_builder().variables));
        lemma_set_each_keeps_names(empty_builder(), standard_constants(), name);
        lemma_set_each_keeps_names(
            set_each(empty_builder(), standard_constants()),
            builtin_entries(standard_functions()),
            name,
        );
    } else {
        lemma_extending_keeps_standard(extensions.drop_last(), name);
        lemma_set_each_keeps_names(
            extended_builder(extensions.drop_last()),
            builtin_entries(extension_functions(extensions.last())),
            name,
        );
    }
}

/// Ending a struct leaves the builder well formed and outside any struct,
/// so another struct may follow, and what is set next binds a top-level
/// name.
pub proof fn lemma_after_struct(b: BuilderView, name: Seq<char>, m: Seq<char>, v: ValueView)
    requires
        b.wf(),
        b.struct_fields is Some,
    ensures
        b.end_struct(name).wf(),
        b.end_struct(name).struct_fields is None,
        lookup(b.end_struct(name).set(m, v).variables, m) == Some(v),
{
    lemma_insert_entry(b.variables, name, ValueView::Struct(b.struct_fields.unwrap()), m);
    lemma_set_then_lookup(b.end_struct(name), m, v, m);
}

/// Setting entries none of which is called `k` leaves what `k` is bound to
/// as it was.
pub proof fn lemma_set_each_lookup_other(b: BuilderView, e: Seq<(Seq<char>, ValueView)>, k: Seq<char>)
    requires
        b.wf(),
        b.struct_fields is None,
        forall|i: int| 0 <= i < e.len() ==> #[trigger] e[i].0 != k,
    ensures
        lookup(set_each(b, e).variables, k) == lookup(b.variables, k),
    decreases e.len(),
{
    if e.len() > 0 {
        let rest = e.drop_last();
        assert forall|i: int| 0 <= i < rest.len() implies #[trigger] rest[i].0 != k by {
            assert(rest[i] == e[i]);
        }
        lemma_set_each_lookup_other(b, rest, k);
        lemma_set_each_keeps_names(b, rest, k);
        assert(e.last() == e[e.len() - 1]);
        lemma_set_then_lookup(set_each(b, rest), e.last().0, e.last().1, k);
    }
}

/// The constant at position `j` of the standard constants keeps its value
/// in the standard environment.
proof fn lemma_standard_constant(j: int)
    requires
        0 <= j < 3,
    ensures
        lookup(standard_builder().variables, standard_constants()[j].0) == Some(standard_constants()[j].1),
{
    reveal_strlit("None");
    reveal_strlit("True");
    reveal_strlit("False");
    reveal_strlit("any");
    reveal_strlit("all");
    reveal_strlit("bool");
    reveal_strlit("chr");
    reveal_strlit("dict");
    reveal_strlit("dir");
    reveal_strlit("enumerate");
    reveal_strlit("fail");
    reveal_strlit("float");
    reveal_strlit("getattr");
    reveal_strlit("hasattr");
    reveal_strlit("hash");
    reveal_strlit("int");
    reveal_strlit("len");
    reveal_strlit("list");
    reveal_strlit("max");
    reveal_strlit("min");
    reveal_strlit("ord");
    reveal_strlit("range");
    reveal_strlit("repr");
    reveal_strlit("reversed");
    reveal_strlit("sorted");
    reveal_strlit("str");
    reveal_strlit("tuple");
    reveal_strlit("type");
    reveal_strlit("zip");
    let consts = standard_constants();
    assert(consts[0].0[0] == 'N' && consts[1].0[0] == 'T' && consts[2].0[0] == 'F');
    assert(unique_names(consts)) by {
        assert(consts[0].0[0] != consts[1].0[0]);
        assert(consts[0].0[0] != consts[2].0[0]);
        assert(consts[1].0[0] != consts[2].0[0]);
    }
    lemma_set_each_into_empty(consts);
    let start = set_each(empty_builder(), consts);
    assert(unique_names(empty_builder().variables));
    let fs = builtin_entries(standard_functions());
    let k = consts[j].0;
    assert(k[0] == 'N' || k[0] == 'T' || k[0] == 'F');
    assert forall|i: int| 0 <= i < fs.len() implies #[trigger] fs[i].0 != k by {
        assert(fs[i].0 == standard_functions()[i]);
        assert(fs[i].0[0] != k[0]);
    }
    lemma_set_each_lookup_other(start, fs, k);
    assert(has_name(consts, k));
    let c = choose|c: int| 0 <= c < consts.len() && #[trigger] consts[c].0 == k;
    assert(c == j);
}

/// In the standard environment `None` is the value of type `NoneType`
/// shown as `None`, `True` and `False` are the two values of type `bool`
/// shown as `True` and `False`, and `True` and `False` are different
/// values.
pub proof fn lemma_standard_constants()
    ensures
        lookup(standard_builder().variables, "None"@) == Some(
            ValueView::Native { kind: "NoneType"@, repr: "None"@ },
        ),
        lookup(standard_builder().variables, "True"@) == Some(
            ValueView::Native { kind: "bool"@, repr: "True"@ },
        ),
        lookup(standard_builder().variables, "False"@) == Some(
            ValueView::Native { kind: "bool"@, repr: "False"@ },
        ),
        lookup(standard_builder().variables, "True"@) != lookup(standard_builder().variables, "False"@),
{
    reveal_strlit("True");
    reveal_strlit("False");
    lemma_standard_constant(0);
    lemma_standard_constant(1);
    lemma_standard_constant(2);
    assert("True"@[0] != "False"@[0]);
}

/// Binds `name` to `value` in `entries`, keeping the names unique.
fn insert_into(entries: &mut Vec<(String, FrozenValue)>, name: &str, value: FrozenValue)
    requires
        unique_names(fields_view(old(entries)@)),
    ensures
        fields_view(final(entries)@) == insert_entry(fields_view(old(entries)@), name@, value@),
        unique_names(fields_view(final(entries)@)),
{
    let ghost before = fields_view(entries@);
    proof {
        lemma_fields_view(entries@);
    }
    let key = String::from_str(name);
    let mut i: usize = 0;
    while i < entries.len()
        invariant
            entries@ == old(entries)@,
            before == fields_view(entries@),
            unique_names(before),
            before.len() == entries@.len(),
            forall|j: int|
                0 <= j < entries@.len() ==> #[trigger] before[j] == (
                    entries@[j].0@,
                    entries@[j].1@,
                ),
            key@ == name@,
            i <= entries@.len(),
            forall|j: int| 0 <= j < i ==> before[j].0 != name@,
        decreases entries@.len() - i,
    {
        if entries[i].0 == key {
            entries.set(i, (key, value));
            proof {
                lemma_fields_view(entries@);
                assert(before[i as int].0 == name@);
                assert(has_name(before, name@));
                let c = choose|c: int| 0 <= c < before.len() && #[trigger] before[c].0 == name@;
                assert(c == i);
                assert(fields_view(entries@) =~= before.update(i as int, (name@, value@)));
                assert(fields_view(entries@) =~= insert_entry(before, name@, value@));
            }
            return;
        }
        i = i + 1;
    }
    let ghost old_entries = entries@;
    entries.push((key, value));
    proof {
        assert(!has_name(before, name@));
        assert(entries@.drop_last() =~= old_entries);
        assert(fields_view(entries@) =~= before.push((name@, value@)));
    }
}

/// The global values of an environment, each name bound once.
#[derive(Debug)]
pub struct Globals {
    variables: Vec<(String, FrozenValue)>,
}

/// Collects global values; while a struct is being built, what is set goes
/// into that struct's fields.
#[derive(Debug)]
pub struct GlobalsBuilder {
    variables: Vec<(String, FrozenValue)>,
    struct_fields: Option<Vec<(String, FrozenValue)>>,
}

impl View for Globals {
    type V = Seq<(Seq<char>, ValueView)>;

    closed spec fn view(&self) -> Seq<(Seq<char>, ValueView)> {
        fields_view(self.variables@)
    }
}

impl View for GlobalsBuilder {
    type V = BuilderView;

    closed spec fn view(&self) -> BuilderView {
        BuilderView {
            variables: fields_view(self.variables@),
            struct_fields: match self.struct_fields {
                Some(f) => Some(fields_view(f@)),
                None => None,
            },
        }
    }
}

impl Globals {
    #[verifier::type_invariant]
    closed spec fn names_unique(self) -> bool {
        unique_names(fields_view(self.variables@))
    }
}

impl GlobalsBuilder {
    pub open spec fn wf(&self) -> bool {
        self@.wf()
    }

    /// An empty builder, with no functions in scope.
    pub fn new() -> (b: GlobalsBuilder)
        ensures
            b.wf(),
            b@ == empty_builder(),
    {
        let b = GlobalsBuilder { variables: Vec::new(), struct_fields: None };
        assert(b@.variables =~= Seq::<(Seq<char>, ValueView)>::empty());
        b
    }

    /// Binds `name` to `value`: in the struct being built if there is one,
    /// else among the top-level globals.
    pub fn set(&mut self, name: &str, value: FrozenValue)
        requires
            old(self).wf(),
        ensures
            final(self).wf(),
            final(self)@ == old(self)@.set(name@, value@),
    {
        let value = self.alloc_value(value);
        match self.struct_fields.take() {
            None => {
                insert_into(&mut self.variables, name, value);
            },
            Some(mut fields) => {
                insert_into(&mut fields, name, value);
                self.struct_fields = Some(fields);
            },
        }
    }

    /// Binds each of `names` to the built-in function of that name, in order.
    fn set_builtins(&mut self, names: &Vec<&str>)
        requires
            old(self).wf(),
        ensures
            final(self).wf(),
            final(self)@ == set_each(old(self)@, builtin_entries(str_views(names@))),
    {
        let ghost start = self@;
        let ghost entries = builtin_entries(str_views(names@));
        let mut i: usize = 0;
        assert(entries.take(0) =~= Seq::<(Seq<char>, ValueView)>::empty());
        while i < names.len()
            invariant
                entries == builtin_entries(str_views(names@)),
                i <= names@.len(),
                self.wf(),
                self@ == set_each(start, entries.take(i as int)),
            decreases names@.len() - i,
        {
            assert(entries.take(i + 1).drop_last() =~= entries.take(i as int));
            assert(entries.take(i + 1).last() == (names@[i as int]@, builtin_view(names@[i as int]@)));
            self.set(names[i], builtin(names[i]));
            i = i + 1;
        }
        assert(entries.take(names@.len() as int) =~= entries);
    }

    /// Sets each of `entries` in turn.
    fn set_entries(&mut self, entries: &Vec<(String, FrozenValue)>)
        requires
            old(self).wf(),
        ensures
            final(self).wf(),
            final(self)@ == set_each(old(self)@, fields_view(entries@)),
    {
        let ghost start = self@;
        let ghost ev = fields_view(entries@);
        proof {
            lemma_fields_view(entries@);
        }
        let mut i: usize = 0;
        assert(ev.take(0) =~= Seq::<(Seq<char>, ValueView)>::empty());
        while i < entries.len()
            invariant
                ev == fields_view(entries@),
                ev.len() == entries@.len(),
                forall|j: int|
                    0 <= j < entries@.len() ==> #[trigger] ev[j] == (
                        entries@[j].0@,
                        entries@[j].1@,
                    ),
                i <= entries@.len(),
                self.wf(),
                self@ == set_each(start, ev.take(i as int)),
            decreases entries@.len() - i,
        {
            assert(ev.take(i + 1).drop_last() =~= ev.take(i as int));
            assert(ev.take(i + 1).last() == ev[i as int]);
            let value = entries[i].1.copy();
            self.set(entries[i].0.as_str(), value);
            i = i + 1;
        }
        assert(ev.take(entries@.len() as int) =~= ev);
    }

    /// Sets each global of `globals` in turn, the same values.
    pub fn set_all(&mut self, globals: &Globals)
        requires
            old(self).wf(),
        ensures
            final(self).wf(),
            final(self)@ == set_each(old(self)@, globals@),
    {
        self.set_entries(&globals.variables);
    }

    /// A builder holding the Starlark standard environment: the constants
    /// `None`, `True` and `False`, then the standard built-in functions.
    pub fn standard() -> (b: GlobalsBuilder)
        ensures
            b.wf(),
            b@ == standard_builder(),
    {
        let mut b = GlobalsBuilder::new();
        let constants = vec![
            (String::from_str("None"), constant("NoneType", "None")),
            (String::from_str("True"), constant("bool", "True")),
            (String::from_str("False"), constant("bool", "False")),
        ];
        proof {
            lemma_fields_view(constants@);
        }
        assert(fields_view(constants@) =~= standard_constants());
        b.set_entries(&constants);
        let functions = vec![
            "any", "all", "bool", "chr", "dict", "dir", "enumerate", "fail", "float", "getattr",
            "hasattr", "hash", "int", "len", "list", "max", "min", "ord", "range", "repr",
            "reversed", "sorted", "str", "tuple", "type", "zip",
        ];
        assert(str_views(functions@) =~= standard_functions());
        b.set_builtins(&functions);
        b
    }

    /// A builder holding the standard environment and every extension.
    pub fn extended() -> (b: GlobalsBuilder)
        ensures
            b.wf(),
            b@ == extended_builder(all_extensions()),
    {
        let all = LibraryExtension::all();
        GlobalsBuilder::extended_by(all.as_slice())
    }

    /// A builder holding the standard environment and then each of
    /// `extensions`, in order.
    pub fn extended_by(extensions: &[LibraryExtension]) -> (b: GlobalsBuilder)
        ensures
            b.wf(),
            b@ == extended_builder(extensions@),
    {
        let mut res = GlobalsBuilder::standard();
        let mut i: usize = 0;
        assert(extensions@.take(0) =~= Seq::<LibraryExtension>::empty());
        while i < extensions.len()
            invariant
                i <= extensions@.len(),
                res.wf(),
                res@ == extended_builder(extensions@.take(i as int)),
            decreases extensions@.len() - i,
        {
            assert(extensions@.take(i + 1).drop_last() =~= extensions@.take(i as int));
            extensions[i].add(&mut res);
            i = i + 1;
        }
        assert(extensions@.take(extensions@.len() as int) =~= extensions@);
        res
    }

    /// Binds `name` to an attribute that ignores its receiver and returns
    /// `value`, for use among the methods of a value's type.
    pub fn set_attribute(&mut self, name: &str, value: FrozenValue)
        requires
            old(self).wf(),
        ensures
            final(self).wf(),
            final(self)@ == old(self)@.set(name@, ValueView::Attribute(Box::new(value@))),
    {
        let value = self.alloc_value(value);
        let func = self.alloc_value(FrozenValue::Attribute(Box::new(value)));
        self.set(name, func);
    }

    /// The value, frozen for use by the values given to `set`.
    pub fn alloc_value(&self, value: FrozenValue) -> (r: FrozenValue)
        ensures
            r == value,
    {
        value
    }

    /// Builds a struct called `name`: what `f` sets becomes its fields.
    /// Structs do not nest: no struct may be under construction.
    pub fn struct_(&mut self, name: &str, f: impl Fn(&mut GlobalsBuilder))
        requires
            old(self).wf(),
            old(self)@.struct_fields is None,
            forall|b: &mut GlobalsBuilder|
                (*b).wf() && (*b)@.struct_fields is Some ==> f.requires((b,)),
            forall|b: &mut GlobalsBuilder, u: ()|
                f.ensures((b,), u) && (*b).wf() && (*b)@.struct_fields is Some ==> (*final(b)).wf()
                    && (*final(b))@.struct_fields is Some,
        ensures
            final(self).wf(),
            final(self)@.struct_fields is None,
            exists|b: &mut GlobalsBuilder|
                (*b)@ == old(self)@.begin_struct() && f.ensures((b,), ()) && final(self)@
                    == (*final(b))@.end_struct(name@),
    {
        self.struct_fields = Some(Vec::new());
        assert(self@.struct_fields == Some(Seq::<(Seq<char>, ValueView)>::empty()));
        assert(self@ =~= old(self)@.begin_struct());
        assert(unique_names(Seq::<(Seq<char>, ValueView)>::empty()));
        assert(self.wf());
        f(self);
        match self.struct_fields.take() {
            Some(fields) => {
                let ghost field_views = fields_view(fields@);
                let v = FrozenValue::Struct(fields);
                assert(v@ == ValueView::Struct(field_views));
                self.set(name, v);
            },
            None => {
                assert(false);
            },
        }
    }

    /// The builder after `f` has worked on it.
    pub fn with(self, f: impl FnOnce(&mut Self)) -> (r: Self)
        requires
            forall|b: &mut GlobalsBuilder| *b == self ==> f.requires((b,)),
        ensures
            exists|b: &mut GlobalsBuilder| *b == self && *final(b) == r && f.ensures((b,), ()),
    {
        let mut b = self;
        f(&mut b);
        b
    }

    /// The builder after `struct_` with `name` and `f`.
    pub fn with_struct(self, name: &str, f: impl Fn(&mut GlobalsBuilder)) -> (r: Self)
        requires
            self.wf(),
            self@.struct_fields is None,
            forall|b: &mut GlobalsBuilder|
                (*b).wf() && (*b)@.struct_fields is Some ==> f.requires((b,)),
            forall|b: &mut GlobalsBuilder, u: ()|
                f.ensures((b,), u) && (*b).wf() && (*b)@.struct_fields is Some ==> (*final(b)).wf()
                    && (*final(b))@.struct_fields is Some,
        ensures
            r.wf(),
            r@.struct_fields is None,
            exists|b: &mut GlobalsBuilder|
                (*b)@ == self@.begin_struct() && f.ensures((b,), ()) && r@ == (*final(b))@.end_struct(
                    name@,
                ),
    {
        let mut b = self;
        b.struct_(name, f);
        b
    }

    /// The globals collected so far (the top-level ones).
    pub fn build(self) -> (g: Globals)
        requires
            self.wf(),
        ensures
            g@ == self@.variables,
    {
        Globals { variables: self.variables }
    }
}

impl Globals {
    /// Globals with no functions in scope.
    pub fn new() -> (g: Globals)
        ensures
            g@ == Seq::<(Seq<char>, ValueView)>::empty(),
    {
        GlobalsBuilder::new().build()
    }

    /// The Starlark standard environment.
    pub fn standard() -> (g: Globals)
        ensures
            g@ == standard_builder().variables,
    {
        GlobalsBuilder::standard().build()
    }

    /// The standard environment with every extension.
    pub fn extended() -> (g: Globals)
        ensures
            g@ == extended_builder(all_extensions()).variables,
    {
        GlobalsBuilder::extended().build()
    }

    /// The standard environment with each of `extensions`, in order.
    pub fn extended_by(extensions: &[LibraryExtension]) -> (g: Globals)
        ensures
            g@ == extended_builder(extensions@).variables,
    {
        GlobalsBuilder::extended_by(extensions).build()
    }

    /// The value bound to `name`, if any.
    pub fn get_frozen(&self, name: &str) -> (r: Option<FrozenValue>)
        ensures
            match r {
                Some(v) => lookup(self@, name@) == Some(v@),
                None => lookup(self@, name@) is None,
            },
    {
        proof {
            use_type_invariant(self);
            lemma_fields_view(self.variables@);
        }
        let key = String::from_str(name);
        let mut i: usize = 0;
        while i < self.variables.len()
            invariant
                unique_names(self@),
                self@ == fields_view(self.variables@),
                self@.len() == self.variables@.len(),
                forall|j: int|
                    0 <= j < self.variables@.len() ==> #[trigger] self@[j] == (
                        self.variables@[j].0@,
                        self.variables@[j].1@,
                    ),
                key@ == name@,
                i <= self.variables@.len(),
                forall|j: int| 0 <= j < i ==> self@[j].0 != name@,
            decreases self.variables@.len() - i,
        {
            if self.variables[i].0 == key {
                proof {
                    assert(self@[i as int].0 == name@);
                    assert(has_name(self@, name@));
                    let c = choose|c: int| 0 <= c < self@.len() && #[trigger] self@[c].0 == name@;
                    assert(c == i);
                }
                return Some(self.variables[i].1.copy());
            }
            i = i + 1;
        }
        None
    }

    /// The names of all the globals, in order, each once.
    pub fn names(&self) -> (r: Vec<String>)
        ensures
            views(r@) == self@.map_values(|e: (Seq<char>, ValueView)| e.0),
            forall|i: int, j: int|
                0 <= i < r@.len() && 0 <= j < r@.len() && i != j ==> #[trigger] r@[i]@ != #[trigger] r@[j]@,
    {
        proof {
            use_type_invariant(self);
            lemma_fields_view(self.variables@);
        }
        let mut r: Vec<String> = Vec::new();
        let mut i: usize = 0;
        while i < self.variables.len()
            invariant
                self@ == fields_view(self.variables@),
                self@.len() == self.variables@.len(),
                forall|j: int|
                    0 <= j < self.variables@.len() ==> #[trigger] self@[j] == (
                        self.variables@[j].0@,
                        self.variables@[j].1@,
                    ),
                i <= self.variables@.len(),
                views(r@) == self@.map_values(|e: (Seq<char>, ValueView)| e.0).take(i as int),
            decreases self.variables@.len() - i,
        {
            let ghost before = views(r@);
            r.push(self.variables[i].0.clone());
            assert(views(r@) =~= before.push(self@[i as int].0));
            assert(self@.map_values(|e: (Seq<char>, ValueView)| e.0).take(i + 1) =~= before.push(
                self@[i as int].0,
            ));
            i = i + 1;
        }
        assert(self@.map_values(|e: (Seq<char>, ValueView)| e.0).take(self@.len() as int)
            =~= self@.map_values(|e: (Seq<char>, ValueView)| e.0));
        assert forall|i: int, j: int|
            0 <= i < r@.len() && 0 <= j < r@.len() && i != j implies #[trigger] r@[i]@ != #[trigger] r@[j]@ by {
            assert(views(r@)[i] == r@[i]@);
            assert(views(r@)[j] == r@[j]@);
            assert(self@[i].0 != self@[j].0);
        }
        r
    }

    /// A description of every global, one line each, in order.
    pub fn describe(&self) -> (r: String)
        ensures
            r@ == join(
                self@.map_values(|e: (Seq<char>, ValueView)| describe_text(e.0, e.1)),
                "\n"@,
            ),
    {
        proof {
            lemma_fields_view(self.variables@);
        }
        let ghost lines = self@.map_values(|e: (Seq<char>, ValueView)| describe_text(e.0, e.1));
        let mut parts: Vec<String> = Vec::new();
        let mut i: usize = 0;
        while i < self.variables.len()
            invariant
                self@ == fields_view(self.variables@),
                self@.len() == self.variables@.len(),
                forall|j: int|
                    0 <= j < self.variables@.len() ==> #[trigger] self@[j] == (
                        self.variables@[j].0@,
                        self.variables@[j].1@,
                    ),
                lines == self@.map_values(|e: (Seq<char>, ValueView)| describe_text(e.0, e.1)),
                i <= self.variables@.len(),
                views(parts@) == lines.take(i as int),
            decreases self.variables@.len() - i,
        {
            let ghost before = views(parts@);
            let line = self.variables[i].1.describe(self.variables[i].0.as_str());
            parts.push(line);
            assert(views(parts@) =~= before.push(lines[i as int]));
            assert(lines.take(i + 1) =~= before.push(lines[i as int]));
            i = i + 1;
        }
        assert(lines.take(lines.len() as int) =~= lines);
        join_strings(&parts, "\n")
    }

    /// The value of the one global, when there is exactly one.
    pub fn only_value(&self) -> (r: Option<FrozenValue>)
        ensures
            match r {
                Some(v) => only_entry(self@) == Some(v@),
                None => only_entry(self@) is None,
            },
    {
        proof {
            lemma_fields_view(self.variables@);
        }
        if self.variables.len() == 1 {
            Some(self.variables[0].1.copy())
        } else {
            None
        }
    }
}

/// Globals built on first use by a function given at that use, then kept.
/// The building function runs before the cell is filled, not while it is
/// being filled, so it may itself use the same `GlobalsStatic`; when two
/// uses build at once, each runs its own function and the cell keeps the
/// globals of the one that fills it first.
pub struct GlobalsStatic(OnceCell<Globals>);

#[verifier::external_type_specification]
#[verifier::external_body]
#[verifier::reject_recursive_types(T)]
pub struct ExOnceCell<T>(OnceCell<T>);

/// `once_cell::sync::OnceCell::new`: a cell that holds nothing yet. Nothing
/// is stated of the cell.
#[verifier::external_body]
fn empty_cell() -> OnceCell<Globals> {
    OnceCell::new()
}

/// What a once-cell of globals holds: it is filled at most once, so every
/// read of it gives these same globals.
pub uninterp spec fn cell_contents(cell: OnceCell<Globals>) -> Seq<(Seq<char>, ValueView)>;

/// `once_cell::sync::OnceCell::get`: the globals held by `cell` if it has
/// been filled; `None` while it is empty or being filled. Which of the two
/// comes back depends on the calls made before, so only what a filled cell
/// holds is stated.
#[verifier::external_body]
fn cell_get(cell: &OnceCell<Globals>) -> (r: Option<&Globals>)
    ensures
        r matches Some(g) ==> g@ == cell_contents(*cell),
{
    cell.get()
}

/// `once_cell::sync::OnceCell::get_or_init` with an initialiser that only
/// hands over `g`: the globals held by `cell`, filling it with `g` if it is
/// still empty. Whether `g` was the one kept depends on the calls made
/// before, so only that the result is what the cell holds is stated.
#[verifier::external_body]
fn cell_fill(cell: &OnceCell<Globals>, g: Globals) -> (r: &Globals)
    ensures
        r@ == cell_contents(*cell),
{
    cell.get_or_init(move || g)
}

/// The globals that `x` sets on an empty builder.
fn globals_from<F: FnOnce(&mut GlobalsBuilder)>(x: F) -> (g: Globals)
    requires
        forall|b: &mut GlobalsBuilder| (*b).wf() ==> x.requires((b,)),
        forall|b: &mut GlobalsBuilder, u: ()| x.ensures((b,), u) && (*b).wf() ==> (*final(b)).wf(),
    ensures
        exists|b: &mut GlobalsBuilder|
            (*b)@ == empty_builder() && x.ensures((b,), ()) && g@ == (*final(b))@.variables,
{
    let b0 = GlobalsBuilder::new();
    let ghost start = b0;
    let b = b0.with(x);
    proof {
        let w = choose|w: &mut GlobalsBuilder| *w == start && *final(w) == b && x.ensures((w,), ());
        assert((*w).wf());
        assert((*final(w)).wf());
    }
    b.build()
}

impl GlobalsStatic {
    /// The globals this cell holds once it is first used; the same for every
    /// use.
    pub closed spec fn contents(&self) -> Seq<(Seq<char>, ValueView)> {
        cell_contents(self.0)
    }

    /// A cell that builds its globals on first use.
    pub fn new() -> GlobalsStatic {
        GlobalsStatic(empty_cell())
    }

    fn globals<F: FnOnce(&mut GlobalsBuilder)>(&self, x: F) -> (g: &Globals)
        requires
            forall|b: &mut GlobalsBuilder| (*b).wf() ==> x.requires((b,)),
            forall|b: &mut GlobalsBuilder, u: ()|
                x.ensures((b,), u) && (*b).wf() ==> (*final(b)).wf(),
        ensures
            g@ == self.contents(),
    {
        match cell_get(&self.0) {
            Some(g) => g,
            None => {
                let built = globals_from(x);
                cell_fill(&self.0, built)
            },
        }
    }

    /// The globals, built by `x` on first use; the same globals on every
    /// call. Never `None`.
    pub fn methods<F: FnOnce(&mut GlobalsBuilder)>(&self, x: F) -> (r: Option<&Globals>)
        requires
            forall|b: &mut GlobalsBuilder| (*b).wf() ==> x.requires((b,)),
            forall|b: &mut GlobalsBuilder, u: ()|
                x.ensures((b,), u) && (*b).wf() ==> (*final(b)).wf(),
        ensures
            r matches Some(g) && g@ == self.contents(),
    {
        Some(self.globals(x))
    }

    /// The value of the one global, built by `x` on first use. Globals that
    /// do not hold exactly one value give `None`: the caller decides what
    /// to do, rather than the program stopping.
    pub fn function<F: FnOnce(&mut GlobalsBuilder)>(&self, x: F) -> (r: Option<FrozenValue>)
        requires
            forall|b: &mut GlobalsBuilder| (*b).wf() ==> x.requires((b,)),
            forall|b: &mut GlobalsBuilder, u: ()|
                x.ensures((b,), u) && (*b).wf() ==> (*final(b)).wf(),
        ensures
            match r {
                Some(v) => only_entry(self.contents()) == Some(v@),
                None => only_entry(self.contents()) is None,
            },
    {
        let globals = self.globals(x);
        globals.only_value()
    }

    /// Sets every global, built by `x` on first use, into `out`: the same
    /// names and the same values, in order.
    pub fn populate<F: FnOnce(&mut GlobalsBuilder)>(&self, x: F, out: &mut GlobalsBuilder)
        requires
            forall|b: &mut GlobalsBuilder| (*b).wf() ==> x.requires((b,)),
            forall|b: &mut GlobalsBuilder, u: ()|
                x.ensures((b,), u) && (*b).wf() ==> (*final(b)).wf(),
            old(out).wf(),
        ensures
            final(out).wf(),
            final(out)@ == set_each(old(out)@, self.contents()),
    {
        let globals = self.globals(x);
        out.set_all(globals);
    }
}

} // verus!
