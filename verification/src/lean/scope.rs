//! The part of a program that one section of the output speaks of.
use vstd::prelude::*;

use crate::mir::{
    CoverMir, EnvironmentMir, FieldDecl, HandlerMir, ImportedSpecMir, LivenessMir, Mir, PropertyMir,
    StateVariant, Symbol, Ty,
};
use crate::names::NameMap;
use crate::text::{same, texts};

verus! {

broadcast use {crate::text::group_text, crate::text::texts_index, crate::text::texts_len};

/// One variant of the state.
pub struct VariantRef<'a> {
    pub tag: &'a String,
    pub fields: &'a Vec<FieldDecl>,
}

/// One variant of the state: its tag and its fields.
pub struct VariantV {
    pub tag: Seq<char>,
    pub fields: Seq<FieldDecl>,
}

impl<'a> View for VariantRef<'a> {
    type V = VariantV;

    open spec fn view(&self) -> VariantV {
        VariantV { tag: self.tag@, fields: self.fields@ }
    }
}

/// The values that a list of references points to.
pub open spec fn refs<T>(s: Seq<&T>) -> Seq<T> {
    Seq::new(s.len(), |i: int| *s[i])
}

/// The variants that a list of references points to.
pub open spec fn variant_views(s: Seq<VariantRef>) -> Seq<VariantV> {
    Seq::new(s.len(), |i: int| s[i]@)
}

/// A state with the handlers that work on it and the claims made of it: the
/// whole program, or the part that belongs to one account type.
pub struct Scope<'a> {
    pub variants: Vec<VariantRef<'a>>,
    pub lifecycle: &'a Vec<Symbol>,
    pub imports: &'a NameMap<ImportedSpecMir>,
    pub handlers: Vec<&'a HandlerMir>,
    pub properties: Vec<&'a PropertyMir>,
    pub covers: Vec<&'a CoverMir>,
    pub liveness: Vec<&'a LivenessMir>,
    pub environments: &'a Vec<EnvironmentMir>,
    pub constants: Vec<&'a (Symbol, String)>,
}

/// What a scope holds.
pub struct ScopeV {
    pub variants: Seq<VariantV>,
    pub lifecycle: Seq<Seq<char>>,
    pub imports: Seq<(Seq<char>, ImportedSpecMir)>,
    pub handlers: Seq<HandlerMir>,
    pub properties: Seq<PropertyMir>,
    pub covers: Seq<CoverMir>,
    pub liveness: Seq<LivenessMir>,
    pub environments: Seq<EnvironmentMir>,
    pub constants: Seq<(Symbol, String)>,
}

impl<'a> View for Scope<'a> {
    type V = ScopeV;

    open spec fn view(&self) -> ScopeV {
        ScopeV {
            variants: variant_views(self.variants@),
            lifecycle: texts(self.lifecycle@),
            imports: self.imports@,
            handlers: refs(self.handlers@),
            properties: refs(self.properties@),
            covers: refs(self.covers@),
            liveness: refs(self.liveness@),
            environments: self.environments@,
            constants: refs(self.constants@),
        }
    }
}

impl ScopeV {
    /// Whether the state carries a lifecycle marker: one state alone marks
    /// nothing.
    pub open spec fn has_marker(self) -> bool {
        self.lifecycle.len() >= 2
    }
}

/// The variants of a declared state.
pub open spec fn declared_variants(vs: Seq<StateVariant>) -> Seq<VariantV> {
    Seq::new(vs.len(), |i: int| VariantV { tag: vs[i].tag@, fields: vs[i].fields@ })
}

/// The variants of the program's state. A record is one variant without a name
/// of its own: here it goes by the name of its account type.
pub open spec fn state_variants(mir: Mir) -> Seq<VariantV> {
    let vs = mir.state.variants@;
    if vs.len() == 1 && vs[0].tag@.len() == 0 && mir.account_states@.len() > 0 {
        seq![VariantV { tag: mir.account_states@[0].name@, fields: vs[0].fields@ }]
    } else {
        declared_variants(vs)
    }
}

/// The whole program.
pub open spec fn whole_scope(mir: Mir) -> ScopeV {
    ScopeV {
        variants: state_variants(mir),
        lifecycle: texts(mir.state.lifecycle_states@),
        imports: mir.imports@,
        handlers: mir.handlers@,
        properties: mir.properties@,
        covers: mir.covers@,
        liveness: mir.liveness_props@,
        environments: mir.environments@,
        constants: mir.constants@,
    }
}

/// References to the items of a list.
pub fn refer_all<'a, T>(v: &'a Vec<T>) -> (r: Vec<&'a T>)
    ensures
        refs(r@) == v@,
{
    let mut out: Vec<&'a T> = Vec::new();
    for i in 0..v.len()
        invariant
            out@.len() == i,
            forall|k: int| 0 <= k < i ==> *(#[trigger] out@[k]) == v@[k],
    {
        out.push(&v[i]);
    }
    proof {
        assert(refs(out@) =~= v@);
    }
    out
}

/// References to the variants of a declared state.
pub fn refer_variants<'a>(vs: &'a Vec<StateVariant>) -> (r: Vec<VariantRef<'a>>)
    ensures
        variant_views(r@) == declared_variants(vs@),
{
    let mut out: Vec<VariantRef<'a>> = Vec::new();
    for i in 0..vs.len()
        invariant
            out@.len() == i,
            forall|k: int|
                0 <= k < i ==> (#[trigger] out@[k])@ == (VariantV {
                    tag: vs@[k].tag@,
                    fields: vs@[k].fields@,
                }),
    {
        out.push(VariantRef { tag: &vs[i].tag, fields: &vs[i].fields });
    }
    proof {
        assert(variant_views(out@) =~= declared_variants(vs@));
    }
    out
}

/// References to the variants of the program's state.
fn refer_state<'a>(mir: &'a Mir) -> (r: Vec<VariantRef<'a>>)
    ensures
        variant_views(r@) == state_variants(*mir),
{
    let vs = &mir.state.variants;
    if vs.len() == 1 && vs[0].tag.as_str().is_empty() && mir.account_states.len() > 0 {
        let mut out: Vec<VariantRef<'a>> = Vec::new();
        out.push(VariantRef { tag: &mir.account_states[0].name, fields: &vs[0].fields });
        proof {
            assert(variant_views(out@) =~= state_variants(*mir));
        }
        out
    } else {
        refer_variants(vs)
    }
}

impl<'a> Scope<'a> {
    /// The whole program.
    pub fn whole(mir: &'a Mir) -> (r: Scope<'a>)
        ensures
            r@ == whole_scope(*mir),
    {
        Scope {
            variants: refer_state(mir),
            lifecycle: &mir.state.lifecycle_states,
            imports: &mir.imports,
            handlers: refer_all(&mir.handlers),
            properties: refer_all(&mir.properties),
            covers: refer_all(&mir.covers),
            liveness: refer_all(&mir.liveness_props),
            environments: &mir.environments,
            constants: refer_all(&mir.constants),
        }
    }
}

// ---------------------------------------------------------------------------
// Fields
// ---------------------------------------------------------------------------

/// The first field from `from` on that has the name.
pub open spec fn field_at(fs: Seq<FieldDecl>, name: Seq<char>, from: int) -> Option<int>
    decreases fs.len() - from,
{
    if from < 0 || from >= fs.len() {
        None
    } else if fs[from].name@ == name {
        Some(from)
    } else {
        field_at(fs, name, from + 1)
    }
}

/// Whether one of the fields has the name.
pub open spec fn has_field(fs: Seq<FieldDecl>, name: Seq<char>) -> bool {
    field_at(fs, name, 0) is Some
}

/// The type of the first field that has the name.
pub open spec fn field_ty(fs: Seq<FieldDecl>, name: Seq<char>) -> Option<Ty> {
    match field_at(fs, name, 0) {
        Some(i) => Some(fs[i].ty),
        None => None,
    }
}

/// The position of the first field that has the name.
pub fn find_field(fs: &Vec<FieldDecl>, name: &str) -> (r: Option<usize>)
    ensures
        match r {
            Some(i) => i < fs@.len() && field_at(fs@, name@, 0) == Some(i as int),
            None => field_at(fs@, name@, 0) is None,
        },
{
    let mut i: usize = 0;
    while i < fs.len()
        invariant
            i <= fs@.len(),
            field_at(fs@, name@, 0) == field_at(fs@, name@, i as int),
        decreases fs@.len() - i,
    {
        if same(&fs[i].name, name) {
            return Some(i);
        }
        i = i + 1;
    }
    None
}

/// The position of the first field that has the name.
pub fn find_field_ref(fs: &Vec<&FieldDecl>, name: &str) -> (r: Option<usize>)
    ensures
        match r {
            Some(i) => i < fs@.len() && field_at(refs(fs@), name@, 0) == Some(i as int),
            None => field_at(refs(fs@), name@, 0) is None,
        },
{
    let mut i: usize = 0;
    while i < fs.len()
        invariant
            i <= fs@.len(),
            field_at(refs(fs@), name@, 0) == field_at(refs(fs@), name@, i as int),
        decreases fs@.len() - i,
    {
        if same(&fs[i].name, name) {
            return Some(i);
        }
        i = i + 1;
    }
    None
}

/// The fields of `acc`, and those of the first `n` in `fs` whose names are new.
pub open spec fn merged_fields(acc: Seq<FieldDecl>, fs: Seq<FieldDecl>, n: nat) -> Seq<FieldDecl>
    decreases n,
{
    if n == 0 {
        acc
    } else {
        let before = merged_fields(acc, fs, (n - 1) as nat);
        if has_field(before, fs[n - 1].name@) {
            before
        } else {
            before.push(fs[n - 1])
        }
    }
}

/// The fields of the first `n` variants, each name once, in the order in which
/// the names come up.
pub open spec fn flat_fields_of(vs: Seq<VariantV>, n: nat) -> Seq<FieldDecl>
    decreases n,
{
    if n == 0 {
        Seq::empty()
    } else {
        merged_fields(
            flat_fields_of(vs, (n - 1) as nat),
            vs[n - 1].fields,
            vs[n - 1].fields.len(),
        )
    }
}

/// The fields of the flat state: those of all variants, each name once.
pub open spec fn flat_fields(vs: Seq<VariantV>) -> Seq<FieldDecl> {
    flat_fields_of(vs, vs.len())
}

/// No two fields of the flat state share a name.
pub proof fn flat_fields_are_distinct(vs: Seq<VariantV>, n: nat)
    requires
        n <= vs.len(),
    ensures
        distinct_names(flat_fields_of(vs, n)),
    decreases n,
{
    if n > 0 {
        flat_fields_are_distinct(vs, (n - 1) as nat);
        merged_fields_are_distinct(
            flat_fields_of(vs, (n - 1) as nat),
            vs[n - 1].fields,
            vs[n - 1].fields.len(),
        );
    }
}

/// No two of the fields share a name.
pub open spec fn distinct_names(fs: Seq<FieldDecl>) -> bool {
    forall|i: int, j: int|
        0 <= i < j < fs.len() ==> (#[trigger] fs[i]).name@ != (#[trigger] fs[j]).name@
}

proof fn merged_fields_are_distinct(acc: Seq<FieldDecl>, fs: Seq<FieldDecl>, n: nat)
    requires
        distinct_names(acc),
        n <= fs.len(),
    ensures
        distinct_names(merged_fields(acc, fs, n)),
    decreases n,
{
    if n > 0 {
        merged_fields_are_distinct(acc, fs, (n - 1) as nat);
        let before = merged_fields(acc, fs, (n - 1) as nat);
        lemma_field_at(before, fs[n - 1].name@, 0);
    }
}

/// What is found has the name, and nothing before it has.
pub proof fn lemma_field_at(fs: Seq<FieldDecl>, name: Seq<char>, from: int)
    requires
        0 <= from,
    ensures
        match field_at(fs, name, from) {
            Some(i) => from <= i < fs.len() && fs[i].name@ == name,
            None => forall|i: int| from <= i < fs.len() ==> (#[trigger] fs[i]).name@ != name,
        },
    decreases fs.len() - from,
{
    if from < fs.len() && fs[from].name@ != name {
        lemma_field_at(fs, name, from + 1);
    }
}

proof fn refs_push<T>(s: Seq<&T>, x: &T)
    ensures
        refs(s.push(x)) == refs(s).push(*x),
{
    assert(refs(s.push(x)) =~= refs(s).push(*x));
}

/// The fields of the flat state.
pub fn flat_state_fields<'a>(vs: &Vec<VariantRef<'a>>) -> (r: Vec<&'a FieldDecl>)
    ensures
        refs(r@) == flat_fields(variant_views(vs@)),
{
    let mut out: Vec<&'a FieldDecl> = Vec::new();
    proof {
        assert(refs(out@) =~= Seq::<FieldDecl>::empty());
    }
    for i in 0..vs.len()
        invariant
            refs(out@) == flat_fields_of(variant_views(vs@), i as nat),
    {
        let fields: &'a Vec<FieldDecl> = vs[i].fields;
        let ghost acc = refs(out@);
        for j in 0..fields.len()
            invariant
                refs(out@) == merged_fields(acc, fields@, j as nat),
        {
            if find_field_ref(&out, &fields[j].name).is_none() {
                proof {
                    refs_push(out@, &fields@[j as int]);
                }
                out.push(&fields[j]);
            }
        }
        proof {
            assert(variant_views(vs@)[i as int].fields == fields@);
        }
    }
    out
}

/// The names of the first `n` fields.
pub open spec fn field_names(fs: Seq<FieldDecl>, n: nat) -> Seq<Seq<char>>
    decreases n,
{
    if n == 0 {
        Seq::empty()
    } else {
        field_names(fs, (n - 1) as nat).push(fs[n - 1].name@)
    }
}

/// The first variant from `from` on that has the tag.
pub open spec fn variant_at(vs: Seq<VariantV>, tag: Seq<char>, from: int) -> Option<int>
    decreases vs.len() - from,
{
    if from < 0 || from >= vs.len() {
        None
    } else if vs[from].tag == tag {
        Some(from)
    } else {
        variant_at(vs, tag, from + 1)
    }
}

/// The position of the first variant that has the tag.
pub fn find_variant(vs: &Vec<VariantRef>, tag: &str) -> (r: Option<usize>)
    ensures
        match r {
            Some(i) => i < vs@.len() && variant_at(variant_views(vs@), tag@, 0) == Some(i as int),
            None => variant_at(variant_views(vs@), tag@, 0) is None,
        },
{
    let mut i: usize = 0;
    while i < vs.len()
        invariant
            i <= vs@.len(),
            variant_at(variant_views(vs@), tag@, 0) == variant_at(
                variant_views(vs@),
                tag@,
                i as int,
            ),
        decreases vs@.len() - i,
    {
        if same(vs[i].tag, tag) {
            return Some(i);
        }
        i = i + 1;
    }
    None
}

/// The first handler from `from` on that has the name.
pub open spec fn handler_at(hs: Seq<HandlerMir>, name: Seq<char>, from: int) -> Option<int>
    decreases hs.len() - from,
{
    if from < 0 || from >= hs.len() {
        None
    } else if hs[from].name@ == name {
        Some(from)
    } else {
        handler_at(hs, name, from + 1)
    }
}

/// The position of the first handler that has the name.
pub fn find_handler(hs: &Vec<&HandlerMir>, name: &str) -> (r: Option<usize>)
    ensures
        match r {
            Some(i) => i < hs@.len() && handler_at(refs(hs@), name@, 0) == Some(i as int),
            None => handler_at(refs(hs@), name@, 0) is None,
        },
{
    let mut i: usize = 0;
    while i < hs.len()
        invariant
            i <= hs@.len(),
            handler_at(refs(hs@), name@, 0) == handler_at(refs(hs@), name@, i as int),
        decreases hs@.len() - i,
    {
        if same(&hs[i].name, name) {
            return Some(i);
        }
        i = i + 1;
    }
    None
}

} // verus!
