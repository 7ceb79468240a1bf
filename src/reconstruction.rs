//! The reconstruction rules: for each declared type, how a value of it is
//! rebuilt from a syntax node of a parse tree.
use vstd::prelude::*;

use crate::decl::{fields_v, variants_v, Decl, Field, FieldV, Key, KeyV, Shape, ShapeV, DeclV, Variant, VariantV};

verus! {

/// How a value of a declared type is rebuilt from a syntax node, after the
/// node's kind has been checked and the node found free of errors.
#[derive(Debug, Clone, PartialEq, Eq)]
pub enum Reconstruction {
    /// Nothing to take; the node must be of the kind `kind`.
    CheckKind { kind: String },
    /// The text that the node spans.
    Text,
    /// The kind of the first child picks a variant: each pair is a child kind
    /// and the position of its variant; a kind that is not there is a mismatch.
    FirstChild { table: Vec<(String, usize)> },
    /// Each child fills a field: a pair of `by_kind` gives a child kind and the
    /// position of its field, a pair of `by_label` a grammar field and the
    /// position of its field.
    Children { by_kind: Vec<(String, usize)>, by_label: Vec<(String, usize)> },
    /// Each child gives one item of the type `item`, in order.
    EachChild { item: String },
}

pub ghost enum ReconstructionV {
    CheckKind { kind: Seq<char> },
    Text,
    FirstChild { table: Seq<(Seq<char>, nat)> },
    Children { by_kind: Seq<(Seq<char>, nat)>, by_label: Seq<(Seq<char>, nat)> },
    EachChild { item: Seq<char> },
}

pub open spec fn table_v(t: Seq<(String, usize)>) -> Seq<(Seq<char>, nat)> {
    t.map_values(|e: (String, usize)| (e.0@, e.1 as nat))
}

impl View for Reconstruction {
    type V = ReconstructionV;

    open spec fn view(&self) -> ReconstructionV {
        match self {
            Reconstruction::CheckKind { kind } => ReconstructionV::CheckKind { kind: kind@ },
            Reconstruction::Text => ReconstructionV::Text,
            Reconstruction::FirstChild { table } => ReconstructionV::FirstChild { table: table_v(table@) },
            Reconstruction::Children { by_kind, by_label } => ReconstructionV::Children {
                by_kind: table_v(by_kind@),
                by_label: table_v(by_label@),
            },
            Reconstruction::EachChild { item } => ReconstructionV::EachChild { item: item@ },
        }
    }
}

/// The child kinds of the first `n` variants, each with its variant's position,
/// in order; variants without a kind are not there.
pub open spec fn variant_table(vs: Seq<VariantV>, n: nat) -> Seq<(Seq<char>, nat)>
    decreases n,
{
    if n == 0 || n > vs.len() {
        Seq::empty()
    } else {
        let k = (n - 1) as nat;
        variant_table(vs, k) + match vs[k as int].kind {
            Some(c) => seq![(c, k)],
            None => Seq::empty(),
        }
    }
}

/// The keys of the first `n` fields that are child kinds (`labels` false) or
/// grammar fields (`labels` true), each with its field's position, in order.
pub open spec fn field_table(fs: Seq<FieldV>, n: nat, labels: bool) -> Seq<(Seq<char>, nat)>
    decreases n,
{
    if n == 0 || n > fs.len() {
        Seq::empty()
    } else {
        let k = (n - 1) as nat;
        field_table(fs, k, labels) + match fs[k as int].key {
            Some(KeyV::Kind(c)) => if labels {
                Seq::empty()
            } else {
                seq![(c, k)]
            },
            Some(KeyV::Label(l)) => if labels {
                seq![(l, k)]
            } else {
                Seq::empty()
            },
            None => Seq::empty(),
        }
    }
}

/// The reconstruction rule of a declaration; an alias and a field label have
/// none of their own.
pub open spec fn reconstruction_of(d: DeclV) -> Option<ReconstructionV> {
    match d.shape {
        ShapeV::Unit { kind } => Some(ReconstructionV::CheckKind { kind }),
        ShapeV::Leaf => Some(ReconstructionV::Text),
        ShapeV::Alias { .. } => None,
        ShapeV::Sum { variants } => Some(
            ReconstructionV::FirstChild { table: variant_table(variants, variants.len()) },
        ),
        ShapeV::Product { fields } => Some(
            ReconstructionV::Children {
                by_kind: field_table(fields, fields.len(), false),
                by_label: field_table(fields, fields.len(), true),
            },
        ),
        ShapeV::List { item } => Some(ReconstructionV::EachChild { item }),
        ShapeV::Label { .. } => None,
    }
}

fn variant_dispatch(vs: &Vec<Variant>) -> (r: Vec<(String, usize)>)
    ensures
        table_v(r@) == variant_table(variants_v(vs@), vs@.len() as nat),
{
    let ghost vv = variants_v(vs@);
    let mut t: Vec<(String, usize)> = Vec::new();
    assert(table_v(t@) =~= Seq::<(Seq<char>, nat)>::empty());
    let mut i: usize = 0;
    while i < vs.len()
        invariant
            i <= vs@.len(),
            vv == variants_v(vs@),
            table_v(t@) == variant_table(vv, i as nat),
        decreases vs@.len() - i,
    {
        let ghost before = table_v(t@);
        assert(vv[i as int] == vs@[i as int]@);
        match &vs[i].kind {
            Some(c) => {
                t.push((c.clone(), i));
                assert(table_v(t@) =~= before + seq![(c@, i as nat)]);
            },
            None => {
                assert(before =~= before + Seq::<(Seq<char>, nat)>::empty());
            },
        }
        i = i + 1;
    }
    t
}

fn field_dispatch(fs: &Vec<Field>, labels: bool) -> (r: Vec<(String, usize)>)
    ensures
        table_v(r@) == field_table(fields_v(fs@), fs@.len() as nat, labels),
{
    let ghost fv = fields_v(fs@);
    let mut t: Vec<(String, usize)> = Vec::new();
    assert(table_v(t@) =~= Seq::<(Seq<char>, nat)>::empty());
    let mut i: usize = 0;
    while i < fs.len()
        invariant
            i <= fs@.len(),
            fv == fields_v(fs@),
            table_v(t@) == field_table(fv, i as nat, labels),
        decreases fs@.len() - i,
    {
        let ghost before = table_v(t@);
        assert(fv[i as int] == fs@[i as int]@);
        match &fs[i].key {
            Some(Key::Kind(c)) => {
                if !labels {
                    t.push((c.clone(), i));
                    assert(table_v(t@) =~= before + seq![(c@, i as nat)]);
                } else {
                    assert(before =~= before + Seq::<(Seq<char>, nat)>::empty());
                }
            },
            Some(Key::Label(l)) => {
                if labels {
                    t.push((l.clone(), i));
                    assert(table_v(t@) =~= before + seq![(l@, i as nat)]);
                } else {
                    assert(before =~= before + Seq::<(Seq<char>, nat)>::empty());
                }
            },
            None => {
                assert(before =~= before + Seq::<(Seq<char>, nat)>::empty());
            },
        }
        i = i + 1;
    }
    t
}

pub open spec fn opt_reconstruction_v(r: Option<Reconstruction>) -> Option<ReconstructionV> {
    match r {
        Some(x) => Some(x@),
        None => None,
    }
}

impl Decl {
    /// The reconstruction rule of this declaration, if it is a concrete type.
    pub fn reconstruction(&self) -> (r: Option<Reconstruction>)
        ensures
            opt_reconstruction_v(r) == reconstruction_of(self@),
    {
        match &self.shape {
            Shape::Unit { kind } => Some(Reconstruction::CheckKind { kind: kind.clone() }),
            Shape::Leaf => Some(Reconstruction::Text),
            Shape::Alias { .. } => None,
            Shape::Sum { variants } => Some(Reconstruction::FirstChild { table: variant_dispatch(variants) }),
            Shape::Product { fields } => Some(
                Reconstruction::Children {
                    by_kind: field_dispatch(fields, false),
                    by_label: field_dispatch(fields, true),
                },
            ),
            Shape::List { item } => Some(Reconstruction::EachChild { item: item.clone() }),
            Shape::Label { .. } => None,
        }
    }
}

} // verus!
