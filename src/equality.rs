//! Structural equality of compiled declarations.
use vstd::prelude::*;

use crate::decl::{
    decls_v, fields_v, notes_v, opt_text_v, payloads_v, variants_v, Decl, Field, Fragment, Key, Note,
    Payload, Shape, Variant,
};
use crate::naming::same_text;

verus! {

/// Whether two lists of payloads are equal.
pub fn same_payloads(a: &Vec<Payload>, b: &Vec<Payload>) -> (r: bool)
    ensures
        r == (payloads_v(a@) == payloads_v(b@)),
{
    if a.len() != b.len() {
        assert(payloads_v(a@).len() != payloads_v(b@).len());
        return false;
    }
    let mut i: usize = 0;
    while i < a.len()
        invariant
            a@.len() == b@.len(),
            i <= a@.len(),
            forall|k: int| 0 <= k < i ==> a@[k]@ == b@[k]@,
        decreases a@.len() - i,
    {
        if !a[i].same(&b[i]) {
            assert(payloads_v(a@)[i as int] != payloads_v(b@)[i as int]);
            return false;
        }
        i = i + 1;
    }
    assert(payloads_v(a@) =~= payloads_v(b@));
    true
}

/// Whether two lists of variants are equal.
pub fn same_variants(a: &Vec<Variant>, b: &Vec<Variant>) -> (r: bool)
    ensures
        r == (variants_v(a@) == variants_v(b@)),
{
    if a.len() != b.len() {
        assert(variants_v(a@).len() != variants_v(b@).len());
        return false;
    }
    let mut i: usize = 0;
    while i < a.len()
        invariant
            a@.len() == b@.len(),
            i <= a@.len(),
            forall|k: int| 0 <= k < i ==> a@[k]@ == b@[k]@,
        decreases a@.len() - i,
    {
        if !a[i].same(&b[i]) {
            assert(variants_v(a@)[i as int] != variants_v(b@)[i as int]);
            return false;
        }
        i = i + 1;
    }
    assert(variants_v(a@) =~= variants_v(b@));
    true
}

/// Whether two lists of fields are equal.
pub fn same_fields(a: &Vec<Field>, b: &Vec<Field>) -> (r: bool)
    ensures
        r == (fields_v(a@) == fields_v(b@)),
{
    if a.len() != b.len() {
        assert(fields_v(a@).len() != fields_v(b@).len());
        return false;
    }
    let mut i: usize = 0;
    while i < a.len()
        invariant
            a@.len() == b@.len(),
            i <= a@.len(),
            forall|k: int| 0 <= k < i ==> a@[k]@ == b@[k]@,
        decreases a@.len() - i,
    {
        if !a[i].same(&b[i]) {
            assert(fields_v(a@)[i as int] != fields_v(b@)[i as int]);
            return false;
        }
        i = i + 1;
    }
    assert(fields_v(a@) =~= fields_v(b@));
    true
}

/// Whether two lists of decls are equal.
pub fn same_decls(a: &Vec<Decl>, b: &Vec<Decl>) -> (r: bool)
    ensures
        r == (decls_v(a@) == decls_v(b@)),
{
    if a.len() != b.len() {
        assert(decls_v(a@).len() != decls_v(b@).len());
        return false;
    }
    let mut i: usize = 0;
    while i < a.len()
        invariant
            a@.len() == b@.len(),
            i <= a@.len(),
            forall|k: int| 0 <= k < i ==> a@[k]@ == b@[k]@,
        decreases a@.len() - i,
    {
        if !a[i].same(&b[i]) {
            assert(decls_v(a@)[i as int] != decls_v(b@)[i as int]);
            return false;
        }
        i = i + 1;
    }
    assert(decls_v(a@) =~= decls_v(b@));
    true
}

/// Whether two lists of notes are equal.
pub fn same_notes(a: &Vec<Note>, b: &Vec<Note>) -> (r: bool)
    ensures
        r == (notes_v(a@) == notes_v(b@)),
{
    if a.len() != b.len() {
        assert(notes_v(a@).len() != notes_v(b@).len());
        return false;
    }
    let mut i: usize = 0;
    while i < a.len()
        invariant
            a@.len() == b@.len(),
            i <= a@.len(),
            forall|k: int| 0 <= k < i ==> a@[k]@ == b@[k]@,
        decreases a@.len() - i,
    {
        if !a[i].same(&b[i]) {
            assert(notes_v(a@)[i as int] != notes_v(b@)[i as int]);
            return false;
        }
        i = i + 1;
    }
    assert(notes_v(a@) =~= notes_v(b@));
    true
}

/// Whether two optional texts are equal.
pub fn same_opt_text(a: &Option<String>, b: &Option<String>) -> (r: bool)
    ensures
        r == (opt_text_v(*a) == opt_text_v(*b)),
{
    match (a, b) {
        (None, None) => true,
        (Some(x), Some(y)) => same_text(x.as_str(), y.as_str()),
        _ => false,
    }
}

impl Key {
    /// Whether two keys are equal.
    pub fn same(&self, o: &Key) -> (r: bool)
        ensures
            r == (self@ == o@),
    {
        match (self, o) {
            (Key::Kind(a), Key::Kind(b)) => same_text(a.as_str(), b.as_str()),
            (Key::Label(a), Key::Label(b)) => same_text(a.as_str(), b.as_str()),
            _ => false,
        }
    }
}

impl Payload {
    /// Whether two payload items are equal.
    pub fn same(&self, o: &Payload) -> (r: bool)
        ensures
            r == (self@ == o@),
    {
        self.boxed == o.boxed && same_text(self.ty.as_str(), o.ty.as_str())
    }
}

impl Variant {
    /// Whether two variants are equal.
    pub fn same(&self, o: &Variant) -> (r: bool)
        ensures
            r == (self@ == o@),
    {
        if !same_text(self.name.as_str(), o.name.as_str()) || !same_opt_text(&self.kind, &o.kind) {
            return false;
        }
        match (&self.payload, &o.payload) {
            (None, None) => true,
            (Some(p), Some(q)) => same_payloads(p, q),
            _ => false,
        }
    }
}

impl Field {
    /// Whether two fields are equal.
    pub fn same(&self, o: &Field) -> (r: bool)
        ensures
            r == (self@ == o@),
    {
        let same_key = match (&self.key, &o.key) {
            (None, None) => true,
            (Some(a), Some(b)) => a.same(b),
            _ => false,
        };
        same_key && self.boxed == o.boxed && self.repeated == o.repeated && same_text(
            self.name.as_str(),
            o.name.as_str(),
        ) && same_text(self.ty.as_str(), o.ty.as_str())
    }
}

impl Shape {
    /// Whether two shapes are equal.
    pub fn same(&self, o: &Shape) -> (r: bool)
        ensures
            r == (self@ == o@),
    {
        match (self, o) {
            (Shape::Unit { kind: a }, Shape::Unit { kind: b }) => same_text(a.as_str(), b.as_str()),
            (Shape::Leaf, Shape::Leaf) => true,
            (Shape::Alias { target: a }, Shape::Alias { target: b }) => same_text(a.as_str(), b.as_str()),
            (Shape::Sum { variants: a }, Shape::Sum { variants: b }) => same_variants(a, b),
            (Shape::Product { fields: a }, Shape::Product { fields: b }) => same_fields(a, b),
            (Shape::List { item: a }, Shape::List { item: b }) => same_text(a.as_str(), b.as_str()),
            (Shape::Label { field: a }, Shape::Label { field: b }) => same_text(a.as_str(), b.as_str()),
            _ => false,
        }
    }
}

impl Decl {
    /// Whether two declarations are equal.
    pub fn same(&self, o: &Decl) -> (r: bool)
        ensures
            r == (self@ == o@),
    {
        same_text(self.name.as_str(), o.name.as_str()) && self.shape.same(&o.shape)
    }
}

impl Note {
    /// Whether two notes are equal.
    pub fn same(&self, o: &Note) -> (r: bool)
        ensures
            r == (self@ == o@),
    {
        self.index == o.index && same_text(self.rule.as_str(), o.rule.as_str()) && same_text(
            self.tag.as_str(),
            o.tag.as_str(),
        )
    }
}

impl Fragment {
    /// Whether two fragments are equal.
    pub fn same(&self, o: &Fragment) -> (r: bool)
        ensures
            r == (self@ == o@),
    {
        same_decls(&self.decls, &o.decls) && same_notes(&self.notes, &o.notes)
    }
}

} // verus!
