//! The compiled form of a grammar: type declarations, each with what the
//! reconstruction of a value from a syntax node needs.
use vstd::prelude::*;

verus! {

/// One item that a tuple variant carries.
#[derive(Debug, Clone, PartialEq, Eq)]
pub struct Payload {
    /// The name of the carried type.
    pub ty: String,
    /// Whether the item is held through a heap pointer (the variant's own type).
    pub boxed: bool,
}

/// One variant of a sum type.
#[derive(Debug, Clone, PartialEq, Eq)]
pub struct Variant {
    pub name: String,
    /// The node kind of a first child that picks this variant: the text of a
    /// literal member or the name of a symbol member.
    pub kind: Option<String>,
    /// `None` for a variant without payload; otherwise what it carries, in order.
    pub payload: Option<Vec<Payload>>,
}

/// What tells which child of a node fills a field.
#[derive(Debug, Clone, PartialEq, Eq)]
pub enum Key {
    /// A child of this node kind.
    Kind(String),
    /// The child under this grammar field.
    Label(String),
}

/// One field of a product type.
#[derive(Debug, Clone, PartialEq, Eq)]
pub struct Field {
    pub name: String,
    pub ty: String,
    /// How the child that fills the field is recognised, where the member says.
    pub key: Option<Key>,
    /// Whether the value is held through a heap pointer (the product's own type).
    pub boxed: bool,
    /// Whether the field holds a sequence of values of `ty`.
    pub repeated: bool,
}

/// What a declared type is.
#[derive(Debug, Clone, PartialEq, Eq)]
pub enum Shape {
    /// A type without data; a node is accepted when its kind is `kind`.
    Unit { kind: String },
    /// A type that holds the text that a node spans.
    Leaf,
    /// Another name for the type `target`.
    Alias { target: String },
    /// A sum type: the first child of a node picks the variant.
    Sum { variants: Vec<Variant> },
    /// A product type: each child of a node fills the field of its kind.
    Product { fields: Vec<Field> },
    /// A sequence of values of `item`, one for each child of a node.
    List { item: String },
    /// The grammar field `field` is labelled by this type.
    Label { field: String },
}

/// One declared type.
#[derive(Debug, Clone, PartialEq, Eq)]
pub struct Decl {
    pub name: String,
    pub shape: Shape,
}

/// A member of a rule that was left out: the type being compiled, the member's
/// position and its tag.
#[derive(Debug, Clone, PartialEq, Eq)]
pub struct Note {
    pub rule: String,
    pub index: usize,
    pub tag: String,
}

/// What compiling a rule gives: its declarations in order and the members that
/// were left out.
#[derive(Debug, Clone, PartialEq, Eq)]
pub struct Fragment {
    pub decls: Vec<Decl>,
    pub notes: Vec<Note>,
}

pub ghost struct PayloadV {
    pub ty: Seq<char>,
    pub boxed: bool,
}

pub ghost struct VariantV {
    pub name: Seq<char>,
    pub kind: Option<Seq<char>>,
    pub payload: Option<Seq<PayloadV>>,
}

pub ghost enum KeyV {
    Kind(Seq<char>),
    Label(Seq<char>),
}

pub ghost struct FieldV {
    pub name: Seq<char>,
    pub ty: Seq<char>,
    pub key: Option<KeyV>,
    pub boxed: bool,
    pub repeated: bool,
}

pub ghost enum ShapeV {
    Unit { kind: Seq<char> },
    Leaf,
    Alias { target: Seq<char> },
    Sum { variants: Seq<VariantV> },
    Product { fields: Seq<FieldV> },
    List { item: Seq<char> },
    Label { field: Seq<char> },
}

pub ghost struct DeclV {
    pub name: Seq<char>,
    pub shape: ShapeV,
}

pub ghost struct NoteV {
    pub rule: Seq<char>,
    pub index: nat,
    pub tag: Seq<char>,
}

pub ghost struct FragmentV {
    pub decls: Seq<DeclV>,
    pub notes: Seq<NoteV>,
}

impl View for Payload {
    type V = PayloadV;

    open spec fn view(&self) -> PayloadV {
        PayloadV { ty: self.ty@, boxed: self.boxed }
    }
}

pub open spec fn payloads_v(s: Seq<Payload>) -> Seq<PayloadV> {
    s.map_values(|p: Payload| p@)
}

pub open spec fn opt_text_v(o: Option<String>) -> Option<Seq<char>> {
    match o {
        Some(t) => Some(t@),
        None => None,
    }
}

impl View for Key {
    type V = KeyV;

    open spec fn view(&self) -> KeyV {
        match self {
            Key::Kind(k) => KeyV::Kind(k@),
            Key::Label(l) => KeyV::Label(l@),
        }
    }
}

pub open spec fn opt_key_v(o: Option<Key>) -> Option<KeyV> {
    match o {
        Some(k) => Some(k@),
        None => None,
    }
}

impl View for Variant {
    type V = VariantV;

    open spec fn view(&self) -> VariantV {
        VariantV {
            name: self.name@,
            kind: opt_text_v(self.kind),
            payload: match self.payload {
                Some(p) => Some(payloads_v(p@)),
                None => None,
            },
        }
    }
}

pub open spec fn variants_v(s: Seq<Variant>) -> Seq<VariantV> {
    s.map_values(|v: Variant| v@)
}

impl View for Field {
    type V = FieldV;

    open spec fn view(&self) -> FieldV {
        FieldV {
            name: self.name@,
            ty: self.ty@,
            key: opt_key_v(self.key),
            boxed: self.boxed,
            repeated: self.repeated,
        }
    }
}

pub open spec fn fields_v(s: Seq<Field>) -> Seq<FieldV> {
    s.map_values(|f: Field| f@)
}

impl View for Shape {
    type V = ShapeV;

    open spec fn view(&self) -> ShapeV {
        match self {
            Shape::Unit { kind } => ShapeV::Unit { kind: kind@ },
            Shape::Leaf => ShapeV::Leaf,
            Shape::Alias { target } => ShapeV::Alias { target: target@ },
            Shape::Sum { variants } => ShapeV::Sum { variants: variants_v(variants@) },
            Shape::Product { fields } => ShapeV::Product { fields: fields_v(fields@) },
            Shape::List { item } => ShapeV::List { item: item@ },
            Shape::Label { field } => ShapeV::Label { field: field@ },
        }
    }
}

impl View for Decl {
    type V = DeclV;

    open spec fn view(&self) -> DeclV {
        DeclV { name: self.name@, shape: self.shape@ }
    }
}

pub open spec fn decls_v(s: Seq<Decl>) -> Seq<DeclV> {
    s.map_values(|d: Decl| d@)
}

impl View for Note {
    type V = NoteV;

    open spec fn view(&self) -> NoteV {
        NoteV { rule: self.rule@, index: self.index as nat, tag: self.tag@ }
    }
}

pub open spec fn notes_v(s: Seq<Note>) -> Seq<NoteV> {
    s.map_values(|n: Note| n@)
}

impl View for Fragment {
    type V = FragmentV;

    open spec fn view(&self) -> FragmentV {
        FragmentV { decls: decls_v(self.decls@), notes: notes_v(self.notes@) }
    }
}

} // verus!
