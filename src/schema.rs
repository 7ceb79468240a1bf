//! The type-schema compiler: from one rule to the declarations of its types.
use vstd::prelude::*;

use crate::decl::{
    decls_v, fields_v, notes_v, opt_key_v, opt_text_v, payloads_v, variants_v, Decl, DeclV, Field,
    FieldV, Fragment, FragmentV, Key, KeyV, Note, NoteV, Payload, PayloadV, Shape, ShapeV, Variant,
    VariantV,
};
use crate::grammar::{tag_of, RuleJSON};
use crate::naming::{
    decimal, decimal_of, ident_of, same_text, snake, snake_of, to_ident, upper_camel, upper_camel_of,
};

verus! {

broadcast use vstd::std_specs::vec::group_vec_axioms;

/// The name of the type declared for a rule named `name`.
pub open spec fn rule_type_name(name: Seq<char>) -> Seq<char> {
    upper_camel_of(name)
}

/// The type made for the member at position `i` of the type `ty`.
pub open spec fn token_type_name(ty: Seq<char>, i: nat) -> Seq<char> {
    upper_camel_of(ty + "_TOKEN_"@ + decimal_of(i))
}

/// The field that holds the member at position `i` of the type `ty`.
pub open spec fn token_field_name(ty: Seq<char>, i: nat) -> Seq<char> {
    snake_of(ty + "_TOKEN_"@ + decimal_of(i))
}

/// The type made for the content of the grammar field `label` inside `ty`.
pub open spec fn label_type_name(ty: Seq<char>, label: Seq<char>) -> Seq<char> {
    upper_camel_of(ty + "_"@ + label)
}

/// The type of the items of a repetition compiled as `ty`.
pub open spec fn item_type_name(ty: Seq<char>) -> Seq<char> {
    upper_camel_of(ty + "_TOKEN"@)
}

/// Whether `r`, standing as a member of the type `ty`, refers to `ty` itself: a
/// symbol whose type is `ty`, a sequence with such a member, or an alias of one.
pub open spec fn refers_to(ty: Seq<char>, r: RuleJSON) -> bool
    decreases r, 1nat, 0nat,
{
    match r {
        RuleJSON::SYMBOL { name } => rule_type_name(name@) == ty,
        RuleJSON::SEQ { members } => some_member_refers(ty, r, members.len() as nat),
        RuleJSON::ALIAS { content, .. } => refers_to(ty, *content),
        _ => false,
    }
}

/// Whether one of the first `n` members of the sequence `r` refers to `ty`.
pub open spec fn some_member_refers(ty: Seq<char>, r: RuleJSON, n: nat) -> bool
    decreases r, 0nat, n,
{
    match r {
        RuleJSON::SEQ { members } => {
            &&& 0 < n <= members.len()
            &&& (some_member_refers(ty, r, (n - 1) as nat) || refers_to(
                ty,
                members[n - 1],
            ))
        },
        _ => false,
    }
}

pub open spec fn empty_fragment() -> FragmentV {
    FragmentV { decls: Seq::empty(), notes: Seq::empty() }
}

/// A fragment that declares one type.
pub open spec fn single(name: Seq<char>, shape: ShapeV) -> FragmentV {
    FragmentV { decls: seq![DeclV { name, shape }], notes: Seq::empty() }
}

/// A fragment followed by the declaration of one more type.
pub open spec fn then_declare(f: FragmentV, name: Seq<char>, shape: ShapeV) -> FragmentV {
    FragmentV { decls: f.decls.push(DeclV { name, shape }), notes: f.notes }
}

/// What the first members of a choice have given so far.
pub ghost struct ChoiceAcc {
    pub nested: FragmentV,
    pub variants: Seq<VariantV>,
    pub used: Seq<Seq<char>>,
}

/// What the first members of a sequence have given so far; `seen` holds the
/// referenced names that already named a field.
pub ghost struct SeqAcc {
    pub nested: FragmentV,
    pub fields: Seq<FieldV>,
    pub seen: Seq<Seq<char>>,
    /// The names of the fields so far.
    pub taken: Seq<Seq<char>>,
}

pub open spec fn join(a: FragmentV, b: FragmentV) -> FragmentV {
    FragmentV { decls: a.decls + b.decls, notes: a.notes + b.notes }
}

pub open spec fn noted(f: FragmentV, ty: Seq<char>, i: nat, m: RuleJSON) -> FragmentV {
    FragmentV {
        decls: f.decls,
        notes: f.notes.push(NoteV { rule: ty, index: i, tag: tag_of(m) }),
    }
}

/// The length of the longest name.
pub open spec fn max_len(used: Seq<Seq<char>>) -> nat
    decreases used.len(),
{
    if used.len() == 0 {
        0
    } else {
        let m = max_len(used.drop_last());
        if used.last().len() > m {
            used.last().len()
        } else {
            m
        }
    }
}

pub proof fn lemma_max_len(used: Seq<Seq<char>>, x: Seq<char>)
    requires
        used.contains(x),
    ensures
        x.len() <= max_len(used),
    decreases used.len(),
{
    if used.last() != x {
        let k = choose|k: int| 0 <= k < used.len() && used[k] == x;
        assert(used.drop_last()[k] == x);
        lemma_max_len(used.drop_last(), x);
    }
}

#[via_fn]
proof fn free_name_decreases(used: Seq<Seq<char>>, base: Seq<char>) {
    if used.contains(base) {
        lemma_max_len(used, base);
    }
}

/// `base`, with as many underscores appended as it takes to be a name that is
/// not taken.
pub open spec fn free_name(used: Seq<Seq<char>>, base: Seq<char>) -> Seq<char>
    decreases max_len(used) + 1 - base.len(),
    via free_name_decreases
{
    if used.contains(base) {
        free_name(used, base.push('_'))
    } else {
        base
    }
}

pub proof fn lemma_free_name(used: Seq<Seq<char>>, base: Seq<char>)
    ensures
        !used.contains(free_name(used, base)),
    decreases max_len(used) + 1 - base.len(),
{
    if used.contains(base) {
        lemma_max_len(used, base);
        lemma_free_name(used, base.push('_'));
    }
}

/// A name that is free is kept; a taken one gets the member's position
/// appended, then underscores until it is free.
pub open spec fn unique_name(used: Seq<Seq<char>>, cand: Seq<char>, i: nat) -> Seq<char> {
    if used.contains(cand) {
        free_name(used, cand + decimal_of(i))
    } else {
        cand
    }
}

pub open spec fn add_variant(
    acc: ChoiceAcc,
    cand: Seq<char>,
    kind: Option<Seq<char>>,
    i: nat,
    payload: Option<Seq<PayloadV>>,
    sub: FragmentV,
) -> ChoiceAcc {
    let name = unique_name(acc.used, cand, i);
    ChoiceAcc {
        nested: join(acc.nested, sub),
        variants: acc.variants.push(VariantV { name, kind, payload }),
        used: acc.used.push(name),
    }
}

/// Whether every member is a literal or a symbol.
pub open spec fn all_plain(ms: Seq<RuleJSON>) -> bool {
    forall|k: int| 0 <= k < ms.len() ==> (ms[k] is STRING || ms[k] is SYMBOL)
}

/// The node kind of the first member of a plain sequence.
pub open spec fn first_kind(ms: Seq<RuleJSON>) -> Option<Seq<char>> {
    if ms.len() == 0 {
        None
    } else {
        match ms[0] {
            RuleJSON::STRING { value } => Some(value@),
            RuleJSON::SYMBOL { name } => Some(name@),
            _ => None,
        }
    }
}

/// The payload of a plain sequence: one item per symbol, in order; literals give none.
pub open spec fn symbol_payloads(ty: Seq<char>, ms: Seq<RuleJSON>) -> Seq<PayloadV>
    decreases ms.len(),
{
    if ms.len() == 0 {
        Seq::empty()
    } else {
        let m = ms.last();
        symbol_payloads(ty, ms.drop_last()) + match m {
            RuleJSON::SYMBOL { name } => seq![PayloadV { ty: rule_type_name(name@), boxed: refers_to(ty, m) }],
            _ => Seq::empty(),
        }
    }
}

/// The variant that a member made into a type of its own gives.
pub open spec fn nested_variant(acc: ChoiceAcc, ty: Seq<char>, i: nat, sub: FragmentV) -> ChoiceAcc {
    let t = token_type_name(ty, i);
    add_variant(acc, t, None, i, Some(seq![PayloadV { ty: t, boxed: false }]), sub)
}

/// The effect of the member `m` at position `i` of the choice `ty`, where `sub`
/// is what `m` compiles to as a type of its own.
pub open spec fn choice_step(ty: Seq<char>, i: nat, m: RuleJSON, acc: ChoiceAcc, sub: FragmentV) -> ChoiceAcc {
    match m {
        RuleJSON::STRING { value } => add_variant(
            acc,
            upper_camel_of(ident_of(value@)),
            Some(value@),
            i,
            None,
            empty_fragment(),
        ),
        RuleJSON::SYMBOL { name } => add_variant(
            acc,
            rule_type_name(name@),
            Some(name@),
            i,
            Some(seq![PayloadV { ty: rule_type_name(name@), boxed: refers_to(ty, m) }]),
            empty_fragment(),
        ),
        RuleJSON::SEQ { members } => if all_plain(members@) {
            add_variant(acc, token_type_name(ty, i), first_kind(members@), i, Some(symbol_payloads(ty, members@)), empty_fragment())
        } else {
            nested_variant(acc, ty, i, sub)
        },
        RuleJSON::ALIAS { named, .. } => if named {
            nested_variant(acc, ty, i, sub)
        } else {
            acc
        },
        RuleJSON::BLANK => add_variant(acc, "Blank"@, None, i, None, empty_fragment()),
        RuleJSON::CHOICE { .. } => nested_variant(acc, ty, i, sub),
        RuleJSON::PATTERN { .. } => nested_variant(acc, ty, i, sub),
        _ => ChoiceAcc { nested: noted(acc.nested, ty, i, m), variants: acc.variants, used: acc.used },
    }
}

pub open spec fn add_field(acc: SeqAcc, f: FieldV, sub: FragmentV) -> SeqAcc {
    SeqAcc {
        nested: join(acc.nested, sub),
        fields: acc.fields.push(f),
        seen: acc.seen,
        taken: acc.taken.push(f.name),
    }
}

/// A field named after a referenced name, with the position appended from the
/// second use of that name on.
pub open spec fn add_named_field(
    acc: SeqAcc,
    raw: Seq<char>,
    i: nat,
    ty: Seq<char>,
    key: KeyV,
    boxed: bool,
    sub: FragmentV,
) -> SeqAcc {
    let seen = acc.seen.contains(raw);
    let base = if seen { raw + "_"@ + decimal_of(i) } else { raw };
    let name = free_name(acc.taken, snake_of(base));
    SeqAcc {
        nested: join(acc.nested, sub),
        fields: acc.fields.push(FieldV { name, ty, key: Some(key), boxed, repeated: false }),
        seen: if seen { acc.seen } else { acc.seen.push(raw) },
        taken: acc.taken.push(name),
    }
}

pub open spec fn token_field(ty: Seq<char>, i: nat, repeated: bool, key: Option<KeyV>, taken: Seq<Seq<char>>) -> FieldV {
    FieldV {
        name: free_name(taken, token_field_name(ty, i)),
        ty: token_type_name(ty, i),
        key,
        boxed: false,
        repeated,
    }
}

/// The effect of the member `m` at position `i` of the sequence `ty`, where `sub`
/// is what `m` compiles to (the content of `m` for a repetition).
pub open spec fn seq_step(ty: Seq<char>, i: nat, m: RuleJSON, acc: SeqAcc, sub: FragmentV) -> SeqAcc {
    match m {
        RuleJSON::SYMBOL { name } => add_named_field(
            acc,
            name@,
            i,
            rule_type_name(name@),
            KeyV::Kind(name@),
            refers_to(ty, m),
            empty_fragment(),
        ),
        RuleJSON::FIELD { name, .. } => add_named_field(
            acc,
            name@,
            i,
            label_type_name(ty, name@),
            KeyV::Label(name@),
            false,
            sub,
        ),
        RuleJSON::STRING { value } => add_field(acc, token_field(ty, i, false, Some(KeyV::Kind(value@)), acc.taken), sub),
        RuleJSON::PATTERN { .. } => add_field(acc, token_field(ty, i, false, None, acc.taken), sub),
        RuleJSON::CHOICE { .. } => add_field(acc, token_field(ty, i, false, None, acc.taken), sub),
        RuleJSON::SEQ { .. } => add_field(acc, token_field(ty, i, false, None, acc.taken), sub),
        RuleJSON::TOKEN { .. } => add_field(acc, token_field(ty, i, false, None, acc.taken), sub),
        RuleJSON::IMMEDIATE_TOKEN { .. } => add_field(acc, token_field(ty, i, false, None, acc.taken), sub),
        RuleJSON::ALIAS { named, .. } => if named {
            add_field(acc, token_field(ty, i, false, None, acc.taken), sub)
        } else {
            acc
        },
        RuleJSON::REPEAT { .. } => add_field(acc, token_field(ty, i, true, None, acc.taken), sub),
        RuleJSON::REPEAT1 { .. } => add_field(acc, token_field(ty, i, true, None, acc.taken), sub),
        _ => SeqAcc { nested: noted(acc.nested, ty, i, m), fields: acc.fields, seen: acc.seen, taken: acc.taken },
    }
}

/// The declarations that the rule `r` compiles to under the type name `ty`.
pub open spec fn gen(r: RuleJSON, ty: Seq<char>) -> FragmentV
    decreases r, 1nat, 0nat,
{
    match r {
        RuleJSON::ALIAS { content, named, .. } => if named {
            gen(*content, ty)
        } else {
            empty_fragment()
        },
        RuleJSON::BLANK => empty_fragment(),
        RuleJSON::STRING { value } => single(ty, ShapeV::Unit { kind: value@ }),
        RuleJSON::PATTERN { .. } => single(ty, ShapeV::Leaf),
        RuleJSON::SYMBOL { name } => single(ty, ShapeV::Alias { target: rule_type_name(name@) }),
        RuleJSON::CHOICE { members } => {
            let acc = choice_acc(r, ty, members.len() as nat);
            then_declare(acc.nested, ty, ShapeV::Sum { variants: acc.variants })
        },
        RuleJSON::FIELD { name, content } => {
            let t = label_type_name(ty, name@);
            then_declare(gen(*content, t), t, ShapeV::Label { field: name@ })
        },
        RuleJSON::SEQ { members } => {
            let acc = seq_acc(r, ty, members.len() as nat);
            then_declare(acc.nested, ty, ShapeV::Product { fields: acc.fields })
        },
        RuleJSON::REPEAT { content } => {
            let t = item_type_name(ty);
            then_declare(gen(*content, t), ty, ShapeV::List { item: t })
        },
        RuleJSON::REPEAT1 { content } => {
            let t = item_type_name(ty);
            then_declare(gen(*content, t), ty, ShapeV::List { item: t })
        },
        RuleJSON::PREC_DYNAMIC { content, .. } => gen(*content, ty),
        RuleJSON::PREC_LEFT { content, .. } => gen(*content, ty),
        RuleJSON::PREC_RIGHT { content, .. } => gen(*content, ty),
        RuleJSON::PREC { content, .. } => gen(*content, ty),
        RuleJSON::TOKEN { content } => gen(*content, ty),
        RuleJSON::IMMEDIATE_TOKEN { content } => gen(*content, ty),
    }
}

pub open spec fn empty_choice() -> ChoiceAcc {
    ChoiceAcc { nested: empty_fragment(), variants: Seq::empty(), used: Seq::empty() }
}

pub open spec fn empty_seq() -> SeqAcc {
    SeqAcc { nested: empty_fragment(), fields: Seq::empty(), seen: Seq::empty(), taken: Seq::empty() }
}

/// What the first `n` members of the choice `r` give.
pub open spec fn choice_acc(r: RuleJSON, ty: Seq<char>, n: nat) -> ChoiceAcc
    decreases r, 0nat, n,
{
    match r {
        RuleJSON::CHOICE { members } => if 0 < n <= members.len() {
            let i = (n - 1) as nat;
            let m = members[i as int];
            choice_step(ty, i, m, choice_acc(r, ty, i), gen(m, token_type_name(ty, i)))
        } else {
            empty_choice()
        },
        _ => empty_choice(),
    }
}

/// What a member of a sequence compiles to: the content of a repetition under
/// its own type, a grammar field under the sequence's name, anything else under
/// its own type.
pub open spec fn seq_member_sub(ty: Seq<char>, i: nat, m: RuleJSON) -> FragmentV
    decreases m, 2nat, 0nat,
{
    match m {
        RuleJSON::REPEAT { content } => gen(*content, token_type_name(ty, i)),
        RuleJSON::REPEAT1 { content } => gen(*content, token_type_name(ty, i)),
        RuleJSON::FIELD { .. } => gen(m, ty),
        _ => gen(m, token_type_name(ty, i)),
    }
}

/// What the first `n` members of the sequence `r` give.
pub open spec fn seq_acc(r: RuleJSON, ty: Seq<char>, n: nat) -> SeqAcc
    decreases r, 0nat, n,
{
    match r {
        RuleJSON::SEQ { members } => if 0 < n <= members.len() {
            let i = (n - 1) as nat;
            let m = members[i as int];
            seq_step(ty, i, m, seq_acc(r, ty, i), seq_member_sub(ty, i, m))
        } else {
            empty_seq()
        },
        _ => empty_seq(),
    }
}

} // verus!

verus! {

pub open spec fn texts_v(s: Seq<String>) -> Seq<Seq<char>> {
    s.map_values(|x: String| x@)
}

fn token_type(ty: &str, i: usize) -> (r: String)
    ensures
        r@ == token_type_name(ty@, i as nat),
{
    let mut s = String::from_str(ty);
    s.append("_TOKEN_");
    let d = decimal(i);
    s.append(d.as_str());
    upper_camel(s.as_str())
}

fn token_field_of(ty: &str, i: usize) -> (r: String)
    ensures
        r@ == token_field_name(ty@, i as nat),
{
    let mut s = String::from_str(ty);
    s.append("_TOKEN_");
    let d = decimal(i);
    s.append(d.as_str());
    snake(s.as_str())
}

fn label_type(ty: &str, label: &str) -> (r: String)
    ensures
        r@ == label_type_name(ty@, label@),
{
    let mut s = String::from_str(ty);
    s.append("_");
    s.append(label);
    upper_camel(s.as_str())
}

fn item_type(ty: &str) -> (r: String)
    ensures
        r@ == item_type_name(ty@),
{
    let mut s = String::from_str(ty);
    s.append("_TOKEN");
    upper_camel(s.as_str())
}

proof fn lemma_member_refers_grows(ty: Seq<char>, r: RuleJSON, n: nat, m: nat)
    requires
        some_member_refers(ty, r, n),
        n <= m,
        r matches RuleJSON::SEQ { members } && m <= members.len(),
    ensures
        some_member_refers(ty, r, m),
    decreases m - n,
{
    if n < m {
        assert(some_member_refers(ty, r, (n + 1) as nat));
        lemma_member_refers_grows(ty, r, (n + 1) as nat, m);
    }
}

/// Whether `s` is one of `v`.
fn contains_text(v: &Vec<String>, s: &str) -> (r: bool)
    ensures
        r == texts_v(v@).contains(s@),
{
    let mut i: usize = 0;
    while i < v.len()
        invariant
            i <= v@.len(),
            forall|k: int| 0 <= k < i ==> v@[k]@ != s@,
        decreases v@.len() - i,
    {
        if same_text(v[i].as_str(), s) {
            assert(texts_v(v@)[i as int] == s@);
            return true;
        }
        i = i + 1;
    }
    proof {
        if texts_v(v@).contains(s@) {
            let k = choose|k: int| 0 <= k < texts_v(v@).len() && texts_v(v@)[k] == s@;
            assert(v@[k]@ == s@);
        }
    }
    false
}

/// Whether `value`, standing as a member of the type `ident`, holds a value of
/// that type directly, so that it must be held through a heap pointer.
pub fn is_recursive_type(ident: &str, value: &RuleJSON) -> (r: bool)
    ensures
        r == refers_to(ident@, *value),
    decreases value,
{
    match value {
        RuleJSON::SYMBOL { name } => {
            let t = upper_camel(name.as_str());
            same_text(t.as_str(), ident)
        },
        RuleJSON::SEQ { members } => {
            let mut i: usize = 0;
            while i < members.len()
                invariant
                    i <= members@.len(),
                    *value matches RuleJSON::SEQ { members: ms } && ms == members,
                    !some_member_refers(ident@, *value, i as nat),
                decreases members@.len() - i,
            {
                if is_recursive_type(ident, &members[i]) {
                    proof {
                        lemma_member_refers_grows(ident@, *value, (i + 1) as nat, members@.len());
                    }
                    return true;
                }
                i = i + 1;
            }
            false
        },
        RuleJSON::ALIAS { content, .. } => is_recursive_type(ident, content),
        _ => false,
    }
}

/// The variant name `cand`, with the position appended where it is taken.
/// `base`, with underscores appended until it is none of `used`.
fn free(used: &Vec<String>, base: String) -> (r: String)
    ensures
        r@ == free_name(texts_v(used@), base@),
{
    let ghost u = texts_v(used@);
    let mut name = base;
    while contains_text(used, name.as_str())
        invariant
            u == texts_v(used@),
            free_name(u, name@) == free_name(u, base@),
        decreases max_len(u) + 1 - name@.len(),
    {
        proof {
            lemma_max_len(u, name@);
            reveal_strlit("_");
        }
        let ghost before = name@;
        name.append("_");
        assert(name@ =~= before.push('_'));
    }
    name
}

fn unique(used: &Vec<String>, cand: String, i: usize) -> (r: String)
    ensures
        r@ == unique_name(texts_v(used@), cand@, i as nat),
{
    if contains_text(used, cand.as_str()) {
        let mut c = cand;
        let d = decimal(i);
        c.append(d.as_str());
        free(used, c)
    } else {
        cand
    }
}

fn push_variant(
    variants: &mut Vec<Variant>,
    used: &mut Vec<String>,
    cand: String,
    kind: Option<String>,
    i: usize,
    payload: Option<Vec<Payload>>,
)
    ensures
        ({
            let a = ChoiceAcc {
                nested: empty_fragment(),
                variants: variants_v(old(variants)@),
                used: texts_v(old(used)@),
            };
            let p = match payload {
                Some(v) => Some(payloads_v(v@)),
                None => None,
            };
            let b = add_variant(a, cand@, opt_text_v(kind), i as nat, p, empty_fragment());
            &&& variants_v(final(variants)@) == b.variants
            &&& texts_v(final(used)@) == b.used
        }),
{
    let name = unique(used, cand, i);
    let v = Variant { name: name.clone(), kind, payload };
    let ghost vv = v@;
    variants.push(v);
    used.push(name);
    proof {
        assert(variants_v(final(variants)@) =~= variants_v(old(variants)@).push(vv));
        assert(texts_v(final(used)@) =~= texts_v(old(used)@).push(name@));
    }
}

fn append_fragment(decls: &mut Vec<Decl>, notes: &mut Vec<Note>, sub: Fragment)
    ensures
        decls_v(final(decls)@) == decls_v(old(decls)@) + sub@.decls,
        notes_v(final(notes)@) == notes_v(old(notes)@) + sub@.notes,
{
    let mut sub = sub;
    let ghost s = sub@;
    decls.append(&mut sub.decls);
    notes.append(&mut sub.notes);
    proof {
        assert(decls_v(final(decls)@) =~= decls_v(old(decls)@) + s.decls);
        assert(notes_v(final(notes)@) =~= notes_v(old(notes)@) + s.notes);
    }
}

fn push_note(notes: &mut Vec<Note>, ty: &str, i: usize, m: &RuleJSON)
    ensures
        notes_v(final(notes)@) == notes_v(old(notes)@).push(
            NoteV { rule: ty@, index: i as nat, tag: tag_of(*m) },
        ),
{
    let n = Note { rule: String::from_str(ty), index: i, tag: String::from_str(m.tag()) };
    notes.push(n);
    proof {
        assert(notes_v(final(notes)@) =~= notes_v(old(notes)@).push(
            NoteV { rule: ty@, index: i as nat, tag: tag_of(*m) },
        ));
    }
}

/// Whether every member is a literal or a symbol.
fn all_plain_members(ms: &Vec<RuleJSON>) -> (r: bool)
    ensures
        r == all_plain(ms@),
{
    let mut i: usize = 0;
    while i < ms.len()
        invariant
            i <= ms@.len(),
            forall|k: int| 0 <= k < i ==> (ms@[k] is STRING || ms@[k] is SYMBOL),
        decreases ms@.len() - i,
    {
        match &ms[i] {
            RuleJSON::STRING { .. } => {},
            RuleJSON::SYMBOL { .. } => {},
            _ => {
                return false;
            },
        }
        i = i + 1;
    }
    true
}

fn first_member_kind(ms: &Vec<RuleJSON>) -> (r: Option<String>)
    ensures
        opt_text_v(r) == first_kind(ms@),
{
    if ms.len() == 0 {
        return None;
    }
    match &ms[0] {
        RuleJSON::STRING { value } => Some(value.clone()),
        RuleJSON::SYMBOL { name } => Some(name.clone()),
        _ => None,
    }
}

fn plain_payloads(ty: &str, ms: &Vec<RuleJSON>) -> (r: Vec<Payload>)
    ensures
        payloads_v(r@) == symbol_payloads(ty@, ms@),
{
    let mut out: Vec<Payload> = Vec::new();
    let mut i: usize = 0;
    while i < ms.len()
        invariant
            i <= ms@.len(),
            payloads_v(out@) == symbol_payloads(ty@, ms@.subrange(0, i as int)),
        decreases ms@.len() - i,
    {
        let m = &ms[i];
        proof {
            let p = ms@.subrange(0, i + 1);
            assert(p.drop_last() == ms@.subrange(0, i as int));
            assert(p.last() == *m);
        }
        match m {
            RuleJSON::SYMBOL { name } => {
                let t = upper_camel(name.as_str());
                let b = is_recursive_type(ty, m);
                let p = Payload { ty: t, boxed: b };
                let ghost pv = p@;
                let ghost before = payloads_v(out@);
                out.push(p);
                assert(payloads_v(out@) =~= before + seq![pv]);
            },
            _ => {
                assert(payloads_v(out@) =~= payloads_v(out@) + Seq::<PayloadV>::empty());
            },
        }
        i = i + 1;
    }
    assert(ms@.subrange(0, ms@.len() as int) == ms@);
    out
}

fn push_named_field(
    fields: &mut Vec<Field>,
    seen: &mut Vec<String>,
    taken: &mut Vec<String>,
    raw: &str,
    i: usize,
    fty: String,
    key: Key,
    boxed: bool,
)
    ensures
        ({
            let a = SeqAcc {
                nested: empty_fragment(),
                fields: fields_v(old(fields)@),
                seen: texts_v(old(seen)@),
                taken: texts_v(old(taken)@),
            };
            let b = add_named_field(a, raw@, i as nat, fty@, key@, boxed, empty_fragment());
            &&& fields_v(final(fields)@) == b.fields
            &&& texts_v(final(seen)@) == b.seen
            &&& texts_v(final(taken)@) == b.taken
        }),
{
    let base = if contains_text(seen, raw) {
        let mut c = String::from_str(raw);
        c.append("_");
        let d = decimal(i);
        c.append(d.as_str());
        c
    } else {
        seen.push(String::from_str(raw));
        proof {
            assert(texts_v(final(seen)@) =~= texts_v(old(seen)@).push(raw@));
        }
        String::from_str(raw)
    };
    let name = free(taken, snake(base.as_str()));
    let f = Field { name: name.clone(), ty: fty, key: Some(key), boxed, repeated: false };
    let ghost fv = f@;
    fields.push(f);
    taken.push(name);
    proof {
        assert(fields_v(final(fields)@) =~= fields_v(old(fields)@).push(fv));
        assert(texts_v(final(taken)@) =~= texts_v(old(taken)@).push(fv.name));
    }
}

fn push_token_field(
    fields: &mut Vec<Field>,
    taken: &mut Vec<String>,
    ty: &str,
    i: usize,
    repeated: bool,
    key: Option<Key>,
)
    ensures
        ({
            let f = token_field(ty@, i as nat, repeated, opt_key_v(key), texts_v(old(taken)@));
            &&& fields_v(final(fields)@) == fields_v(old(fields)@).push(f)
            &&& texts_v(final(taken)@) == texts_v(old(taken)@).push(f.name)
        }),
{
    let ghost kv = opt_key_v(key);
    let ghost t0 = texts_v(taken@);
    let name = free(taken, token_field_of(ty, i));
    let f = Field { name: name.clone(), ty: token_type(ty, i), key, boxed: false, repeated };
    fields.push(f);
    taken.push(name);
    proof {
        assert(fields_v(final(fields)@) =~= fields_v(old(fields)@).push(token_field(ty@, i as nat, repeated, kv, t0)));
        assert(texts_v(final(taken)@) =~= t0.push(token_field(ty@, i as nat, repeated, kv, t0).name));
    }
}

impl Fragment {
    /// A fragment without declarations or notes.
    pub fn empty() -> (r: Fragment)
        ensures
            r@ == empty_fragment(),
    {
        let r = Fragment { decls: Vec::new(), notes: Vec::new() };
        assert(r@.decls =~= Seq::<DeclV>::empty());
        assert(r@.notes =~= Seq::<NoteV>::empty());
        r
    }

    /// Adds the declaration of one more type at the end.
    pub fn declare(&mut self, name: String, shape: Shape)
        ensures
            final(self)@ == then_declare(old(self)@, name@, shape@),
    {
        let d = Decl { name, shape };
        let ghost dv = d@;
        self.decls.push(d);
        assert(decls_v(final(self).decls@) =~= decls_v(old(self).decls@).push(dv));
    }
}

} // verus!

verus! {

impl RuleJSON {
    /// Compiles this rule as the type named `ident` (a rule name; the type is its
    /// upper camel case form): the declarations of the type and of the types made
    /// for its members, in order, and the members that were left out.
    pub fn generate(&self, ident: &str) -> (r: Fragment)
        ensures
            r@ == gen(*self, rule_type_name(ident@)),
    {
        let ty = upper_camel(ident);
        self.compile(ty.as_str())
    }

    /// Compiles this rule under the type name `ty`.
    pub fn compile(&self, ty: &str) -> (r: Fragment)
        ensures
            r@ == gen(*self, ty@),
        decreases self, 1nat, 0nat,
    {
        match self {
            RuleJSON::ALIAS { content, named, .. } => {
                if *named {
                    content.compile(ty)
                } else {
                    Fragment::empty()
                }
            },
            RuleJSON::BLANK => Fragment::empty(),
            RuleJSON::STRING { value } => {
                let mut f = Fragment::empty();
                f.declare(String::from_str(ty), Shape::Unit { kind: value.clone() });
                f
            },
            RuleJSON::PATTERN { .. } => {
                let mut f = Fragment::empty();
                f.declare(String::from_str(ty), Shape::Leaf);
                f
            },
            RuleJSON::SYMBOL { name } => {
                let mut f = Fragment::empty();
                f.declare(String::from_str(ty), Shape::Alias { target: upper_camel(name.as_str()) });
                f
            },
            RuleJSON::CHOICE { .. } => self.compile_choice(ty),
            RuleJSON::FIELD { name, content } => {
                let t = label_type(ty, name.as_str());
                let mut f = content.compile(t.as_str());
                f.declare(t, Shape::Label { field: name.clone() });
                f
            },
            RuleJSON::SEQ { .. } => self.compile_seq(ty),
            RuleJSON::REPEAT { content } => {
                let t = item_type(ty);
                let mut f = content.compile(t.as_str());
                f.declare(String::from_str(ty), Shape::List { item: t });
                f
            },
            RuleJSON::REPEAT1 { content } => {
                let t = item_type(ty);
                let mut f = content.compile(t.as_str());
                f.declare(String::from_str(ty), Shape::List { item: t });
                f
            },
            RuleJSON::PREC_DYNAMIC { content, .. } => content.compile(ty),
            RuleJSON::PREC_LEFT { content, .. } => content.compile(ty),
            RuleJSON::PREC_RIGHT { content, .. } => content.compile(ty),
            RuleJSON::PREC { content, .. } => content.compile(ty),
            RuleJSON::TOKEN { content } => content.compile(ty),
            RuleJSON::IMMEDIATE_TOKEN { content } => content.compile(ty),
        }
    }

    fn compile_choice(&self, ty: &str) -> (r: Fragment)
        requires
            *self is CHOICE,
        ensures
            r@ == gen(*self, ty@),
        decreases self, 0nat, 1nat,
    {
        let members = match self {
            RuleJSON::CHOICE { members } => members,
            _ => {
                assert(false);
                return Fragment::empty();
            },
        };
        let mut decls: Vec<Decl> = Vec::new();
        let mut notes: Vec<Note> = Vec::new();
        let mut variants: Vec<Variant> = Vec::new();
        let mut used: Vec<String> = Vec::new();
        proof {
            assert(decls_v(decls@) =~= Seq::<DeclV>::empty());
            assert(notes_v(notes@) =~= Seq::<NoteV>::empty());
            assert(variants_v(variants@) =~= Seq::<VariantV>::empty());
            assert(texts_v(used@) =~= Seq::<Seq<char>>::empty());
        }
        let mut i: usize = 0;
        while i < members.len()
            invariant
                *self matches RuleJSON::CHOICE { members: ms } && ms == members,
                i <= members@.len(),
                ({
                    let acc = choice_acc(*self, ty@, i as nat);
                    &&& decls_v(decls@) == acc.nested.decls
                    &&& notes_v(notes@) == acc.nested.notes
                    &&& variants_v(variants@) == acc.variants
                    &&& texts_v(used@) == acc.used
                }),
            decreases members@.len() - i,
        {
            let m = &members[i];
            let ghost acc = choice_acc(*self, ty@, i as nat);
            let ghost next = choice_step(ty@, i as nat, *m, acc, gen(*m, token_type_name(ty@, i as nat)));
            assert(choice_acc(*self, ty@, (i + 1) as nat) == next);
            match m {
                RuleJSON::STRING { value } => {
                    let id = to_ident(value.as_str());
                    let cand = upper_camel(id.as_str());
                    push_variant(&mut variants, &mut used, cand, Some(value.clone()), i, None);
                    assert(decls_v(decls@) =~= acc.nested.decls + Seq::<DeclV>::empty());
                    assert(notes_v(notes@) =~= acc.nested.notes + Seq::<NoteV>::empty());
                },
                RuleJSON::SYMBOL { name } => {
                    let t = upper_camel(name.as_str());
                    let b = is_recursive_type(ty, m);
                    let p = vec![Payload { ty: t.clone(), boxed: b }];
                    assert(payloads_v(p@) =~= seq![PayloadV { ty: t@, boxed: b }]);
                    push_variant(&mut variants, &mut used, t, Some(name.clone()), i, Some(p));
                    assert(decls_v(decls@) =~= acc.nested.decls + Seq::<DeclV>::empty());
                    assert(notes_v(notes@) =~= acc.nested.notes + Seq::<NoteV>::empty());
                },
                RuleJSON::SEQ { members: inner } => {
                    if all_plain_members(inner) {
                        let p = plain_payloads(ty, inner);
                        let t = token_type(ty, i);
                        let k = first_member_kind(inner);
                        push_variant(&mut variants, &mut used, t, k, i, Some(p));
                        assert(decls_v(decls@) =~= acc.nested.decls + Seq::<DeclV>::empty());
                        assert(notes_v(notes@) =~= acc.nested.notes + Seq::<NoteV>::empty());
                    } else {
                        self.nested_member(ty, i, m, &mut decls, &mut notes, &mut variants, &mut used);
                    }
                },
                RuleJSON::ALIAS { named, .. } => {
                    if *named {
                        self.nested_member(ty, i, m, &mut decls, &mut notes, &mut variants, &mut used);
                    }
                },
                RuleJSON::BLANK => {
                    push_variant(&mut variants, &mut used, String::from_str("Blank"), None, i, None);
                    assert(decls_v(decls@) =~= acc.nested.decls + Seq::<DeclV>::empty());
                    assert(notes_v(notes@) =~= acc.nested.notes + Seq::<NoteV>::empty());
                },
                RuleJSON::CHOICE { .. } => {
                    self.nested_member(ty, i, m, &mut decls, &mut notes, &mut variants, &mut used);
                },
                RuleJSON::PATTERN { .. } => {
                    self.nested_member(ty, i, m, &mut decls, &mut notes, &mut variants, &mut used);
                },
                _ => {
                    push_note(&mut notes, ty, i, m);
                },
            }
            i = i + 1;
        }
        let mut f = Fragment { decls, notes };
        f.declare(String::from_str(ty), Shape::Sum { variants });
        f
    }

    fn compile_seq(&self, ty: &str) -> (r: Fragment)
        requires
            *self is SEQ,
        ensures
            r@ == gen(*self, ty@),
        decreases self, 0nat, 1nat,
    {
        let members = match self {
            RuleJSON::SEQ { members } => members,
            _ => {
                assert(false);
                return Fragment::empty();
            },
        };
        let mut decls: Vec<Decl> = Vec::new();
        let mut notes: Vec<Note> = Vec::new();
        let mut fields: Vec<Field> = Vec::new();
        let mut seen: Vec<String> = Vec::new();
        let mut taken: Vec<String> = Vec::new();
        proof {
            assert(decls_v(decls@) =~= Seq::<DeclV>::empty());
            assert(notes_v(notes@) =~= Seq::<NoteV>::empty());
            assert(fields_v(fields@) =~= Seq::<FieldV>::empty());
            assert(texts_v(seen@) =~= Seq::<Seq<char>>::empty());
            assert(texts_v(taken@) =~= Seq::<Seq<char>>::empty());
        }
        let mut i: usize = 0;
        while i < members.len()
            invariant
                *self matches RuleJSON::SEQ { members: ms } && ms == members,
                i <= members@.len(),
                ({
                    let acc = seq_acc(*self, ty@, i as nat);
                    &&& decls_v(decls@) == acc.nested.decls
                    &&& notes_v(notes@) == acc.nested.notes
                    &&& fields_v(fields@) == acc.fields
                    &&& texts_v(seen@) == acc.seen
                    &&& texts_v(taken@) == acc.taken
                }),
            decreases members@.len() - i,
        {
            let m = &members[i];
            let ghost acc = seq_acc(*self, ty@, i as nat);
            let ghost next = seq_step(ty@, i as nat, *m, acc, seq_member_sub(ty@, i as nat, *m));
            assert(seq_acc(*self, ty@, (i + 1) as nat) == next);
            match m {
                RuleJSON::SYMBOL { name } => {
                    let t = upper_camel(name.as_str());
                    let b = is_recursive_type(ty, m);
                    push_named_field(&mut fields, &mut seen, &mut taken, name.as_str(), i, t, Key::Kind(name.clone()), b);
                    assert(decls_v(decls@) =~= acc.nested.decls + Seq::<DeclV>::empty());
                    assert(notes_v(notes@) =~= acc.nested.notes + Seq::<NoteV>::empty());
                },
                RuleJSON::FIELD { name, .. } => {
                    let sub = self.seq_member(ty, i, m);
                    append_fragment(&mut decls, &mut notes, sub);
                    let t = label_type(ty, name.as_str());
                    push_named_field(&mut fields, &mut seen, &mut taken, name.as_str(), i, t, Key::Label(name.clone()), false);
                },
                RuleJSON::REPEAT { .. } => {
                    let sub = self.seq_member(ty, i, m);
                    append_fragment(&mut decls, &mut notes, sub);
                    push_token_field(&mut fields, &mut taken, ty, i, true, None);
                },
                RuleJSON::REPEAT1 { .. } => {
                    let sub = self.seq_member(ty, i, m);
                    append_fragment(&mut decls, &mut notes, sub);
                    push_token_field(&mut fields, &mut taken, ty, i, true, None);
                },
                RuleJSON::ALIAS { named, .. } => {
                    if *named {
                        let sub = self.seq_member(ty, i, m);
                        append_fragment(&mut decls, &mut notes, sub);
                        push_token_field(&mut fields, &mut taken, ty, i, false, None);
                    }
                },
                RuleJSON::STRING { value } => {
                    let sub = self.seq_member(ty, i, m);
                    append_fragment(&mut decls, &mut notes, sub);
                    push_token_field(&mut fields, &mut taken, ty, i, false, Some(Key::Kind(value.clone())));
                },
                RuleJSON::BLANK => {
                    push_note(&mut notes, ty, i, m);
                },
                RuleJSON::PREC_DYNAMIC { .. } => {
                    push_note(&mut notes, ty, i, m);
                },
                RuleJSON::PREC_LEFT { .. } => {
                    push_note(&mut notes, ty, i, m);
                },
                RuleJSON::PREC_RIGHT { .. } => {
                    push_note(&mut notes, ty, i, m);
                },
                RuleJSON::PREC { .. } => {
                    push_note(&mut notes, ty, i, m);
                },
                _ => {
                    let sub = self.seq_member(ty, i, m);
                    append_fragment(&mut decls, &mut notes, sub);
                    push_token_field(&mut fields, &mut taken, ty, i, false, None);
                },
            }
            i = i + 1;
        }
        let mut f = Fragment { decls, notes };
        f.declare(String::from_str(ty), Shape::Product { fields });
        f
    }

    /// Compiles the member `m` at position `i` of this sequence.
    fn seq_member(&self, ty: &str, i: usize, m: &RuleJSON) -> (r: Fragment)
        requires
            *self matches RuleJSON::SEQ { members } && i < members.len() && members[i as int] == *m,
        ensures
            r@ == seq_member_sub(ty@, i as nat, *m),
        decreases self, 0nat, 0nat,
    {
        match m {
            RuleJSON::REPEAT { content } => {
                let t = token_type(ty, i);
                content.compile(t.as_str())
            },
            RuleJSON::REPEAT1 { content } => {
                let t = token_type(ty, i);
                content.compile(t.as_str())
            },
            RuleJSON::FIELD { .. } => m.compile(ty),
            _ => {
                let t = token_type(ty, i);
                m.compile(t.as_str())
            },
        }
    }

    /// Compiles the member `m` at position `i` of this choice as a type of its
    /// own and adds the variant that carries it.
    fn nested_member(
        &self,
        ty: &str,
        i: usize,
        m: &RuleJSON,
        decls: &mut Vec<Decl>,
        notes: &mut Vec<Note>,
        variants: &mut Vec<Variant>,
        used: &mut Vec<String>,
    )
        requires
            *self matches RuleJSON::CHOICE { members } && i < members.len() && members[i as int] == *m,
        ensures
            ({
                let a = ChoiceAcc {
                    nested: FragmentV { decls: decls_v(old(decls)@), notes: notes_v(old(notes)@) },
                    variants: variants_v(old(variants)@),
                    used: texts_v(old(used)@),
                };
                let b = nested_variant(a, ty@, i as nat, gen(*m, token_type_name(ty@, i as nat)));
                &&& decls_v(final(decls)@) == b.nested.decls
                &&& notes_v(final(notes)@) == b.nested.notes
                &&& variants_v(final(variants)@) == b.variants
                &&& texts_v(final(used)@) == b.used
            }),
        decreases self, 0nat, 0nat,
    {
        let t = token_type(ty, i);
        let sub = m.compile(t.as_str());
        append_fragment(decls, notes, sub);
        let p = vec![Payload { ty: t.clone(), boxed: false }];
        assert(payloads_v(p@) =~= seq![PayloadV { ty: t@, boxed: false }]);
        push_variant(variants, used, t, None, i, Some(p));
    }
}

} // verus!
