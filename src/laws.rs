//! Properties of the compiler that hold for every input.
use vstd::prelude::*;

use crate::decl::{DeclV, FieldV, KeyV, NoteV, PayloadV, ShapeV, VariantV};
use crate::document::{add_decls, all_decls, compile_grammar, external_unit, externals_output, rules_output, lemma_add_decls_keeps, same_slot, slots_distinct};
use crate::grammar::{GrammarJSON, RuleJSON};
use crate::naming::{decimal_of, ident_of, snake_of, upper_camel_of};
use crate::schema::{
    all_plain, free_name, lemma_free_name, symbol_payloads, token_field_name, SeqAcc,
    choice_acc, choice_step, empty_fragment, gen, label_type_name, refers_to, rule_type_name, seq_acc,
    seq_member_sub, seq_step, then_declare, token_field, token_type_name, unique_name,
};

verus! {

/// Compiling a rule a second time, after a first time that succeeded, succeeds
/// and leaves the table as it was: each of its declarations is already there.
pub proof fn compiling_twice_changes_nothing(t: Seq<DeclV>, name: Seq<char>, rule: RuleJSON)
    requires
        slots_distinct(t),
        add_decls(t, gen(rule, rule_type_name(name)).decls) is Ok,
    ensures
        ({
            let ds = gen(rule, rule_type_name(name)).decls;
            let t1 = add_decls(t, ds)->Ok_0;
            add_decls(t1, ds) == Ok::<Seq<DeclV>, Seq<char>>(t1)
        }),
{
    let ds = gen(rule, rule_type_name(name)).decls;
    lemma_add_decls_keeps(t, ds);
    let t1 = add_decls(t, ds)->Ok_0;
    lemma_present_changes_nothing(t1, ds);
}

proof fn lemma_present_changes_nothing(t: Seq<DeclV>, ds: Seq<DeclV>)
    requires
        forall|k: int| 0 <= k < ds.len() ==> t.contains(ds[k]),
    ensures
        add_decls(t, ds) == Ok::<Seq<DeclV>, Seq<char>>(t),
    decreases ds.len(),
{
    if ds.len() > 0 {
        let p = ds.drop_last();
        assert forall|k: int| 0 <= k < p.len() implies t.contains(p[k]) by {
            assert(p[k] == ds[k]);
        }
        lemma_present_changes_nothing(t, p);
        let d = ds.last();
        assert(t.contains(ds[ds.len() - 1]));
        let q = choose|q: int| 0 <= q < t.len() && t[q] == d;
        assert(same_slot(t[q], d));
    }
}

/// The compiled form of a grammar depends on its rules and external tokens
/// alone, so compiling the same grammar twice gives the same result.
pub proof fn compiling_is_deterministic(g1: GrammarJSON, g2: GrammarJSON)
    requires
        g1.rules@ == g2.rules@,
        g1.externals@ == g2.externals@,
    ensures
        compile_grammar(g1) == compile_grammar(g2),
{
}

proof fn lemma_choice_variants_grow(r: RuleJSON, ty: Seq<char>, n: nat, m: nat)
    requires
        n <= m,
        r matches RuleJSON::CHOICE { members } && m <= members.len(),
    ensures
        choice_acc(r, ty, n).variants.len() <= choice_acc(r, ty, m).variants.len(),
        forall|j: int|
            0 <= j < choice_acc(r, ty, n).variants.len() ==> choice_acc(r, ty, m).variants[j]
                == choice_acc(r, ty, n).variants[j],
    decreases m - n,
{
    if n < m {
        lemma_choice_variants_grow(r, ty, n, (m - 1) as nat);
        let members = r->CHOICE_members;
        let i = (m - 1) as nat;
        let mi = members[i as int];
        assert(choice_acc(r, ty, m) == choice_step(
            ty,
            i,
            mi,
            choice_acc(r, ty, i),
            gen(mi, token_type_name(ty, i)),
        ));
    }
}

/// A member of a choice that refers to the choice's own type gives a variant
/// that holds that type through a heap pointer, so the type has a finite size.
pub proof fn self_reference_in_choice_is_boxed(r: RuleJSON, ty: Seq<char>, k: int)
    requires
        r is CHOICE,
        0 <= k < r->CHOICE_members.len(),
        r->CHOICE_members[k] matches RuleJSON::SYMBOL { name } && rule_type_name(name@) == ty,
    ensures
        gen(r, ty).decls.last().name == ty,
        gen(r, ty).decls.last().shape is Sum,
        exists|v: int|
            0 <= v < gen(r, ty).decls.last().shape->Sum_variants.len()
                && #[trigger] gen(r, ty).decls.last().shape->Sum_variants[v].payload == Some(
                seq![PayloadV { ty: ty, boxed: true }],
            ),
{
    let members = r->CHOICE_members;
    let n = members.len() as nat;
    let mk = members[k];
    let before = choice_acc(r, ty, k as nat);
    assert(choice_acc(r, ty, (k + 1) as nat) == choice_step(
        ty,
        k as nat,
        mk,
        before,
        gen(mk, token_type_name(ty, k as nat)),
    ));
    let after = choice_acc(r, ty, (k + 1) as nat);
    let v = before.variants.len() as int;
    assert(after.variants[v].payload == Some(seq![PayloadV { ty: ty, boxed: true }]));
    lemma_choice_variants_grow(r, ty, (k + 1) as nat, n);
    let all = choice_acc(r, ty, n).variants;
    assert(all[v] == after.variants[v]);
    assert(gen(r, ty) == then_declare(choice_acc(r, ty, n).nested, ty, ShapeV::Sum { variants: all }));
    assert(gen(r, ty).decls.last().shape == ShapeV::Sum { variants: all });
    assert(gen(r, ty).decls.last().shape->Sum_variants[v].payload == Some(
        seq![PayloadV { ty: ty, boxed: true }],
    ));
}

/// The names of a list of variants.
pub open spec fn variant_names(vs: Seq<VariantV>) -> Seq<Seq<char>> {
    vs.map_values(|v: VariantV| v.name)
}

/// The name that the literal member `m` asks for as a variant.
pub open spec fn literal_variant_name(m: RuleJSON) -> Seq<char> {
    upper_camel_of(ident_of(m->STRING_value@))
}

/// Whether the variants are the nullary variants of the first literal members,
/// one per member, in order.
pub open spec fn literal_variants(ms: Seq<RuleJSON>, vs: Seq<VariantV>) -> bool {
    forall|k: int|
        0 <= k < vs.len() ==> (#[trigger] vs[k]).payload is None && vs[k].name == unique_name(
            variant_names(vs.take(k)),
            literal_variant_name(ms[k]),
            k as nat,
        )
}

proof fn lemma_literal_choice(r: RuleJSON, ty: Seq<char>, n: nat)
    requires
        r is CHOICE,
        n <= r->CHOICE_members.len(),
        forall|k: int| 0 <= k < r->CHOICE_members.len() ==> r->CHOICE_members[k] is STRING,
    ensures
        choice_acc(r, ty, n).nested == empty_fragment(),
        choice_acc(r, ty, n).variants.len() == n,
        choice_acc(r, ty, n).used == variant_names(choice_acc(r, ty, n).variants),
        literal_variants(r->CHOICE_members@, choice_acc(r, ty, n).variants),
    decreases n,
{
    if n > 0 {
        let i = (n - 1) as nat;
        lemma_literal_choice(r, ty, i);
        let ms = r->CHOICE_members;
        let m = ms[i as int];
        let acc = choice_acc(r, ty, i);
        assert(choice_acc(r, ty, n) == choice_step(ty, i, m, acc, gen(m, token_type_name(ty, i))));
        let next = choice_acc(r, ty, n);
        assert(next.nested.decls =~= Seq::<DeclV>::empty());
        assert(next.nested.notes =~= Seq::<NoteV>::empty());
        assert(next.variants == acc.variants.push(next.variants.last()));
        assert(next.used =~= variant_names(next.variants));
        assert forall|k: int| 0 <= k < next.variants.len() implies (#[trigger] next.variants[k]).payload is None
            && next.variants[k].name == unique_name(
            variant_names(next.variants.take(k)),
            literal_variant_name(ms@[k]),
            k as nat,
        ) by {
            if k < i {
                assert(next.variants.take(k) =~= acc.variants.take(k));
                assert(next.variants[k] == acc.variants[k]);
            } else {
                assert(next.variants.take(k) =~= acc.variants);
            }
        }
    }
}

/// A choice whose members are all literals compiles to a single sum type with
/// one variant without payload per member, in member order, each named after
/// its literal (with the position appended where the name is taken already).
pub proof fn literal_choice_is_plain_sum(r: RuleJSON, ty: Seq<char>)
    requires
        r is CHOICE,
        forall|k: int| 0 <= k < r->CHOICE_members.len() ==> r->CHOICE_members[k] is STRING,
    ensures
        gen(r, ty).decls.len() == 1,
        gen(r, ty).notes.len() == 0,
        gen(r, ty).decls[0].name == ty,
        gen(r, ty).decls[0].shape is Sum,
        gen(r, ty).decls[0].shape->Sum_variants.len() == r->CHOICE_members.len(),
        literal_variants(r->CHOICE_members@, gen(r, ty).decls[0].shape->Sum_variants),
{
    let n = r->CHOICE_members.len() as nat;
    lemma_literal_choice(r, ty, n);
    let acc = choice_acc(r, ty, n);
    assert(gen(r, ty) == then_declare(acc.nested, ty, ShapeV::Sum { variants: acc.variants }));
    assert(gen(r, ty).decls =~= seq![DeclV { name: ty, shape: ShapeV::Sum { variants: acc.variants } }]);
}

/// Whether a member of a sequence gives a field.
pub open spec fn contributes(m: RuleJSON) -> bool {
    match m {
        RuleJSON::BLANK => false,
        RuleJSON::PREC_DYNAMIC { .. } => false,
        RuleJSON::PREC_LEFT { .. } => false,
        RuleJSON::PREC_RIGHT { .. } => false,
        RuleJSON::PREC { .. } => false,
        RuleJSON::ALIAS { named, .. } => named,
        _ => true,
    }
}

/// The referenced name that a member lends to its field: a symbol's name or a
/// grammar field's label.
pub open spec fn member_label(m: RuleJSON) -> Option<Seq<char>> {
    match m {
        RuleJSON::SYMBOL { name } => Some(name@),
        RuleJSON::FIELD { name, .. } => Some(name@),
        _ => None,
    }
}

/// Whether one of the first `k` members lends the name `x`.
pub open spec fn label_before(ms: Seq<RuleJSON>, k: int, x: Seq<char>) -> bool {
    exists|j: int| 0 <= j < k && #[trigger] member_label(ms[j]) == Some(x)
}

/// The field name for the label `x` of the member at position `k`: the label
/// itself at its first use, the label with the position appended after that.
pub open spec fn labelled_field_name(ms: Seq<RuleJSON>, k: int, x: Seq<char>, taken: Seq<Seq<char>>) -> Seq<char> {
    if label_before(ms, k, x) {
        free_name(taken, snake_of(x + "_"@ + decimal_of(k as nat)))
    } else {
        free_name(taken, snake_of(x))
    }
}

/// The names of a list of fields.
pub open spec fn field_names(fs: Seq<FieldV>) -> Seq<Seq<char>> {
    fs.map_values(|f: FieldV| f.name)
}

/// Whether no name occurs twice.
pub open spec fn names_distinct(s: Seq<Seq<char>>) -> bool {
    forall|i: int, j: int| 0 <= i < j < s.len() ==> s[i] != s[j]
}

/// The field that the member at position `k` of the sequence `ty` gives, where
/// the fields before it are named `taken`.
pub open spec fn expected_field(ty: Seq<char>, ms: Seq<RuleJSON>, k: int, taken: Seq<Seq<char>>) -> FieldV {
    let m = ms[k];
    match m {
        RuleJSON::SYMBOL { name } => FieldV {
            name: labelled_field_name(ms, k, name@, taken),
            ty: rule_type_name(name@),
            key: Some(KeyV::Kind(name@)),
            boxed: refers_to(ty, m),
            repeated: false,
        },
        RuleJSON::FIELD { name, .. } => FieldV {
            name: labelled_field_name(ms, k, name@, taken),
            ty: label_type_name(ty, name@),
            key: Some(KeyV::Label(name@)),
            boxed: false,
            repeated: false,
        },
        RuleJSON::STRING { value } => token_field(ty, k as nat, false, Some(KeyV::Kind(value@)), taken),
        RuleJSON::REPEAT { .. } => token_field(ty, k as nat, true, None, taken),
        RuleJSON::REPEAT1 { .. } => token_field(ty, k as nat, true, None, taken),
        _ => token_field(ty, k as nat, false, None, taken),
    }
}

/// The fields of the first `n` members: one per contributing member, in order.
pub open spec fn expected_fields(ty: Seq<char>, ms: Seq<RuleJSON>, n: nat) -> Seq<FieldV>
    decreases n,
{
    if n == 0 {
        Seq::empty()
    } else {
        let k = n - 1;
        let prev = expected_fields(ty, ms, (n - 1) as nat);
        prev + if contributes(ms[k]) {
            seq![expected_field(ty, ms, k, field_names(prev))]
        } else {
            Seq::empty()
        }
    }
}

proof fn lemma_push_contains(s: Seq<Seq<char>>, a: Seq<char>)
    ensures
        forall|x: Seq<char>| s.push(a).contains(x) <==> (s.contains(x) || x == a),
{
    assert forall|x: Seq<char>| s.push(a).contains(x) <==> (s.contains(x) || x == a) by {
        if s.push(a).contains(x) {
            let j = choose|j: int| 0 <= j < s.push(a).len() && s.push(a)[j] == x;
            if j < s.len() {
                assert(s[j] == x);
            }
        }
        if s.contains(x) {
            let j = choose|j: int| 0 <= j < s.len() && s[j] == x;
            assert(s.push(a)[j] == x);
        }
        if x == a {
            assert(s.push(a)[s.len() as int] == x);
        }
    }
}

proof fn lemma_new_name_free(ty: Seq<char>, i: nat, m: RuleJSON, acc: SeqAcc)
    ensures
        seq_step(ty, i, m, acc, seq_member_sub(ty, i, m)).fields.len() > acc.fields.len() ==> !acc.taken.contains(
            seq_step(ty, i, m, acc, seq_member_sub(ty, i, m)).fields.last().name,
        ),
{
    match m {
        RuleJSON::SYMBOL { name } => {
            let base = if acc.seen.contains(name@) { name@ + "_"@ + decimal_of(i) } else { name@ };
            lemma_free_name(acc.taken, snake_of(base));
        },
        RuleJSON::FIELD { name, .. } => {
            let base = if acc.seen.contains(name@) { name@ + "_"@ + decimal_of(i) } else { name@ };
            lemma_free_name(acc.taken, snake_of(base));
        },
        _ => {
            lemma_free_name(acc.taken, token_field_name(ty, i));
        },
    }
}

proof fn lemma_seq_fields(r: RuleJSON, ty: Seq<char>, n: nat)
    requires
        r is SEQ,
        n <= r->SEQ_members.len(),
    ensures
        seq_acc(r, ty, n).fields == expected_fields(ty, r->SEQ_members@, n),
        seq_acc(r, ty, n).taken == field_names(seq_acc(r, ty, n).fields),
        names_distinct(seq_acc(r, ty, n).taken),
        forall|x: Seq<char>| seq_acc(r, ty, n).seen.contains(x) <==> label_before(r->SEQ_members@, n as int, x),
    decreases n,
{
    if n > 0 {
        let i = (n - 1) as nat;
        lemma_seq_fields(r, ty, i);
        let ms = r->SEQ_members@;
        let m = ms[i as int];
        let acc = seq_acc(r, ty, i);
        assert(seq_acc(r, ty, n) == seq_step(ty, i, m, acc, seq_member_sub(ty, i, m)));
        let next = seq_acc(r, ty, n);
        match m {
            RuleJSON::SYMBOL { name } => {
                assert(acc.seen.contains(name@) == label_before(ms, i as int, name@));
                lemma_push_contains(acc.seen, name@);
            },
            RuleJSON::FIELD { name, .. } => {
                assert(acc.seen.contains(name@) == label_before(ms, i as int, name@));
                lemma_push_contains(acc.seen, name@);
            },
            _ => {},
        }
        if next.fields.len() > acc.fields.len() {
            let f = next.fields.last();
            assert(next.fields == acc.fields.push(f));
            assert(next.taken == acc.taken.push(f.name));
            assert(field_names(next.fields) =~= field_names(acc.fields).push(f.name));
            lemma_new_name_free(ty, i, m, acc);
            assert forall|a: int, b: int| 0 <= a < b < next.taken.len() implies next.taken[a] != next.taken[b] by {
                if b == acc.taken.len() {
                    assert(acc.taken.contains(acc.taken[a]));
                }
            }
        }
        assert forall|x: Seq<char>| next.seen.contains(x) <==> label_before(ms, n as int, x) by {
            if label_before(ms, n as int, x) {
                let j = choose|j: int| 0 <= j < n && #[trigger] member_label(ms[j]) == Some(x);
                if j < i {
                    assert(label_before(ms, i as int, x));
                }
            }
            if label_before(ms, i as int, x) {
                let j = choose|j: int| 0 <= j < i && #[trigger] member_label(ms[j]) == Some(x);
                assert(0 <= j < n && member_label(ms[j]) == Some(x));
            }
            if member_label(m) == Some(x) {
                assert(member_label(ms[i as int]) == Some(x));
            }
        }
        assert(next.fields =~= expected_fields(ty, ms, n));
    }
}

/// The fields of the product type that a sequence compiles to have pairwise
/// different names.
pub proof fn field_names_are_distinct(r: RuleJSON, ty: Seq<char>)
    requires
        r is SEQ,
    ensures
        gen(r, ty).decls.last().shape is Product,
        names_distinct(field_names(gen(r, ty).decls.last().shape->Product_fields)),
{
    let n = r->SEQ_members.len() as nat;
    lemma_seq_fields(r, ty, n);
}

proof fn lemma_choice_names(r: RuleJSON, ty: Seq<char>, n: nat)
    requires
        r is CHOICE,
        n <= r->CHOICE_members.len(),
    ensures
        choice_acc(r, ty, n).used == variant_names(choice_acc(r, ty, n).variants),
        names_distinct(choice_acc(r, ty, n).used),
    decreases n,
{
    if n > 0 {
        let i = (n - 1) as nat;
        lemma_choice_names(r, ty, i);
        let ms = r->CHOICE_members;
        let m = ms[i as int];
        let acc = choice_acc(r, ty, i);
        assert(choice_acc(r, ty, n) == choice_step(ty, i, m, acc, gen(m, token_type_name(ty, i))));
        let next = choice_acc(r, ty, n);
        if next.variants.len() > acc.variants.len() {
            let v = next.variants.last();
            assert(next.variants == acc.variants.push(v));
            assert(next.used == acc.used.push(v.name));
            assert(variant_names(next.variants) =~= variant_names(acc.variants).push(v.name));
            assert(!acc.used.contains(v.name)) by {
                match m {
                    RuleJSON::STRING { value } => {
                        lemma_unique_name_free(acc.used, upper_camel_of(ident_of(value@)), i);
                    },
                    RuleJSON::SYMBOL { name } => {
                        lemma_unique_name_free(acc.used, rule_type_name(name@), i);
                    },
                    RuleJSON::BLANK => {
                        lemma_unique_name_free(acc.used, "Blank"@, i);
                    },
                    _ => {
                        lemma_unique_name_free(acc.used, token_type_name(ty, i), i);
                    },
                }
            }
            assert forall|a: int, b: int| 0 <= a < b < next.used.len() implies next.used[a] != next.used[b] by {
                if b == acc.used.len() {
                    assert(acc.used.contains(acc.used[a]));
                }
            }
        }
    }
}

proof fn lemma_unique_name_free(used: Seq<Seq<char>>, cand: Seq<char>, i: nat)
    ensures
        !used.contains(unique_name(used, cand, i)),
{
    lemma_free_name(used, cand + decimal_of(i));
}

/// The variants of the sum type that a choice compiles to have pairwise
/// different names.
pub proof fn variant_names_are_distinct(r: RuleJSON, ty: Seq<char>)
    requires
        r is CHOICE,
    ensures
        gen(r, ty).decls.last().shape is Sum,
        names_distinct(variant_names(gen(r, ty).decls.last().shape->Sum_variants)),
{
    let n = r->CHOICE_members.len() as nat;
    lemma_choice_names(r, ty, n);
}

/// A sequence compiles to a product type, declared last, with exactly one field
/// per contributing member, in member order; a referenced name that a member
/// lends a second time gets the member's position appended, and a name that is
/// still taken gets underscores until it is free.
pub proof fn sequence_is_product(r: RuleJSON, ty: Seq<char>)
    requires
        r is SEQ,
    ensures
        gen(r, ty).decls.last() == (DeclV {
            name: ty,
            shape: ShapeV::Product { fields: expected_fields(ty, r->SEQ_members@, r->SEQ_members.len() as nat) },
        }),
{
    let n = r->SEQ_members.len() as nat;
    lemma_seq_fields(r, ty, n);
}

/// Whether a member of a choice is a literal, a blank, a symbol, or a sequence
/// of literals and symbols.
pub open spec fn simple_choice_member(m: RuleJSON) -> bool {
    match m {
        RuleJSON::STRING { .. } => true,
        RuleJSON::BLANK => true,
        RuleJSON::SYMBOL { .. } => true,
        RuleJSON::SEQ { members } => all_plain(members@),
        _ => false,
    }
}

/// Whether every payload item of the variants that holds the type `ty` holds it
/// through a heap pointer.
pub open spec fn owner_boxed(ty: Seq<char>, vs: Seq<VariantV>) -> bool {
    forall|v: int, p: int|
        0 <= v < vs.len() && vs[v].payload is Some && 0 <= p < vs[v].payload->Some_0.len()
            && (#[trigger] vs[v].payload->Some_0[p]).ty == ty ==> vs[v].payload->Some_0[p].boxed
}

proof fn lemma_plain_payloads_boxed(ty: Seq<char>, ms: Seq<RuleJSON>)
    ensures
        forall|p: int|
            0 <= p < symbol_payloads(ty, ms).len() && (#[trigger] symbol_payloads(ty, ms)[p]).ty == ty
                ==> symbol_payloads(ty, ms)[p].boxed,
    decreases ms.len(),
{
    if ms.len() > 0 {
        lemma_plain_payloads_boxed(ty, ms.drop_last());
        let prev = symbol_payloads(ty, ms.drop_last());
        let all = symbol_payloads(ty, ms);
        assert forall|p: int| 0 <= p < all.len() && (#[trigger] all[p]).ty == ty implies all[p].boxed by {
            if p < prev.len() {
                assert(all[p] == prev[p]);
            }
        }
    }
}

proof fn lemma_owner_boxed(r: RuleJSON, ty: Seq<char>, n: nat)
    requires
        r is CHOICE,
        n <= r->CHOICE_members.len(),
        forall|k: int| 0 <= k < r->CHOICE_members.len() ==> simple_choice_member(r->CHOICE_members[k]),
    ensures
        owner_boxed(ty, choice_acc(r, ty, n).variants),
    decreases n,
{
    if n > 0 {
        let i = (n - 1) as nat;
        lemma_owner_boxed(r, ty, i);
        let ms = r->CHOICE_members;
        let m = ms[i as int];
        let acc = choice_acc(r, ty, i);
        assert(simple_choice_member(m));
        assert(choice_acc(r, ty, n) == choice_step(ty, i, m, acc, gen(m, token_type_name(ty, i))));
        let next = choice_acc(r, ty, n);
        if let RuleJSON::SEQ { members } = m {
            lemma_plain_payloads_boxed(ty, members@);
        }
        assert forall|v: int, p: int|
            0 <= v < next.variants.len() && next.variants[v].payload is Some && 0 <= p
                < next.variants[v].payload->Some_0.len() && (#[trigger] next.variants[v].payload->Some_0[p]).ty == ty
            implies next.variants[v].payload->Some_0[p].boxed by {
            if v < acc.variants.len() {
                assert(next.variants[v] == acc.variants[v]);
            }
        }
    }
}

/// In the sum type that a choice of literals, blanks, symbols and sequences of
/// literals and symbols compiles to, every payload item that holds the sum type
/// itself holds it through a heap pointer, so the type has a finite size.
pub proof fn owner_is_always_boxed(r: RuleJSON, ty: Seq<char>)
    requires
        r is CHOICE,
        forall|k: int| 0 <= k < r->CHOICE_members.len() ==> simple_choice_member(r->CHOICE_members[k]),
    ensures
        gen(r, ty).decls.last().shape is Sum,
        owner_boxed(ty, gen(r, ty).decls.last().shape->Sum_variants),
{
    lemma_owner_boxed(r, ty, r->CHOICE_members.len() as nat);
}

proof fn lemma_concat_contains(a: Seq<DeclV>, b: Seq<DeclV>, x: DeclV)
    ensures
        (a + b).contains(x) <==> (a.contains(x) || b.contains(x)),
{
    if (a + b).contains(x) {
        let k = choose|k: int| 0 <= k < (a + b).len() && (a + b)[k] == x;
        if k < a.len() {
            assert(a[k] == x);
        } else {
            assert(b[k - a.len()] == x);
        }
    }
    if a.contains(x) {
        let k = choose|k: int| 0 <= k < a.len() && a[k] == x;
        assert((a + b)[k] == x);
    }
    if b.contains(x) {
        let k = choose|k: int| 0 <= k < b.len() && b[k] == x;
        assert((a + b)[k + a.len()] == x);
    }
}

/// The declarations that the rule `rule` named `name` gives.
pub open spec fn rule_decls(entry: (String, RuleJSON)) -> Seq<DeclV> {
    gen(entry.1, rule_type_name(entry.0@)).decls
}

/// The declarations that the external token `e` gives.
pub open spec fn external_decls(e: RuleJSON) -> Seq<DeclV> {
    match e {
        RuleJSON::SYMBOL { name } => external_unit(name@).decls,
        _ => Seq::empty(),
    }
}

proof fn lemma_rules_output_from(rules: Seq<(String, RuleJSON)>, n: nat, d: DeclV)
    requires
        n <= rules.len(),
    ensures
        rules_output(rules, n).decls.contains(d) <==> exists|k: int|
            0 <= k < n && #[trigger] rule_decls(rules[k]).contains(d),
    decreases n,
{
    if n > 0 {
        let k = n - 1;
        lemma_rules_output_from(rules, (n - 1) as nat, d);
        lemma_concat_contains(rules_output(rules, (n - 1) as nat).decls, rule_decls(rules[k]), d);
        if exists|j: int| 0 <= j < n && #[trigger] rule_decls(rules[j]).contains(d) {
            let j = choose|j: int| 0 <= j < n && #[trigger] rule_decls(rules[j]).contains(d);
            if j < k {
                assert(0 <= j < n - 1 && rule_decls(rules[j]).contains(d));
            }
        }
    }
}

proof fn lemma_externals_output_from(exts: Seq<RuleJSON>, n: nat, d: DeclV)
    requires
        n <= exts.len(),
    ensures
        externals_output(exts, n).decls.contains(d) <==> exists|k: int|
            0 <= k < n && #[trigger] external_decls(exts[k]).contains(d),
    decreases n,
{
    if n > 0 {
        let k = n - 1;
        lemma_externals_output_from(exts, (n - 1) as nat, d);
        lemma_concat_contains(externals_output(exts, (n - 1) as nat).decls, external_decls(exts[k]), d);
        assert(externals_output(exts, n).decls =~= externals_output(exts, (n - 1) as nat).decls + external_decls(exts[k]));
        if exists|j: int| 0 <= j < n && #[trigger] external_decls(exts[j]).contains(d) {
            let j = choose|j: int| 0 <= j < n && #[trigger] external_decls(exts[j]).contains(d);
            if j < k {
                assert(0 <= j < n - 1 && external_decls(exts[j]).contains(d));
            }
        }
    }
}

proof fn lemma_given_by_both(g1: GrammarJSON, g2: GrammarJSON, d: DeclV)
    requires
        forall|k: int| 0 <= k < g1.rules@.len() ==> g2.rules@.contains(g1.rules@[k]),
        forall|k: int| 0 <= k < g1.externals@.len() ==> g2.externals@.contains(g1.externals@[k]),
        all_decls(g1).contains(d),
    ensures
        all_decls(g2).contains(d),
{
    let r1 = rules_output(g1.rules@, g1.rules@.len() as nat).decls;
    let e1 = externals_output(g1.externals@, g1.externals@.len() as nat).decls;
    let r2 = rules_output(g2.rules@, g2.rules@.len() as nat).decls;
    let e2 = externals_output(g2.externals@, g2.externals@.len() as nat).decls;
    lemma_concat_contains(r1, e1, d);
    lemma_concat_contains(r2, e2, d);
    lemma_rules_output_from(g1.rules@, g1.rules@.len() as nat, d);
    lemma_rules_output_from(g2.rules@, g2.rules@.len() as nat, d);
    lemma_externals_output_from(g1.externals@, g1.externals@.len() as nat, d);
    lemma_externals_output_from(g2.externals@, g2.externals@.len() as nat, d);
    if r1.contains(d) {
        let k = choose|k: int| 0 <= k < g1.rules@.len() && #[trigger] rule_decls(g1.rules@[k]).contains(d);
        assert(g2.rules@.contains(g1.rules@[k]));
        let k2 = choose|k2: int| 0 <= k2 < g2.rules@.len() && g2.rules@[k2] == g1.rules@[k];
        assert(rule_decls(g2.rules@[k2]).contains(d));
    } else {
        let k = choose|k: int| 0 <= k < g1.externals@.len() && #[trigger] external_decls(g1.externals@[k]).contains(d);
        assert(g2.externals@.contains(g1.externals@[k]));
        let k2 = choose|k2: int| 0 <= k2 < g2.externals@.len() && g2.externals@[k2] == g1.externals@[k];
        assert(external_decls(g2.externals@[k2]).contains(d));
    }
}

/// Every declaration that a grammar compiles to stands, unchanged, in what a
/// grammar with more rules or external tokens compiles to: names come from a
/// rule's name and member positions alone, never from what else was compiled.
pub proof fn more_rules_keep_declarations(g1: GrammarJSON, g2: GrammarJSON)
    requires
        forall|k: int| 0 <= k < g1.rules@.len() ==> g2.rules@.contains(g1.rules@[k]),
        forall|k: int| 0 <= k < g1.externals@.len() ==> g2.externals@.contains(g1.externals@[k]),
        compile_grammar(g1) is Ok,
        compile_grammar(g2) is Ok,
    ensures
        forall|d: DeclV|
            compile_grammar(g1)->Ok_0.decls.contains(d) ==> compile_grammar(g2)->Ok_0.decls.contains(d),
{
    lemma_add_decls_keeps(Seq::empty(), all_decls(g1));
    lemma_add_decls_keeps(Seq::empty(), all_decls(g2));
    assert forall|d: DeclV| compile_grammar(g1)->Ok_0.decls.contains(d) implies compile_grammar(
        g2,
    )->Ok_0.decls.contains(d) by {
        assert(all_decls(g1).contains(d));
        lemma_given_by_both(g1, g2, d);
        let k = choose|k: int| 0 <= k < all_decls(g2).len() && all_decls(g2)[k] == d;
    }
}

/// Each declaration that a rule of a grammar compiles to, compiled afresh,
/// stands unchanged in what the grammar compiles to.
pub proof fn rule_declarations_stand_in_output(g: GrammarJSON, k: int)
    requires
        0 <= k < g.rules@.len(),
        compile_grammar(g) is Ok,
    ensures
        forall|d: DeclV| rule_decls(g.rules@[k]).contains(d) ==> compile_grammar(g)->Ok_0.decls.contains(d),
{
    lemma_add_decls_keeps(Seq::empty(), all_decls(g));
    assert forall|d: DeclV| rule_decls(g.rules@[k]).contains(d) implies compile_grammar(g)->Ok_0.decls.contains(d) by {
        let r = rules_output(g.rules@, g.rules@.len() as nat).decls;
        let e = externals_output(g.externals@, g.externals@.len() as nat).decls;
        lemma_rules_output_from(g.rules@, g.rules@.len() as nat, d);
        lemma_concat_contains(r, e, d);
        let j = choose|j: int| 0 <= j < all_decls(g).len() && all_decls(g)[j] == d;
    }
}

} // verus!
