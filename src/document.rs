//! Compiling a whole grammar: every declaration that a rule or an external
//! token gives passes through one table of declared names.
use vstd::prelude::*;

use crate::decl::{decls_v, notes_v, Decl, DeclV, Fragment, FragmentV, Note, NoteV, Shape, ShapeV};
use crate::grammar::{tag_of, GrammarJSON, RuleJSON};
use crate::naming::{same_text, upper_camel};
use crate::schema::{gen, rule_type_name, single};

verus! {

/// A failure that stops the compilation of a grammar.
#[derive(Debug, Clone, PartialEq, Eq)]
pub enum CompileError {
    /// The name `name` would be declared twice with different forms.
    Conflict { name: String },
}

/// Whether two declarations claim the same name: both types, or both labels
/// (a label adds to a type of that name and does not declare one).
pub open spec fn same_slot(a: DeclV, b: DeclV) -> bool {
    a.name == b.name && (a.shape is Label) == (b.shape is Label)
}

/// Whether no two of the declarations claim the same name.
pub open spec fn slots_distinct(t: Seq<DeclV>) -> bool {
    forall|i: int, j: int| 0 <= i < j < t.len() ==> !same_slot(t[i], t[j])
}

/// Whether the name of `d` is claimed in `t`.
pub open spec fn slot_taken(t: Seq<DeclV>, d: DeclV) -> bool {
    exists|k: int| 0 <= k < t.len() && same_slot(t[k], d)
}

/// Enters one declaration: a repeat of a declaration that is there is dropped,
/// another form for a claimed name is a conflict on that name.
pub open spec fn add_decl(t: Seq<DeclV>, d: DeclV) -> Result<Seq<DeclV>, Seq<char>> {
    if slot_taken(t, d) {
        if t.contains(d) {
            Ok(t)
        } else {
            Err(d.name)
        }
    } else {
        Ok(t.push(d))
    }
}

/// Enters the declarations in order, stopping at the first conflict.
pub open spec fn add_decls(t: Seq<DeclV>, ds: Seq<DeclV>) -> Result<Seq<DeclV>, Seq<char>>
    decreases ds.len(),
{
    if ds.len() == 0 {
        Ok(t)
    } else {
        match add_decls(t, ds.drop_last()) {
            Err(e) => Err(e),
            Ok(t2) => add_decl(t2, ds.last()),
        }
    }
}

/// Whether two declarations of `ds` claim the name `name` with different forms.
pub open spec fn clash_on(ds: Seq<DeclV>, name: Seq<char>) -> bool {
    exists|i: int, j: int|
        0 <= i < j < ds.len() && same_slot(ds[i], ds[j]) && ds[i] != ds[j] && ds[j].name == name
}

/// Whether two declarations of `ds` claim one name with different forms.
pub open spec fn has_clash(ds: Seq<DeclV>) -> bool {
    exists|i: int, j: int| 0 <= i < j < ds.len() && same_slot(ds[i], ds[j]) && ds[i] != ds[j]
}

/// The declaration of an external token: a type without data whose node kind
/// is the token's name.
pub open spec fn external_unit(name: Seq<char>) -> FragmentV {
    single(rule_type_name(name), ShapeV::Unit { kind: name })
}

/// What the first `n` rules compile to, one after the other.
pub open spec fn rules_output(rules: Seq<(String, RuleJSON)>, n: nat) -> FragmentV
    decreases n,
{
    if n == 0 || n > rules.len() {
        FragmentV { decls: Seq::empty(), notes: Seq::empty() }
    } else {
        let prev = rules_output(rules, (n - 1) as nat);
        let f = gen(rules[n - 1].1, rule_type_name(rules[n - 1].0@));
        FragmentV { decls: prev.decls + f.decls, notes: prev.notes + f.notes }
    }
}

/// What the first `n` external tokens give: a declaration for each symbol, a
/// note for anything else.
pub open spec fn externals_output(exts: Seq<RuleJSON>, n: nat) -> FragmentV
    decreases n,
{
    if n == 0 || n > exts.len() {
        FragmentV { decls: Seq::empty(), notes: Seq::empty() }
    } else {
        let prev = externals_output(exts, (n - 1) as nat);
        match exts[n - 1] {
            RuleJSON::SYMBOL { name } => FragmentV {
                decls: prev.decls + external_unit(name@).decls,
                notes: prev.notes,
            },
            _ => FragmentV {
                decls: prev.decls,
                notes: prev.notes.push(
                    NoteV { rule: "externals"@, index: (n - 1) as nat, tag: tag_of(exts[n - 1]) },
                ),
            },
        }
    }
}

/// Every declaration that the grammar's rules and external tokens give, in order.
pub open spec fn all_decls(g: GrammarJSON) -> Seq<DeclV> {
    rules_output(g.rules@, g.rules@.len() as nat).decls + externals_output(
        g.externals@,
        g.externals@.len() as nat,
    ).decls
}

/// Every note that the grammar's rules and external tokens give, in order.
pub open spec fn all_notes(g: GrammarJSON) -> Seq<NoteV> {
    rules_output(g.rules@, g.rules@.len() as nat).notes + externals_output(
        g.externals@,
        g.externals@.len() as nat,
    ).notes
}

/// What a grammar compiles to: all its declarations, each given once, with all
/// notes; or the first name that would be declared with two different forms.
pub open spec fn compile_grammar(g: GrammarJSON) -> Result<FragmentV, Seq<char>> {
    match add_decls(Seq::empty(), all_decls(g)) {
        Ok(t) => Ok(FragmentV { decls: t, notes: all_notes(g) }),
        Err(e) => Err(e),
    }
}

pub open spec fn unit_result(r: Result<(), CompileError>) -> Result<(), Seq<char>> {
    match r {
        Ok(_) => Ok(()),
        Err(CompileError::Conflict { name }) => Err(name@),
    }
}

pub open spec fn fragment_result(r: Result<Fragment, CompileError>) -> Result<FragmentV, Seq<char>> {
    match r {
        Ok(f) => Ok(f@),
        Err(CompileError::Conflict { name }) => Err(name@),
    }
}

/// Entering `a` then `b` is entering `a + b`.
pub proof fn lemma_add_decls_concat(t: Seq<DeclV>, a: Seq<DeclV>, b: Seq<DeclV>)
    ensures
        add_decls(t, a + b) == match add_decls(t, a) {
            Ok(t2) => add_decls(t2, b),
            Err(e) => Err(e),
        },
    decreases b.len(),
{
    if b.len() == 0 {
        assert(a + b =~= a);
    } else {
        lemma_add_decls_concat(t, a, b.drop_last());
        assert((a + b).drop_last() =~= a + b.drop_last());
        assert((a + b).last() == b.last());
    }
}

/// What entering keeps: the names stay distinct, nothing is lost, every
/// entered declaration is there, and nothing else is added.
pub proof fn lemma_add_decls_keeps(t: Seq<DeclV>, ds: Seq<DeclV>)
    requires
        slots_distinct(t),
    ensures
        add_decls(t, ds) matches Ok(t2) ==> {
            &&& slots_distinct(t2)
            &&& forall|x: DeclV| t.contains(x) ==> t2.contains(x)
            &&& forall|k: int| 0 <= k < ds.len() ==> t2.contains(ds[k])
            &&& forall|x: DeclV| t2.contains(x) ==> (t.contains(x) || ds.contains(x))
        },
    decreases ds.len(),
{
    if ds.len() > 0 {
        let p = ds.drop_last();
        let d = ds.last();
        lemma_add_decls_keeps(t, p);
        if let Ok(t1) = add_decls(t, p) {
            assert forall|k: int| 0 <= k < p.len() implies ds[k] == p[k] by {}
            assert forall|x: DeclV| p.contains(x) implies ds.contains(x) by {
                let k = choose|k: int| 0 <= k < p.len() && p[k] == x;
                assert(ds[k] == x);
            }
            assert(ds[ds.len() - 1] == d);
            if !slot_taken(t1, d) {
                let t2 = t1.push(d);
                assert forall|i: int, j: int| 0 <= i < j < t2.len() implies !same_slot(t2[i], t2[j]) by {
                    if j == t1.len() {
                        assert(t2[i] == t1[i]);
                    } else {
                        assert(t2[i] == t1[i] && t2[j] == t1[j]);
                    }
                }
                assert forall|x: DeclV| t1.contains(x) implies t2.contains(x) by {
                    let k = choose|k: int| 0 <= k < t1.len() && t1[k] == x;
                    assert(t2[k] == x);
                }
                assert(t2[t1.len() as int] == d);
                assert forall|x: DeclV| t2.contains(x) implies (t.contains(x) || ds.contains(x)) by {
                    let k = choose|k: int| 0 <= k < t2.len() && t2[k] == x;
                    if k < t1.len() {
                        assert(t1[k] == x);
                    }
                }
            }
        }
    }
}

/// Started from an empty table, entering fails exactly when two declarations
/// claim one name with different forms, and then on such a name.
pub proof fn lemma_add_decls_conflict(ds: Seq<DeclV>)
    ensures
        add_decls(Seq::empty(), ds) is Err <==> has_clash(ds),
        add_decls(Seq::empty(), ds) matches Err(e) ==> clash_on(ds, e),
    decreases ds.len(),
{
    if ds.len() > 0 {
        let p = ds.drop_last();
        let d = ds.last();
        let n = p.len() as int;
        lemma_add_decls_conflict(p);
        assert(forall|k: int| 0 <= k < p.len() ==> ds[k] == p[k]);
        assert(ds[n] == d);
        match add_decls(Seq::empty(), p) {
            Err(e) => {
                let (i, j) = choose|i: int, j: int|
                    0 <= i < j < p.len() && same_slot(p[i], p[j]) && p[i] != p[j] && p[j].name == e;
                assert(0 <= i < j < ds.len() && same_slot(ds[i], ds[j]) && ds[i] != ds[j] && ds[j].name == e);
            },
            Ok(t1) => {
                lemma_add_decls_keeps(Seq::empty(), p);
                assert(!has_clash(p));
                if slot_taken(t1, d) {
                    let k = choose|k: int| 0 <= k < t1.len() && same_slot(t1[k], d);
                    assert(p.contains(t1[k]));
                    let i = choose|i: int| 0 <= i < p.len() && p[i] == t1[k];
                    if t1.contains(d) {
                        let q = choose|q: int| 0 <= q < t1.len() && t1[q] == d;
                        if q != k {
                            if q < k {
                                assert(!same_slot(t1[q], t1[k]));
                            } else {
                                assert(!same_slot(t1[k], t1[q]));
                            }
                        }
                        assert(t1[k] == d);
                        assert forall|a: int, b: int|
                            0 <= a < b < ds.len() && same_slot(ds[a], ds[b]) implies ds[a] == ds[b] by {
                            if b < n {
                                assert(ds[a] == p[a] && ds[b] == p[b]);
                            } else {
                                assert(p.contains(ds[a]));
                                assert(t1.contains(ds[a]));
                                let r = choose|r: int| 0 <= r < t1.len() && t1[r] == ds[a];
                                if r < k {
                                    assert(!same_slot(t1[r], t1[k]));
                                } else if k < r {
                                    assert(!same_slot(t1[k], t1[r]));
                                }
                            }
                        }
                    } else {
                        assert(ds[i] == t1[k]);
                        assert(ds[i] != d);
                        assert(0 <= i < n && same_slot(ds[i], ds[n]) && ds[i] != ds[n] && ds[n].name == d.name);
                    }
                } else {
                    assert forall|a: int, b: int|
                        0 <= a < b < ds.len() && same_slot(ds[a], ds[b]) implies ds[a] == ds[b] by {
                        if b < n {
                            assert(ds[a] == p[a] && ds[b] == p[b]);
                        } else {
                            assert(p.contains(ds[a]));
                            assert(t1.contains(ds[a]));
                            let r = choose|r: int| 0 <= r < t1.len() && t1[r] == ds[a];
                            assert(same_slot(t1[r], d));
                        }
                    }
                }
            },
        }
    }
}

/// The declarations of one grammar, each name claimed once, in the order in
/// which they were first given.
pub struct TypeTable {
    decls: Vec<Decl>,
}

impl View for TypeTable {
    type V = Seq<DeclV>;

    closed spec fn view(&self) -> Seq<DeclV> {
        decls_v(self.decls@)
    }
}

impl TypeTable {
    /// An empty table.
    pub fn new() -> (r: TypeTable)
        ensures
            r@ == Seq::<DeclV>::empty(),
    {
        let r = TypeTable { decls: Vec::new() };
        assert(r@ =~= Seq::<DeclV>::empty());
        r
    }

    /// The number of declarations.
    pub fn len(&self) -> (r: usize)
        ensures
            r == self@.len(),
    {
        self.decls.len()
    }

    /// The declaration at position `k`.
    pub fn get(&self, k: usize) -> (r: &Decl)
        requires
            k < self@.len(),
        ensures
            r@ == self@[k as int],
    {
        &self.decls[k]
    }

    /// Enters one declaration.
    pub fn enter(&mut self, d: Decl) -> (r: Result<(), CompileError>)
        requires
            slots_distinct(old(self)@),
        ensures
            match add_decl(old(self)@, d@) {
                Ok(t) => r is Ok && final(self)@ == t,
                Err(e) => unit_result(r) == Err::<(), Seq<char>>(e) && final(self)@ == old(self)@,
            },
    {
        let ghost t = self@;
        let mut i: usize = 0;
        while i < self.decls.len()
            invariant
                t == self@,
                slots_distinct(t),
                i <= t.len(),
                self.decls@.len() == t.len(),
                forall|k: int| 0 <= k < i ==> !same_slot(t[k], d@),
            decreases t.len() - i,
        {
            let e = &self.decls[i];
            assert(e@ == t[i as int]);
            let same_label = match (&e.shape, &d.shape) {
                (Shape::Label { .. }, Shape::Label { .. }) => true,
                (Shape::Label { .. }, _) => false,
                (_, Shape::Label { .. }) => false,
                _ => true,
            };
            if same_label && same_text(e.name.as_str(), d.name.as_str()) {
                assert(slot_taken(t, d@));
                if e.same(&d) {
                    assert(t.contains(d@));
                    return Ok(());
                } else {
                    assert forall|q: int| 0 <= q < t.len() implies t[q] != d@ by {
                        if t[q] == d@ && q != i {
                            if q < i {
                                assert(!same_slot(t[q], t[i as int]));
                            } else {
                                assert(!same_slot(t[i as int], t[q]));
                            }
                        }
                    }
                    return Err(CompileError::Conflict { name: d.name });
                }
            }
            i = i + 1;
        }
        let ghost dv = d@;
        self.decls.push(d);
        assert(self@ =~= t.push(dv));
        Ok(())
    }

    /// Enters declarations in order, stopping at the first conflict.
    pub fn enter_all(&mut self, ds: Vec<Decl>) -> (r: Result<(), CompileError>)
        requires
            slots_distinct(old(self)@),
        ensures
            slots_distinct(final(self)@),
            match add_decls(old(self)@, decls_v(ds@)) {
                Ok(t) => r is Ok && final(self)@ == t,
                Err(e) => unit_result(r) == Err::<(), Seq<char>>(e),
            },
    {
        let ghost all = decls_v(ds@);
        let ghost t0 = self@;
        let mut rest = ds;
        let n = rest.len();
        let mut k: usize = 0;
        assert(all.take(0) =~= Seq::<DeclV>::empty());
        assert(all.skip(0) =~= all);
        while rest.len() > 0
            invariant
                k <= all.len(),
                all.len() == n,
                all == decls_v(ds@),
                t0 == old(self)@,
                decls_v(rest@) == all.skip(k as int),
                add_decls(t0, all.take(k as int)) == Ok::<Seq<DeclV>, Seq<char>>(self@),
                slots_distinct(t0),
                slots_distinct(self@),
            decreases rest@.len(),
        {
            let ghost r0 = rest@;
            assert(decls_v(r0).len() == r0.len());
            assert(decls_v(r0)[0] == r0[0]@);
            assert(all.skip(k as int)[0] == all[k as int]);
            let d = rest.remove(0);
            assert(d@ == all[k as int]);
            assert(all.take(k + 1).drop_last() =~= all.take(k as int));
            assert(all.take(k + 1).last() == all[k as int]);
            let ghost before = self@;
            match self.enter(d) {
                Ok(()) => {},
                Err(e) => {
                    proof {
                        assert(add_decls(t0, all.take(k + 1)) == add_decl(before, all[k as int]));
                        lemma_add_decls_concat(t0, all.take(k + 1), all.skip(k + 1));
                        assert(all.take(k + 1) + all.skip(k + 1) =~= all);
                        assert(add_decl(before, all[k as int]) is Err);
                        assert(add_decls(t0, all) == add_decl(before, all[k as int]));
                        assert(decls_v(ds@) == all);
                    }
                    return Err(e);
                },
            }
            proof {
                lemma_add_decls_keeps(t0, all.take(k + 1));
                assert(rest@ =~= r0.subrange(1, r0.len() as int));
                assert forall|x: int| 0 <= x < decls_v(rest@).len() implies decls_v(rest@)[x] == all.skip(k + 1)[x] by {
                    assert(rest@[x] == r0[x + 1]);
                    assert(decls_v(r0)[x + 1] == r0[x + 1]@);
                    assert(all.skip(k as int)[x + 1] == all[k + 1 + x]);
                }
                assert(decls_v(rest@) =~= all.skip(k + 1));
            }
            k = k + 1;
        }
        assert(decls_v(rest@).len() == rest@.len());
        assert(all.take(k as int) =~= all);
        Ok(())
    }

    /// Compiles the rule `rule` named `name` and enters its declarations; gives
    /// the rule's notes.
    pub fn compile_rule(&mut self, name: &str, rule: &RuleJSON) -> (r: Result<Vec<Note>, CompileError>)
        requires
            slots_distinct(old(self)@),
        ensures
            slots_distinct(final(self)@),
            ({
                let f = gen(*rule, rule_type_name(name@));
                match add_decls(old(self)@, f.decls) {
                    Ok(t) => r matches Ok(notes) && final(self)@ == t && notes_v(notes@) == f.notes,
                    Err(e) => r matches Err(CompileError::Conflict { name: n }) && n@ == e,
                }
            }),
    {
        let c = upper_camel(name);
        let f = rule.compile(c.as_str());
        let Fragment { decls, notes } = f;
        match self.enter_all(decls) {
            Ok(()) => Ok(notes),
            Err(e) => Err(e),
        }
    }

    /// The declarations, in order.
    pub fn into_decls(self) -> (r: Vec<Decl>)
        ensures
            decls_v(r@) == self@,
    {
        self.decls
    }
}

impl GrammarJSON {
    /// Compiles every rule of the grammar and every external token. On success
    /// no name is declared twice and every declaration given is there once; it
    /// fails exactly when two declarations claim one name with different forms.
    pub fn to_toke_stream(&self) -> (r: Result<Fragment, CompileError>)
        ensures
            fragment_result(r) == compile_grammar(*self),
            r matches Ok(f) ==> {
                &&& slots_distinct(f@.decls)
                &&& forall|k: int| 0 <= k < all_decls(*self).len() ==> f@.decls.contains(all_decls(*self)[k])
                &&& forall|x: DeclV| f@.decls.contains(x) ==> all_decls(*self).contains(x)
            },
            r is Err <==> has_clash(all_decls(*self)),
            r matches Err(CompileError::Conflict { name }) ==> clash_on(all_decls(*self), name@),
    {
        let ghost ro = rules_output(self.rules@, self.rules@.len() as nat);
        let ghost eo = externals_output(self.externals@, self.externals@.len() as nat);
        let mut table = TypeTable::new();
        let mut notes: Vec<Note> = Vec::new();
        assert(notes_v(notes@) =~= Seq::<NoteV>::empty());
        let mut i: usize = 0;
        while i < self.rules.len()
            invariant
                i <= self.rules@.len(),
                ro == rules_output(self.rules@, self.rules@.len() as nat),
                eo == externals_output(self.externals@, self.externals@.len() as nat),
                slots_distinct(table@),
                add_decls(Seq::empty(), rules_output(self.rules@, i as nat).decls) == Ok::<Seq<DeclV>, Seq<char>>(table@),
                notes_v(notes@) == rules_output(self.rules@, i as nat).notes,
            decreases self.rules@.len() - i,
        {
            let (name, rule) = &self.rules[i];
            let ghost prev = rules_output(self.rules@, i as nat);
            let ghost f = gen(*rule, rule_type_name(name@));
            assert(rules_output(self.rules@, (i + 1) as nat).decls == prev.decls + f.decls);
            proof {
                lemma_add_decls_concat(Seq::empty(), prev.decls, f.decls);
                lemma_rules_prefix(self.rules@, (i + 1) as nat, self.rules@.len() as nat);
                let pre = rules_output(self.rules@, (i + 1) as nat).decls;
                let rest = ro.decls.skip(pre.len() as int) + eo.decls;
                lemma_add_decls_concat(Seq::empty(), pre, rest);
                assert(pre + rest =~= all_decls(*self));
            }
            match table.compile_rule(name.as_str(), rule) {
                Ok(mut ns) => {
                    let ghost nb = notes_v(notes@);
                    let ghost nn = notes_v(ns@);
                    notes.append(&mut ns);
                    assert(notes_v(notes@) =~= nb + nn);
                },
                Err(e) => {
                    proof {
                        lemma_add_decls_conflict(all_decls(*self));
                    }
                    return Err(e);
                },
            }
            i = i + 1;
        }
        let mut j: usize = 0;
        while j < self.externals.len()
            invariant
                i == self.rules@.len(),
                j <= self.externals@.len(),
                ro == rules_output(self.rules@, self.rules@.len() as nat),
                eo == externals_output(self.externals@, self.externals@.len() as nat),
                slots_distinct(table@),
                add_decls(Seq::empty(), ro.decls + externals_output(self.externals@, j as nat).decls) == Ok::<Seq<DeclV>, Seq<char>>(table@),
                notes_v(notes@) == ro.notes + externals_output(self.externals@, j as nat).notes,
            decreases self.externals@.len() - j,
        {
            let ghost prev = externals_output(self.externals@, j as nat);
            proof {
                lemma_externals_prefix(self.externals@, (j + 1) as nat, self.externals@.len() as nat);
            }
            match &self.externals[j] {
                RuleJSON::SYMBOL { name } => {
                    let c = upper_camel(name.as_str());
                    let mut f = Fragment::empty();
                    f.declare(c, Shape::Unit { kind: name.clone() });
                    let ghost fv = f@;
                    assert(fv.decls == external_unit(name@).decls);
                    assert(ro.decls + externals_output(self.externals@, (j + 1) as nat).decls =~= (ro.decls + prev.decls) + fv.decls);
                    proof {
                        lemma_add_decls_concat(Seq::empty(), ro.decls + prev.decls, fv.decls);
                        let now = ro.decls + externals_output(self.externals@, (j + 1) as nat).decls;
                        let rest = eo.decls.skip(externals_output(self.externals@, (j + 1) as nat).decls.len() as int);
                        lemma_add_decls_concat(Seq::empty(), now, rest);
                        assert(now + rest =~= all_decls(*self));
                    }
                    match table.enter_all(f.decls) {
                        Ok(()) => {},
                        Err(e) => {
                            proof {
                        lemma_add_decls_conflict(all_decls(*self));
                    }
                            return Err(e);
                        },
                    }
                    assert(notes_v(notes@) =~= ro.notes + externals_output(self.externals@, (j + 1) as nat).notes);
                },
                other => {
                    let n = Note { rule: String::from_str("externals"), index: j, tag: String::from_str(other.tag()) };
                    let ghost nv = n@;
                    let ghost before = notes_v(notes@);
                    notes.push(n);
                    assert(notes_v(notes@) =~= before.push(nv));
                    assert(ro.decls + externals_output(self.externals@, (j + 1) as nat).decls =~= ro.decls + prev.decls);
                },
            }
            j = j + 1;
        }
        proof {
            lemma_add_decls_conflict(all_decls(*self));
            lemma_add_decls_keeps(Seq::empty(), all_decls(*self));
            assert(ro.decls + externals_output(self.externals@, j as nat).decls == all_decls(*self));
        }
        let out = Fragment { decls: table.into_decls(), notes };
        Ok(out)
    }
}

/// The output of the first `n` rules starts the output of the first `m`.
proof fn lemma_rules_prefix(rules: Seq<(String, RuleJSON)>, n: nat, m: nat)
    requires
        n <= m <= rules.len(),
    ensures
        rules_output(rules, m).decls == rules_output(rules, n).decls + rules_output(rules, m).decls.skip(
            rules_output(rules, n).decls.len() as int,
        ),
        rules_output(rules, n).decls.len() <= rules_output(rules, m).decls.len(),
    decreases m - n,
{
    if n < m {
        lemma_rules_prefix(rules, n, (m - 1) as nat);
    }
    assert(rules_output(rules, m).decls =~= rules_output(rules, n).decls + rules_output(rules, m).decls.skip(
        rules_output(rules, n).decls.len() as int,
    ));
}

/// The output of the first `n` external tokens starts the output of the first `m`.
proof fn lemma_externals_prefix(exts: Seq<RuleJSON>, n: nat, m: nat)
    requires
        n <= m <= exts.len(),
    ensures
        externals_output(exts, m).decls == externals_output(exts, n).decls + externals_output(exts, m).decls.skip(
            externals_output(exts, n).decls.len() as int,
        ),
        externals_output(exts, n).decls.len() <= externals_output(exts, m).decls.len(),
    decreases m - n,
{
    if n < m {
        lemma_externals_prefix(exts, n, (m - 1) as nat);
    }
    assert(externals_output(exts, m).decls =~= externals_output(exts, n).decls + externals_output(exts, m).decls.skip(
        externals_output(exts, n).decls.len() as int,
    ));
}

} // verus!
