use sitter_ast::{CompileError, Decl, GrammarJSON, Key, Note, RuleJSON, Shape, TypeTable};

fn text(v: &str) -> String {
    v.to_string()
}

fn grammar(rules: Vec<(String, RuleJSON)>, externals: Vec<RuleJSON>) -> GrammarJSON {
    GrammarJSON {
        name: text("demo"),
        rules,
        precedences: vec![],
        conflicts: vec![],
        externals,
        extras: vec![],
        inline: vec![],
        supertypes: vec![],
        word: None,
    }
}

#[test]
fn rules_and_externals_in_order() {
    let g = grammar(
        vec![
            (text("keyword"), RuleJSON::STRING { value: text("let") }),
            (text("name"), RuleJSON::PATTERN { value: text("[a-z]+"), flags: None }),
        ],
        vec![RuleJSON::SYMBOL { name: text("heredoc") }, RuleJSON::BLANK],
    );
    let out = g.to_toke_stream().unwrap();
    assert_eq!(
        out.decls,
        vec![
            Decl { name: text("Keyword"), shape: Shape::Unit { kind: text("let") } },
            Decl { name: text("Name"), shape: Shape::Leaf },
            Decl { name: text("Heredoc"), shape: Shape::Unit { kind: text("heredoc") } },
        ]
    );
    assert_eq!(out.notes, vec![Note { rule: text("externals"), index: 1, tag: text("BLANK") }]);
}

#[test]
fn same_type_twice_with_same_form_is_declared_once() {
    let g = grammar(
        vec![
            (text("foo_bar"), RuleJSON::STRING { value: text("x") }),
            (text("FooBar"), RuleJSON::STRING { value: text("x") }),
        ],
        vec![],
    );
    let out = g.to_toke_stream().unwrap();
    assert_eq!(out.decls, vec![Decl { name: text("FooBar"), shape: Shape::Unit { kind: text("x") } }]);
}

#[test]
fn same_type_with_different_forms_is_a_conflict() {
    let g = grammar(
        vec![
            (text("foo_bar"), RuleJSON::STRING { value: text("x") }),
            (text("FooBar"), RuleJSON::STRING { value: text("y") }),
        ],
        vec![],
    );
    assert_eq!(g.to_toke_stream(), Err(CompileError::Conflict { name: text("FooBar") }));
    let h = grammar(
        vec![(text("heredoc"), RuleJSON::STRING { value: text("x") })],
        vec![RuleJSON::SYMBOL { name: text("heredoc") }],
    );
    assert_eq!(h.to_toke_stream(), Err(CompileError::Conflict { name: text("Heredoc") }));
}

#[test]
fn compiling_a_rule_twice_changes_nothing() {
    let mut table = TypeTable::new();
    let rule = RuleJSON::CHOICE { members: vec![RuleJSON::STRING { value: text("a") }] };
    let first = table.compile_rule("letter", &rule).unwrap();
    let len = table.len();
    let second = table.compile_rule("letter", &rule).unwrap();
    assert_eq!(first, second);
    assert_eq!(table.len(), len);
    assert_eq!(len, 1);
    assert_eq!(table.get(0).name, "Letter");
}

#[test]
fn sub_type_clashing_with_a_rule_is_a_conflict() {
    let nested = RuleJSON::CHOICE { members: vec![RuleJSON::STRING { value: text("p") }] };
    let g = grammar(
        vec![
            (text("a"), RuleJSON::CHOICE { members: vec![nested] }),
            (text("a_token_0"), RuleJSON::STRING { value: text("x") }),
        ],
        vec![],
    );
    assert_eq!(g.to_toke_stream(), Err(CompileError::Conflict { name: text("AToken0") }));
}

#[test]
fn repeated_sub_types_are_declared_once() {
    let left = || RuleJSON::FIELD { name: text("left"), content: Box::new(RuleJSON::SYMBOL { name: text("expr") }) };
    let g = grammar(vec![(text("pair"), RuleJSON::SEQ { members: vec![left(), left()] })], vec![]);
    let out = g.to_toke_stream().unwrap();
    let names: Vec<(String, bool)> =
        out.decls.iter().map(|d| (d.name.clone(), matches!(d.shape, Shape::Label { .. }))).collect();
    assert_eq!(
        names,
        vec![(text("PairLeft"), false), (text("PairLeft"), true), (text("Pair"), false)]
    );
    match &out.decls[2].shape {
        Shape::Product { fields } => {
            assert_eq!(fields.len(), 2);
            assert_eq!(fields[1].key, Some(Key::Label(text("left"))));
        }
        other => panic!("unexpected shape {:?}", other),
    }
}

#[test]
fn compiling_a_grammar_twice_gives_the_same_output() {
    let g = grammar(
        vec![
            (text("a"), RuleJSON::SEQ { members: vec![RuleJSON::SYMBOL { name: text("b") }] }),
            (text("b"), RuleJSON::STRING { value: text("b") }),
        ],
        vec![],
    );
    assert_eq!(g.to_toke_stream(), g.to_toke_stream());
}

#[test]
fn rule_tags() {
    assert_eq!(RuleJSON::BLANK.tag(), "BLANK");
    assert_eq!(RuleJSON::STRING { value: text("x") }.tag(), "STRING");
}

#[test]
fn adding_a_rule_keeps_earlier_declarations() {
    let rules = || {
        vec![
            (text("a"), RuleJSON::SEQ { members: vec![RuleJSON::SYMBOL { name: text("b") }, RuleJSON::STRING { value: text("+") }] }),
            (text("b"), RuleJSON::STRING { value: text("b") }),
        ]
    };
    let small = grammar(rules(), vec![]).to_toke_stream().unwrap();
    let mut more = rules();
    more.insert(1, (text("aa"), RuleJSON::CHOICE { members: vec![RuleJSON::STRING { value: text("x") }] }));
    let big = grammar(more, vec![]).to_toke_stream().unwrap();
    for d in &small.decls {
        assert!(big.decls.contains(d), "{:?} is missing", d);
    }
    assert_eq!(big.decls.len(), small.decls.len() + 1);
}
