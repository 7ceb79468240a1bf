use sitter_ast::{is_recursive_type, Decl, Field, Key, Note, Payload, Reconstruction, RuleJSON, Shape, Variant};

fn text(v: &str) -> String {
    v.to_string()
}

fn lit(v: &str) -> RuleJSON {
    RuleJSON::STRING { value: text(v) }
}

fn sym(v: &str) -> RuleJSON {
    RuleJSON::SYMBOL { name: text(v) }
}

fn payload(ty: &str, boxed: bool) -> Payload {
    Payload { ty: text(ty), boxed }
}

fn field(name: &str, ty: &str, key: Option<Key>, boxed: bool, repeated: bool) -> Field {
    Field { name: text(name), ty: text(ty), key, boxed, repeated }
}

fn kind(v: &str) -> Option<Key> {
    Some(Key::Kind(text(v)))
}

fn variant(name: &str, kind: Option<&str>, payload: Option<Vec<Payload>>) -> Variant {
    Variant { name: text(name), kind: kind.map(text), payload }
}

#[test]
fn test_string() {
    let rule = lit("uint8");
    let out = rule.generate("unsigned_tiny_int");
    assert_eq!(
        out.decls,
        vec![Decl { name: text("UnsignedTinyInt"), shape: Shape::Unit { kind: text("uint8") } }]
    );
    assert!(out.notes.is_empty());
}

#[test]
fn test_choice() {
    let rule = RuleJSON::CHOICE { members: vec![lit("short"), lit("int16")] };
    let out = rule.generate("signed_short_int");
    assert_eq!(
        out.decls,
        vec![Decl {
            name: text("SignedShortInt"),
            shape: Shape::Sum {
                variants: vec![
                    variant("Short", Some("short"), None),
                    variant("Int16", Some("int16"), None),
                ],
            },
        }]
    );
}

#[test]
fn test_seq() {
    let rule = RuleJSON::CHOICE {
        members: vec![
            sym("identifier"),
            RuleJSON::SEQ { members: vec![lit("::"), sym("identifier")] },
            RuleJSON::SEQ { members: vec![sym("scoped_name"), lit("::"), sym("identifier")] },
        ],
    };
    let out = rule.generate("ScopedName");
    assert_eq!(
        out.decls,
        vec![Decl {
            name: text("ScopedName"),
            shape: Shape::Sum {
                variants: vec![
                    variant("Identifier", Some("identifier"), Some(vec![payload("Identifier", false)])),
                    variant("ScopedNameToken1", Some("::"), Some(vec![payload("Identifier", false)])),
                    variant(
                        "ScopedNameToken2",
                        Some("scoped_name"),
                        Some(vec![payload("ScopedName", true), payload("Identifier", false)]),
                    ),
                ],
            },
        }]
    );
}

#[test]
fn literal_choice_keeps_member_order_and_dedups_names() {
    let rule = RuleJSON::CHOICE { members: vec![lit("+"), lit("-"), lit("+")] };
    let out = rule.generate("op");
    let expected = vec![
        variant("Add", Some("+"), None),
        variant("Sub", Some("-"), None),
        variant("Add2", Some("+"), None),
    ];
    assert_eq!(out.decls, vec![Decl { name: text("Op"), shape: Shape::Sum { variants: expected } }]);
}

#[test]
fn sequence_gives_one_field_per_member_with_suffix_on_repeat() {
    let rule = RuleJSON::SEQ { members: vec![sym("expr"), lit("+"), sym("expr")] };
    let out = rule.generate("binary_expr");
    assert_eq!(
        out.decls,
        vec![
            Decl { name: text("BinaryExprToken1"), shape: Shape::Unit { kind: text("+") } },
            Decl {
                name: text("BinaryExpr"),
                shape: Shape::Product {
                    fields: vec![
                        field("expr", "Expr", kind("expr"), false, false),
                        field("binary_expr_token_1", "BinaryExprToken1", kind("+"), false, false),
                        field("expr_2", "Expr", kind("expr"), false, false),
                    ],
                },
            },
        ]
    );
}

#[test]
fn self_reference_in_sequence_is_boxed() {
    let rule = RuleJSON::SEQ { members: vec![sym("list"), sym("item")] };
    let out = rule.generate("list");
    assert_eq!(
        out.decls,
        vec![Decl {
            name: text("List"),
            shape: Shape::Product {
                fields: vec![field("list", "List", kind("list"), true, false),
                    field("item", "Item", kind("item"), false, false),],
            },
        }]
    );
}

#[test]
fn self_reference_in_choice_is_boxed() {
    let rule = RuleJSON::CHOICE { members: vec![sym("expr"), sym("number")] };
    let out = rule.generate("expr");
    assert_eq!(
        out.decls,
        vec![Decl {
            name: text("Expr"),
            shape: Shape::Sum {
                variants: vec![
                    variant("Expr", Some("expr"), Some(vec![payload("Expr", true)])),
                    variant("Number", Some("number"), Some(vec![payload("Number", false)])),
                ],
            },
        }]
    );
}

#[test]
fn pattern_is_a_leaf_and_symbol_an_alias() {
    let p = RuleJSON::PATTERN { value: text("[a-z]+"), flags: None };
    assert_eq!(p.generate("identifier").decls, vec![Decl { name: text("Identifier"), shape: Shape::Leaf }]);
    let s = sym("identifier");
    assert_eq!(
        s.generate("name").decls,
        vec![Decl { name: text("Name"), shape: Shape::Alias { target: text("Identifier") } }]
    );
}

#[test]
fn blank_and_unnamed_alias_give_nothing() {
    assert!(RuleJSON::BLANK.generate("empty").decls.is_empty());
    let a = RuleJSON::ALIAS { content: Box::new(lit("x")), named: false, value: text("y") };
    assert!(a.generate("alias").decls.is_empty());
    let b = RuleJSON::ALIAS { content: Box::new(lit("x")), named: true, value: text("y") };
    assert_eq!(b.generate("alias").decls, vec![Decl { name: text("Alias"), shape: Shape::Unit { kind: text("x") } }]);
}

#[test]
fn repeat_is_a_list_of_its_content() {
    let rule = RuleJSON::REPEAT1 { content: Box::new(sym("statement")) };
    let out = rule.generate("block");
    assert_eq!(
        out.decls,
        vec![
            Decl { name: text("BlockToken"), shape: Shape::Alias { target: text("Statement") } },
            Decl { name: text("Block"), shape: Shape::List { item: text("BlockToken") } },
        ]
    );
}

#[test]
fn grammar_field_is_labelled() {
    let rule = RuleJSON::FIELD { name: text("left"), content: Box::new(sym("expr")) };
    let out = rule.generate("binary");
    assert_eq!(
        out.decls,
        vec![
            Decl { name: text("BinaryLeft"), shape: Shape::Alias { target: text("Expr") } },
            Decl { name: text("BinaryLeft"), shape: Shape::Label { field: text("left") } },
        ]
    );
}

#[test]
fn precedence_and_token_are_transparent() {
    let inner = RuleJSON::PREC { value: sitter_ast::PrecedenceValueJSON::Integer(2), content: Box::new(lit("x")) };
    let rule = RuleJSON::TOKEN { content: Box::new(inner) };
    assert_eq!(rule.generate("kw").decls, vec![Decl { name: text("Kw"), shape: Shape::Unit { kind: text("x") } }]);
}

#[test]
fn unmodelled_members_are_noted_and_skipped() {
    let rule = RuleJSON::CHOICE {
        members: vec![lit("a"), RuleJSON::REPEAT { content: Box::new(lit("b")) }, RuleJSON::BLANK],
    };
    let out = rule.generate("thing");
    assert_eq!(out.notes, vec![Note { rule: text("Thing"), index: 1, tag: text("REPEAT") }]);
    assert_eq!(
        out.decls,
        vec![Decl {
            name: text("Thing"),
            shape: Shape::Sum {
                variants: vec![
                    variant("A", Some("a"), None),
                    variant("Blank", None, None),
                ],
            },
        }]
    );
    let seq = RuleJSON::SEQ { members: vec![RuleJSON::BLANK, sym("x")] };
    let out = seq.generate("pair");
    assert_eq!(out.notes, vec![Note { rule: text("Pair"), index: 0, tag: text("BLANK") }]);
}

#[test]
fn nested_choice_in_choice_gets_its_own_type() {
    let rule = RuleJSON::CHOICE {
        members: vec![RuleJSON::CHOICE { members: vec![lit("a"), lit("b")] }],
    };
    let out = rule.generate("outer");
    assert_eq!(
        out.decls,
        vec![
            Decl {
                name: text("OuterToken0"),
                shape: Shape::Sum {
                    variants: vec![
                        variant("A", Some("a"), None),
                        variant("B", Some("b"), None),
                    ],
                },
            },
            Decl {
                name: text("Outer"),
                shape: Shape::Sum {
                    variants: vec![variant("OuterToken0", None, Some(vec![payload("OuterToken0", false)]))],
                },
            },
        ]
    );
}

#[test]
fn recursion_check_looks_through_sequences_and_aliases() {
    assert!(is_recursive_type("Expr", &sym("expr")));
    assert!(!is_recursive_type("Expr", &sym("number")));
    let seq = RuleJSON::SEQ { members: vec![lit("("), sym("expr"), lit(")")] };
    assert!(is_recursive_type("Expr", &seq));
    let alias = RuleJSON::ALIAS { content: Box::new(sym("expr")), named: true, value: text("e") };
    assert!(is_recursive_type("Expr", &alias));
    assert!(!is_recursive_type("Expr", &lit("expr")));
}

#[test]
fn generating_twice_gives_the_same_declarations() {
    let rule = RuleJSON::SEQ { members: vec![sym("a"), lit("+"), sym("a")] };
    assert_eq!(rule.generate("sum"), rule.generate("sum"));
}

#[test]
fn reconstruction_tables_follow_member_order() {
    let choice = RuleJSON::CHOICE { members: vec![lit("+"), sym("expr"), RuleJSON::BLANK] };
    let sum = choice.generate("op").decls.pop().unwrap();
    assert_eq!(
        sum.reconstruction(),
        Some(Reconstruction::FirstChild { table: vec![(text("+"), 0), (text("expr"), 1)] })
    );
    let seq = RuleJSON::SEQ {
        members: vec![
            RuleJSON::FIELD { name: text("left"), content: Box::new(sym("expr")) },
            lit("+"),
            sym("expr"),
            RuleJSON::REPEAT { content: Box::new(sym("x")) },
        ],
    };
    let product = seq.generate("binary").decls.pop().unwrap();
    assert_eq!(
        product.reconstruction(),
        Some(Reconstruction::Children {
            by_kind: vec![(text("+"), 1), (text("expr"), 2)],
            by_label: vec![(text("left"), 0)],
        })
    );
    let unit = lit("x").generate("k").decls.pop().unwrap();
    assert_eq!(unit.reconstruction(), Some(Reconstruction::CheckKind { kind: text("x") }));
    let alias = sym("x").generate("k").decls.pop().unwrap();
    assert_eq!(alias.reconstruction(), None);
    let list = RuleJSON::REPEAT { content: Box::new(sym("x")) }.generate("xs").decls.pop().unwrap();
    assert_eq!(list.reconstruction(), Some(Reconstruction::EachChild { item: text("XsToken") }));
    let leaf = RuleJSON::PATTERN { value: text("."), flags: None }.generate("any").decls.pop().unwrap();
    assert_eq!(leaf.reconstruction(), Some(Reconstruction::Text));
}

#[test]
fn grammar_field_in_sequence_is_keyed_by_label() {
    let seq = RuleJSON::SEQ {
        members: vec![
            RuleJSON::FIELD { name: text("left"), content: Box::new(sym("expr")) },
            RuleJSON::FIELD { name: text("left"), content: Box::new(sym("expr")) },
        ],
    };
    let out = seq.generate("pair");
    let last = out.decls.last().unwrap().clone();
    assert_eq!(
        last.shape,
        Shape::Product {
            fields: vec![
                field("left", "PairLeft", Some(Key::Label(text("left"))), false, false),
                field("left_1", "PairLeft", Some(Key::Label(text("left"))), false, false),
            ],
        }
    );
}

#[test]
fn variant_suffix_is_chosen_free() {
    let rule = RuleJSON::CHOICE { members: vec![lit("a2"), lit("a"), lit("a")] };
    let out = rule.generate("v");
    let expected = vec![
        variant("A2", Some("a2"), None),
        variant("A", Some("a"), None),
        variant("A2_", Some("a"), None),
    ];
    assert_eq!(out.decls, vec![Decl { name: text("V"), shape: Shape::Sum { variants: expected } }]);
}

#[test]
fn field_suffix_is_chosen_free() {
    let rule = RuleJSON::SEQ { members: vec![sym("expr"), sym("expr"), sym("expr_1")] };
    let out = rule.generate("triple");
    assert_eq!(
        out.decls,
        vec![Decl {
            name: text("Triple"),
            shape: Shape::Product {
                fields: vec![
                    field("expr", "Expr", kind("expr"), false, false),
                    field("expr_1", "Expr", kind("expr"), false, false),
                    field("expr_1_", "Expr1", kind("expr_1"), false, false),
                ],
            },
        }]
    );
}

#[test]
fn plain_sequence_variant_is_picked_by_its_first_member() {
    let rule = RuleJSON::CHOICE {
        members: vec![
            RuleJSON::SEQ { members: vec![lit("::"), sym("identifier")] },
            RuleJSON::SEQ { members: vec![] },
        ],
    };
    let sum = rule.generate("scoped").decls.pop().unwrap();
    assert_eq!(
        sum.reconstruction(),
        Some(Reconstruction::FirstChild { table: vec![(text("::"), 0)] })
    );
}
