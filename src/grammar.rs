//! The grammar description: one rule tree per named rule.
use vstd::prelude::*;

verus! {

/// One rule of a grammar, as the parser generator describes it.
#[derive(Debug, PartialEq)]
#[allow(non_camel_case_types)]
#[allow(clippy::upper_case_acronyms)]
pub enum RuleJSON {
    ALIAS { content: Box<RuleJSON>, named: bool, value: String },
    BLANK,
    STRING { value: String },
    PATTERN { value: String, flags: Option<String> },
    SYMBOL { name: String },
    CHOICE { members: Vec<RuleJSON> },
    FIELD { name: String, content: Box<RuleJSON> },
    SEQ { members: Vec<RuleJSON> },
    REPEAT { content: Box<RuleJSON> },
    REPEAT1 { content: Box<RuleJSON> },
    PREC_DYNAMIC { value: i32, content: Box<RuleJSON> },
    PREC_LEFT { value: PrecedenceValueJSON, content: Box<RuleJSON> },
    PREC_RIGHT { value: PrecedenceValueJSON, content: Box<RuleJSON> },
    PREC { value: PrecedenceValueJSON, content: Box<RuleJSON> },
    TOKEN { content: Box<RuleJSON> },
    IMMEDIATE_TOKEN { content: Box<RuleJSON> },
}

/// A precedence: a number, or the name of a level.
#[derive(Debug, Clone, PartialEq)]
pub enum PrecedenceValueJSON {
    Integer(i32),
    Name(String),
}

/// A whole grammar. The rules stand in the order in which they are compiled;
/// a name may occur more than once: what each occurrence declares passes
/// through one table, where a repeat is dropped and another form for a taken
/// name is a conflict.
#[derive(Debug, PartialEq)]
pub struct GrammarJSON {
    pub name: String,
    pub rules: Vec<(String, RuleJSON)>,
    pub precedences: Vec<Vec<RuleJSON>>,
    pub conflicts: Vec<Vec<String>>,
    pub externals: Vec<RuleJSON>,
    pub extras: Vec<RuleJSON>,
    pub inline: Vec<String>,
    pub supertypes: Vec<String>,
    pub word: Option<String>,
}

/// The tag under which the description writes a rule of this shape.
pub open spec fn tag_of(r: RuleJSON) -> Seq<char> {
    match r {
        RuleJSON::ALIAS { .. } => "ALIAS"@,
        RuleJSON::BLANK => "BLANK"@,
        RuleJSON::STRING { .. } => "STRING"@,
        RuleJSON::PATTERN { .. } => "PATTERN"@,
        RuleJSON::SYMBOL { .. } => "SYMBOL"@,
        RuleJSON::CHOICE { .. } => "CHOICE"@,
        RuleJSON::FIELD { .. } => "FIELD"@,
        RuleJSON::SEQ { .. } => "SEQ"@,
        RuleJSON::REPEAT { .. } => "REPEAT"@,
        RuleJSON::REPEAT1 { .. } => "REPEAT1"@,
        RuleJSON::PREC_DYNAMIC { .. } => "PREC_DYNAMIC"@,
        RuleJSON::PREC_LEFT { .. } => "PREC_LEFT"@,
        RuleJSON::PREC_RIGHT { .. } => "PREC_RIGHT"@,
        RuleJSON::PREC { .. } => "PREC"@,
        RuleJSON::TOKEN { .. } => "TOKEN"@,
        RuleJSON::IMMEDIATE_TOKEN { .. } => "IMMEDIATE_TOKEN"@,
    }
}

impl RuleJSON {
    /// The tag under which the description writes this rule's shape.
    pub fn tag(&self) -> (r: &'static str)
        ensures
            r@ == tag_of(*self),
    {
        match self {
            RuleJSON::ALIAS { .. } => "ALIAS",
            RuleJSON::BLANK => "BLANK",
            RuleJSON::STRING { .. } => "STRING",
            RuleJSON::PATTERN { .. } => "PATTERN",
            RuleJSON::SYMBOL { .. } => "SYMBOL",
            RuleJSON::CHOICE { .. } => "CHOICE",
            RuleJSON::FIELD { .. } => "FIELD",
            RuleJSON::SEQ { .. } => "SEQ",
            RuleJSON::REPEAT { .. } => "REPEAT",
            RuleJSON::REPEAT1 { .. } => "REPEAT1",
            RuleJSON::PREC_DYNAMIC { .. } => "PREC_DYNAMIC",
            RuleJSON::PREC_LEFT { .. } => "PREC_LEFT",
            RuleJSON::PREC_RIGHT { .. } => "PREC_RIGHT",
            RuleJSON::PREC { .. } => "PREC",
            RuleJSON::TOKEN { .. } => "TOKEN",
            RuleJSON::IMMEDIATE_TOKEN { .. } => "IMMEDIATE_TOKEN",
        }
    }
}

} // verus!
