//! Turns rule names and literal text into identifiers.
use convert_case::{Case, Casing};
use vstd::prelude::*;

verus! {

/// What `convert_case` makes of a text in upper camel case (`foo_bar` becomes `FooBar`).
pub uninterp spec fn upper_camel_of(s: Seq<char>) -> Seq<char>;

/// What `convert_case` makes of a text in snake case (`FooBar` becomes `foo_bar`).
pub uninterp spec fn snake_of(s: Seq<char>) -> Seq<char>;

/// Relies on `convert_case::Casing::to_case` with `Case::UpperCamel`: the result
/// depends on the text alone.
#[verifier::external_body]
pub(crate) fn upper_camel(s: &str) -> (r: String)
    ensures
        r@ == upper_camel_of(s@),
{
    s.to_case(Case::UpperCamel)
}

/// Relies on `convert_case::Casing::to_case` with `Case::Snake`: the result
/// depends on the text alone.
#[verifier::external_body]
pub(crate) fn snake(s: &str) -> (r: String)
    ensures
        r@ == snake_of(s@),
{
    s.to_case(Case::Snake)
}

/// Whether two texts are equal, character by character.
pub fn same_text(a: &str, b: &str) -> (r: bool)
    ensures
        r == (a@ == b@),
{
    let n = a.unicode_len();
    let m = b.unicode_len();
    if n != m {
        return false;
    }
    let mut i: usize = 0;
    while i < n
        invariant
            n == a@.len(),
            m == b@.len(),
            n == m,
            i <= n,
            a@.subrange(0, i as int) == b@.subrange(0, i as int),
        decreases n - i,
    {
        if a.get_char(i) != b.get_char(i) {
            return false;
        }
        proof {
            assert(a@.subrange(0, i + 1) == a@.subrange(0, i as int).push(a@[i as int]));
            assert(b@.subrange(0, i + 1) == b@.subrange(0, i as int).push(b@[i as int]));
        }
        i = i + 1;
    }
    proof {
        assert(a@ == a@.subrange(0, n as int));
        assert(b@ == b@.subrange(0, n as int));
    }
    true
}

/// The spelled-out name of a character that cannot stand in an identifier.
pub open spec fn mnemonic_of(c: char) -> Option<Seq<char>> {
    if c == ' ' { Some("_"@) }
    else if c == '&' { Some("And"@) }
    else if c == '|' { Some("Or"@) }
    else if c == '!' { Some("Not"@) }
    else if c == '=' { Some("Eq"@) }
    else if c == '<' { Some("Lt"@) }
    else if c == '>' { Some("Gt"@) }
    else if c == '+' { Some("Add"@) }
    else if c == '-' { Some("Sub"@) }
    else if c == '*' { Some("Mul"@) }
    else if c == '/' { Some("Div"@) }
    else if c == '~' { Some("BitNot"@) }
    else if c == '%' { Some("Mod"@) }
    else if c == '^' { Some("BitXor"@) }
    else if c == '?' { Some("Question"@) }
    else if c == ':' { Some("Colon"@) }
    else if c == '.' { Some("Dot"@) }
    else if c == ',' { Some("Comma"@) }
    else if c == ';' { Some("Semicolon"@) }
    else if c == '(' { Some("LParen"@) }
    else if c == ')' { Some("RParen"@) }
    else if c == '[' { Some("LBracket"@) }
    else if c == ']' { Some("RBracket"@) }
    else if c == '{' { Some("LBrace"@) }
    else if c == '}' { Some("RBrace"@) }
    else if c == '\\' { Some("Backslash"@) }
    else if c == '\'' { Some("Quote"@) }
    else if c == '"' { Some("DoubleQuote"@) }
    else if c == '#' { Some("Hash"@) }
    else if c == '@' { Some("At"@) }
    else if c == '$' { Some("Dollar"@) }
    else if c == '`' { Some("Backtick"@) }
    else if c == '\t' { Some("Tab"@) }
    else if c == '\n' { Some("Newline"@) }
    else if c == '\r' { Some("CarriageReturn"@) }
    else { None }
}

fn mnemonic(c: char) -> (r: Option<&'static str>)
    ensures
        r matches Some(m) ==> mnemonic_of(c) == Some(m@),
        r is None ==> mnemonic_of(c) is None,
{
    if c == ' ' { Some("_") }
    else if c == '&' { Some("And") }
    else if c == '|' { Some("Or") }
    else if c == '!' { Some("Not") }
    else if c == '=' { Some("Eq") }
    else if c == '<' { Some("Lt") }
    else if c == '>' { Some("Gt") }
    else if c == '+' { Some("Add") }
    else if c == '-' { Some("Sub") }
    else if c == '*' { Some("Mul") }
    else if c == '/' { Some("Div") }
    else if c == '~' { Some("BitNot") }
    else if c == '%' { Some("Mod") }
    else if c == '^' { Some("BitXor") }
    else if c == '?' { Some("Question") }
    else if c == ':' { Some("Colon") }
    else if c == '.' { Some("Dot") }
    else if c == ',' { Some("Comma") }
    else if c == ';' { Some("Semicolon") }
    else if c == '(' { Some("LParen") }
    else if c == ')' { Some("RParen") }
    else if c == '[' { Some("LBracket") }
    else if c == ']' { Some("RBracket") }
    else if c == '{' { Some("LBrace") }
    else if c == '}' { Some("RBrace") }
    else if c == '\\' { Some("Backslash") }
    else if c == '\'' { Some("Quote") }
    else if c == '"' { Some("DoubleQuote") }
    else if c == '#' { Some("Hash") }
    else if c == '@' { Some("At") }
    else if c == '$' { Some("Dollar") }
    else if c == '`' { Some("Backtick") }
    else if c == '\t' { Some("Tab") }
    else if c == '\n' { Some("Newline") }
    else if c == '\r' { Some("CarriageReturn") }
    else { None }
}

/// The text with each character that has a mnemonic replaced by it.
pub open spec fn spelled(s: Seq<char>) -> Seq<char>
    decreases s.len(),
{
    if s.len() == 0 {
        Seq::empty()
    } else {
        let c = s.last();
        spelled(s.drop_last()) + match mnemonic_of(c) {
            Some(m) => m,
            None => seq![c],
        }
    }
}

/// The escaped form of a word that the target language reserves.
pub open spec fn keyword_escape_of(s: Seq<char>) -> Option<Seq<char>> {
    if s == "as"@ { Some("KW_AS"@) }
    else if s == "break"@ { Some("KW_BREAK"@) }
    else if s == "const"@ { Some("KW_CONST"@) }
    else if s == "continue"@ { Some("KW_CONTINUE"@) }
    else if s == "crate"@ { Some("KW_CRATE"@) }
    else if s == "else"@ { Some("KW_ELSE"@) }
    else if s == "enum"@ { Some("KW_ENUM"@) }
    else if s == "extern"@ { Some("KW_EXTERN"@) }
    else if s == "false"@ { Some("KW_FALSE"@) }
    else if s == "fn"@ { Some("KW_FN"@) }
    else if s == "for"@ { Some("KW_FOR"@) }
    else if s == "if"@ { Some("KW_IF"@) }
    else if s == "impl"@ { Some("KW_IMPL"@) }
    else if s == "in"@ { Some("KW_IN"@) }
    else if s == "let"@ { Some("KW_LET"@) }
    else if s == "loop"@ { Some("KW_LOOP"@) }
    else if s == "match"@ { Some("KW_MATCH"@) }
    else if s == "mod"@ { Some("KW_MOD"@) }
    else if s == "move"@ { Some("KW_MOVE"@) }
    else if s == "mut"@ { Some("KW_MUT"@) }
    else if s == "pub"@ { Some("KW_PUB"@) }
    else if s == "ref"@ { Some("KW_REF"@) }
    else if s == "return"@ { Some("KW_RETURN"@) }
    else if s == "self"@ { Some("KW_SELFVALUE"@) }
    else if s == "Self"@ { Some("KW_SELFTYPE"@) }
    else if s == "static"@ { Some("KW_STATIC"@) }
    else if s == "struct"@ { Some("KW_STRUCT"@) }
    else if s == "super"@ { Some("KW_SUPER"@) }
    else if s == "trait"@ { Some("KW_TRAIT"@) }
    else if s == "true"@ { Some("KW_TRUE"@) }
    else if s == "type"@ { Some("KW_TYPE"@) }
    else if s == "unsafe"@ { Some("KW_UNSAFE"@) }
    else if s == "use"@ { Some("KW_USE"@) }
    else if s == "where"@ { Some("KW_WHERE"@) }
    else if s == "while"@ { Some("KW_WHILE"@) }
    else if s == "async"@ { Some("KW_ASYNC"@) }
    else if s == "await"@ { Some("KW_AWAIT"@) }
    else if s == "dyn"@ { Some("KW_DYN"@) }
    else if s == "abstract"@ { Some("KW_ABSTRACT"@) }
    else if s == "become"@ { Some("KW_BECOME"@) }
    else if s == "box"@ { Some("KW_BOX"@) }
    else if s == "do"@ { Some("KW_DO"@) }
    else if s == "final"@ { Some("KW_FINAL"@) }
    else if s == "macro"@ { Some("KW_MACRO"@) }
    else if s == "override"@ { Some("KW_OVERRIDE"@) }
    else if s == "priv"@ { Some("KW_PRIV"@) }
    else if s == "typeof"@ { Some("KW_TYPEOF"@) }
    else if s == "unsized"@ { Some("KW_UNSIZED"@) }
    else if s == "virtual"@ { Some("KW_VIRTUAL"@) }
    else if s == "yield"@ { Some("KW_YIELD"@) }
    else if s == "try"@ { Some("KW_TRY"@) }
    else if s == "macro_rules"@ { Some("KW_MACRO_RULES"@) }
    else if s == "union"@ { Some("KW_UNION"@) }
    else { None }
}

fn keyword_escape(s: &str) -> (r: Option<&'static str>)
    ensures
        r matches Some(k) ==> keyword_escape_of(s@) == Some(k@),
        r is None ==> keyword_escape_of(s@) is None,
{
    if same_text(s, "as") { Some("KW_AS") }
    else if same_text(s, "break") { Some("KW_BREAK") }
    else if same_text(s, "const") { Some("KW_CONST") }
    else if same_text(s, "continue") { Some("KW_CONTINUE") }
    else if same_text(s, "crate") { Some("KW_CRATE") }
    else if same_text(s, "else") { Some("KW_ELSE") }
    else if same_text(s, "enum") { Some("KW_ENUM") }
    else if same_text(s, "extern") { Some("KW_EXTERN") }
    else if same_text(s, "false") { Some("KW_FALSE") }
    else if same_text(s, "fn") { Some("KW_FN") }
    else if same_text(s, "for") { Some("KW_FOR") }
    else if same_text(s, "if") { Some("KW_IF") }
    else if same_text(s, "impl") { Some("KW_IMPL") }
    else if same_text(s, "in") { Some("KW_IN") }
    else if same_text(s, "let") { Some("KW_LET") }
    else if same_text(s, "loop") { Some("KW_LOOP") }
    else if same_text(s, "match") { Some("KW_MATCH") }
    else if same_text(s, "mod") { Some("KW_MOD") }
    else if same_text(s, "move") { Some("KW_MOVE") }
    else if same_text(s, "mut") { Some("KW_MUT") }
    else if same_text(s, "pub") { Some("KW_PUB") }
    else if same_text(s, "ref") { Some("KW_REF") }
    else if same_text(s, "return") { Some("KW_RETURN") }
    else if same_text(s, "self") { Some("KW_SELFVALUE") }
    else if same_text(s, "Self") { Some("KW_SELFTYPE") }
    else if same_text(s, "static") { Some("KW_STATIC") }
    else if same_text(s, "struct") { Some("KW_STRUCT") }
    else if same_text(s, "super") { Some("KW_SUPER") }
    else if same_text(s, "trait") { Some("KW_TRAIT") }
    else if same_text(s, "true") { Some("KW_TRUE") }
    else if same_text(s, "type") { Some("KW_TYPE") }
    else if same_text(s, "unsafe") { Some("KW_UNSAFE") }
    else if same_text(s, "use") { Some("KW_USE") }
    else if same_text(s, "where") { Some("KW_WHERE") }
    else if same_text(s, "while") { Some("KW_WHILE") }
    else if same_text(s, "async") { Some("KW_ASYNC") }
    else if same_text(s, "await") { Some("KW_AWAIT") }
    else if same_text(s, "dyn") { Some("KW_DYN") }
    else if same_text(s, "abstract") { Some("KW_ABSTRACT") }
    else if same_text(s, "become") { Some("KW_BECOME") }
    else if same_text(s, "box") { Some("KW_BOX") }
    else if same_text(s, "do") { Some("KW_DO") }
    else if same_text(s, "final") { Some("KW_FINAL") }
    else if same_text(s, "macro") { Some("KW_MACRO") }
    else if same_text(s, "override") { Some("KW_OVERRIDE") }
    else if same_text(s, "priv") { Some("KW_PRIV") }
    else if same_text(s, "typeof") { Some("KW_TYPEOF") }
    else if same_text(s, "unsized") { Some("KW_UNSIZED") }
    else if same_text(s, "virtual") { Some("KW_VIRTUAL") }
    else if same_text(s, "yield") { Some("KW_YIELD") }
    else if same_text(s, "try") { Some("KW_TRY") }
    else if same_text(s, "macro_rules") { Some("KW_MACRO_RULES") }
    else if same_text(s, "union") { Some("KW_UNION") }
    else { None }
}

/// Whether a character is an ASCII decimal digit.
pub open spec fn is_digit(c: char) -> bool {
    '0' <= c && c <= '9'
}

/// The identifier for a text: a reserved word becomes its escaped form in upper
/// camel case; otherwise each special character is spelled out, and a result
/// that starts with a digit gets the prefix `N_`.
pub open spec fn ident_of(s: Seq<char>) -> Seq<char> {
    match keyword_escape_of(s) {
        Some(k) => upper_camel_of(k),
        None => {
            let t = spelled(s);
            if t.len() > 0 && is_digit(t[0]) {
                "N_"@ + t
            } else {
                t
            }
        },
    }
}

/// Turns literal text or a rule name into an identifier that is no reserved
/// word and holds no punctuation.
pub fn to_ident(value: &str) -> (r: String)
    ensures
        r@ == ident_of(value@),
{
    if let Some(k) = keyword_escape(value) {
        return upper_camel(k);
    }
    let n = value.unicode_len();
    let mut out = String::new();
    let mut i: usize = 0;
    while i < n
        invariant
            n == value@.len(),
            i <= n,
            out@ == spelled(value@.subrange(0, i as int)),
        decreases n - i,
    {
        let c = value.get_char(i);
        proof {
            let p = value@.subrange(0, i + 1);
            assert(p.drop_last() == value@.subrange(0, i as int));
            assert(p.last() == c);
        }
        match mnemonic(c) {
            Some(m) => out.append(m),
            None => out.append(value.substring_char(i, i + 1)),
        }
        i = i + 1;
    }
    proof {
        assert(value@.subrange(0, n as int) == value@);
    }
    if n > 0 && out.unicode_len() > 0 {
        let first = out.as_str().get_char(0);
        if '0' <= first && first <= '9' {
            let mut prefixed = String::from_str("N_");
            prefixed.append(out.as_str());
            return prefixed;
        }
    }
    proof {
        if n == 0 {
            assert(value@.subrange(0, 0) =~= Seq::<char>::empty());
        }
    }
    out
}

/// The decimal spelling of one digit.
pub open spec fn digit_text(d: nat) -> Seq<char> {
    if d == 0 { "0"@ }
    else if d == 1 { "1"@ }
    else if d == 2 { "2"@ }
    else if d == 3 { "3"@ }
    else if d == 4 { "4"@ }
    else if d == 5 { "5"@ }
    else if d == 6 { "6"@ }
    else if d == 7 { "7"@ }
    else if d == 8 { "8"@ }
    else { "9"@ }
}

/// The decimal spelling of a number.
pub open spec fn decimal_of(n: nat) -> Seq<char>
    decreases n,
{
    if n < 10 {
        digit_text(n)
    } else {
        decimal_of(n / 10) + digit_text(n % 10)
    }
}

fn digit(d: usize) -> (r: &'static str)
    requires
        d < 10,
    ensures
        r@ == digit_text(d as nat),
{
    if d == 0 { "0" }
    else if d == 1 { "1" }
    else if d == 2 { "2" }
    else if d == 3 { "3" }
    else if d == 4 { "4" }
    else if d == 5 { "5" }
    else if d == 6 { "6" }
    else if d == 7 { "7" }
    else if d == 8 { "8" }
    else { "9" }
}

/// Writes a number in decimal.
pub fn decimal(n: usize) -> (r: String)
    ensures
        r@ == decimal_of(n as nat),
    decreases n,
{
    if n < 10 {
        String::from_str(digit(n))
    } else {
        let mut s = decimal(n / 10);
        s.append(digit(n % 10));
        s
    }
}

} // verus!
