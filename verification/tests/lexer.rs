use lers::error::Error;
use lers::lexer::definition_token::DefinitionToken;
use lers::lexer::rule_token::RuleToken;
use lers::lexer::usercode_token::UsercodeToken;
use lers::lexer::{Lexer, Token};

#[test]
fn mod_tokenize() {
    let source = r#"
%option noyywrap
/* comment */
%{
    c code block
%}

%%

pattern1    { action1(); }
pattern2    { action2(); }
pattern3    { action3(); }

%%

/* user code */
void helper() {}"#;
    let mut lex = Lexer::new(source.as_bytes()).unwrap();

    assert_eq!(lex.next(), Some(Ok(Token::Definition(DefinitionToken::Newline))));
    assert_eq!(lex.next(), Some(Ok(Token::Definition(DefinitionToken::OptionStart))));
    assert_eq!(
        lex.next(),
        Some(Ok(Token::Definition(DefinitionToken::Identifier(b"noyywrap"))))
    );
    assert_eq!(lex.next(), Some(Ok(Token::Definition(DefinitionToken::Newline))));
    assert_eq!(lex.next(), Some(Ok(Token::Definition(DefinitionToken::Newline))));
    assert!(matches!(
        lex.next(),
        Some(Ok(Token::Definition(DefinitionToken::CCode(_))))
    ));
    assert_eq!(lex.next(), Some(Ok(Token::RuleStart)));
    assert_eq!(lex.next(), Some(Ok(Token::Rule(RuleToken::Newline))));
    assert_eq!(lex.next(), Some(Ok(Token::Rule(RuleToken::Pattern(b"pattern1")))));
    assert_eq!(
        lex.next(),
        Some(Ok(Token::Rule(RuleToken::Action(b"{ action1(); }"))))
    );
    assert_eq!(lex.next(), Some(Ok(Token::Rule(RuleToken::Pattern(b"pattern2")))));
    assert_eq!(
        lex.next(),
        Some(Ok(Token::Rule(RuleToken::Action(b"{ action2(); }"))))
    );
    assert_eq!(lex.next(), Some(Ok(Token::Rule(RuleToken::Pattern(b"pattern3")))));
    assert_eq!(
        lex.next(),
        Some(Ok(Token::Rule(RuleToken::Action(b"{ action3(); }"))))
    );
    assert_eq!(lex.next(), Some(Ok(Token::RuleEnd)));
    assert!(matches!(
        lex.next(),
        Some(Ok(Token::Ucode(UsercodeToken::CCode(_))))
    ));
    assert_eq!(lex.next(), None);
}

#[test]
fn definition_token_tokenize() {
    let definition = r#"
%option noyywrap
/*** Definition section ***/

%{
    /* C code to be copied verbatim */
    #include <stdio.h>
%}"#;
    let mut lex = DefinitionToken::lexer(definition.as_bytes());
    assert_eq!(lex.next(), Some(Ok(DefinitionToken::Newline)));
    assert_eq!(lex.next(), Some(Ok(DefinitionToken::OptionStart)));
    assert_eq!(lex.next(), Some(Ok(DefinitionToken::Identifier(b"noyywrap"))));
    assert_eq!(lex.next(), Some(Ok(DefinitionToken::Newline)));
    assert_eq!(lex.next(), Some(Ok(DefinitionToken::Newline)));
    assert_eq!(lex.next(), Some(Ok(DefinitionToken::Newline)));
    assert_eq!(
        lex.next(),
        Some(Ok(DefinitionToken::CCode(
            "    /* C code to be copied verbatim */\n    #include <stdio.h>".as_bytes()
        )))
    );
    assert_eq!(lex.next(), None);
}

#[test]
fn rule_token_tokenize() {
    let rules = r#"
[0-9]+  {
            /* yytext is a string containing the matched text. */
            printf("Saw an integer: %s\n", yytext);
        }

.|\n    {   /* Ignore all other characters. */   }"#;
    let mut lex = RuleToken::lexer(rules.as_bytes());

    assert_eq!(lex.next(), Some(Ok(RuleToken::Pattern("[0-9]+".as_bytes()))));
    assert!(matches!(lex.next(), Some(Ok(RuleToken::Action(_)))));
    assert_eq!(lex.next(), Some(Ok(RuleToken::Newline)));
    assert_eq!(lex.next(), Some(Ok(RuleToken::Pattern(".|\\n".as_bytes()))));
    assert!(matches!(lex.next(), Some(Ok(RuleToken::Action(_)))));
}

#[test]
fn usercode_token_tokenize() {
    let ucode = r#"
/*** C Code section ***/

int main(void)
{
    /* Call the lexer, then quit. */
    yylex();
    return 0;
}"#;
    let mut lex = UsercodeToken::lexer(ucode.as_bytes());
    assert!(matches!(lex.next(), Some(Ok(UsercodeToken::CCode(_)))));
    assert_eq!(lex.next(), None);
}

#[test]
fn fewer_than_two_delimiters_is_malformed() {
    assert_eq!(Lexer::new(b"").err(), Some(Error::MalformedInput));
    assert_eq!(Lexer::new(b"a b\n%%\nx {y}\n").err(), Some(Error::MalformedInput));
    assert_eq!(Lexer::new(b"%%%").err(), Some(Error::MalformedInput));
    assert!(Lexer::new(b"%%%%").is_ok());
}

#[test]
fn offsets_are_counted_in_the_specification() {
    let source = b"ab\n%%\nx {y}\n%%\nrest";
    let mut lex = Lexer::new(source).unwrap();
    assert_eq!(
        lex.next(),
        Some(Ok(Token::Definition(DefinitionToken::Pattern(b"ab"))))
    );
    assert_eq!(lex.offset(), 0);
    assert_eq!(lex.next(), Some(Ok(Token::RuleStart)));
    assert_eq!(lex.offset(), 3);
    assert_eq!(lex.next(), Some(Ok(Token::Rule(RuleToken::Pattern(b"x")))));
    assert_eq!(lex.offset(), 5);
    assert_eq!(lex.next(), Some(Ok(Token::Rule(RuleToken::Action(b"{y}")))));
    assert_eq!(lex.offset(), 8);
    assert_eq!(lex.next(), Some(Ok(Token::RuleEnd)));
    assert_eq!(lex.offset(), 12);
    assert_eq!(lex.next(), Some(Ok(Token::Ucode(UsercodeToken::CCode(b"\nrest")))));
    assert_eq!(lex.offset(), 14);
    assert_eq!(lex.next(), None);
    assert_eq!(lex.next(), None);
}

#[test]
fn definitions_and_rules_are_trimmed_at_their_end() {
    assert_eq!(lers::lexer::trim(b"a b \t\r\n\x0b\x0c"), b"a b");
    assert_eq!(lers::lexer::trim(b" \n"), b"");
    assert_eq!(lers::lexer::trim(b""), b"");
    assert_eq!(lers::lexer::trim(b"  x"), b"  x");
    // the carriage return at the end of the first two sections is no lexical
    // error; the user code is kept as it stands
    let mut lex = Lexer::new(b"\r\n%%\r\n%%code \n").unwrap();
    assert_eq!(lex.next(), Some(Ok(Token::RuleStart)));
    assert_eq!(lex.next(), Some(Ok(Token::RuleEnd)));
    assert_eq!(lex.next(), Some(Ok(Token::Ucode(UsercodeToken::CCode(b"code \n")))));
    assert_eq!(lex.next(), None);
    let mut lex = Lexer::new(b"%%%%\n").unwrap();
    assert_eq!(lex.next(), Some(Ok(Token::RuleStart)));
    assert_eq!(lex.next(), Some(Ok(Token::RuleEnd)));
    assert_eq!(lex.next(), Some(Ok(Token::Ucode(UsercodeToken::CCode(b"\n")))));
    assert_eq!(lex.next(), None);
}

#[test]
fn third_section_keeps_further_delimiters() {
    let mut lex = Lexer::new(b"%%%%a%%b").unwrap();
    assert_eq!(lex.next(), Some(Ok(Token::RuleStart)));
    assert_eq!(lex.next(), Some(Ok(Token::RuleEnd)));
    assert_eq!(lex.next(), Some(Ok(Token::Ucode(UsercodeToken::CCode(b"a%%b")))));
    assert_eq!(lex.next(), None);
}

#[test]
fn lexical_error_in_rules_has_the_offset_of_the_byte() {
    // a pattern must begin a line: "x" after an action starts no token
    let mut lex = Lexer::new(b"%%\na {b} x\n%%").unwrap();
    assert_eq!(lex.next(), Some(Ok(Token::RuleStart)));
    assert_eq!(lex.next(), Some(Ok(Token::Rule(RuleToken::Pattern(b"a")))));
    assert_eq!(lex.next(), Some(Ok(Token::Rule(RuleToken::Action(b"{b}")))));
    assert_eq!(lex.next(), Some(Err(Error::LexicalError(9))));
    assert_eq!(lex.offset(), 9);
    assert_eq!(lex.next(), Some(Ok(Token::RuleEnd)));
}

#[test]
fn rule_tokens_edge_cases() {
    // tab and space separate; a comment is passed over; an action ends at the
    // first closing brace
    let mut lex = RuleToken::lexer(b"\na\t /* c */ {x}}\n\n[a b]+c {}");
    assert_eq!(lex.next(), Some(Ok(RuleToken::Pattern(b"a"))));
    assert_eq!(lex.next(), Some(Ok(RuleToken::Action(b"{x}"))));
    assert_eq!(lex.next(), Some(Err(Error::LexicalError(15))));
    assert_eq!(lex.next(), Some(Ok(RuleToken::Newline)));
    assert_eq!(lex.next(), Some(Ok(RuleToken::Pattern(b"[a b]+c"))));
    assert_eq!(lex.next(), Some(Ok(RuleToken::Action(b"{}"))));
    assert_eq!(lex.next(), None);
    // a brace that is never closed, and a comment that is never closed
    let mut lex = RuleToken::lexer(b"{a");
    assert_eq!(lex.next(), Some(Err(Error::LexicalError(0))));
    assert_eq!(lex.next(), Some(Err(Error::LexicalError(1))));
    assert_eq!(lex.next(), None);
    let mut lex = RuleToken::lexer(b" /* a\n*/");
    assert_eq!(lex.next(), Some(Err(Error::LexicalError(1))));
    // a comment that begins a line is passed over, unless the pattern text
    // there is longer
    let mut lex = RuleToken::lexer(b"\n/* c */\n/*c*/d {}\n/**/ {}");
    assert_eq!(lex.next(), Some(Ok(RuleToken::Newline)));
    assert_eq!(lex.next(), Some(Ok(RuleToken::Pattern(b"/*c*/d"))));
    assert_eq!(lex.next(), Some(Ok(RuleToken::Action(b"{}"))));
    assert_eq!(lex.next(), Some(Ok(RuleToken::Newline)));
    assert_eq!(lex.next(), Some(Ok(RuleToken::Action(b"{}"))));
    assert_eq!(lex.next(), None);
    // a class needs a byte and its closing bracket
    let mut lex = RuleToken::lexer(b"\na[]");
    assert_eq!(lex.next(), Some(Ok(RuleToken::Pattern(b"a"))));
    assert_eq!(lex.next(), Some(Err(Error::LexicalError(2))));
    assert_eq!(lex.next(), Some(Err(Error::LexicalError(3))));
    assert_eq!(lex.next(), None);
}

#[test]
fn definition_tokens_edge_cases() {
    // an identifier is read after %option only; elsewhere a word is a pattern
    let mut lex = DefinitionToken::lexer(b"word %option a b-c d\nname [0-9]+x\n_n1 y");
    assert_eq!(lex.next(), Some(Ok(DefinitionToken::Pattern(b"word"))));
    assert_eq!(lex.next(), Some(Ok(DefinitionToken::OptionStart)));
    assert_eq!(lex.next(), Some(Ok(DefinitionToken::Identifier(b"a"))));
    assert_eq!(lex.next(), Some(Ok(DefinitionToken::Pattern(b"b-c"))));
    assert_eq!(lex.next(), Some(Ok(DefinitionToken::Pattern(b"d"))));
    assert_eq!(lex.next(), Some(Ok(DefinitionToken::Name(b"name"))));
    assert_eq!(lex.offset(), 20);
    assert_eq!(lex.next(), Some(Ok(DefinitionToken::Pattern(b"[0-9]+x"))));
    assert_eq!(lex.next(), Some(Ok(DefinitionToken::Name(b"_n1"))));
    assert_eq!(lex.next(), Some(Ok(DefinitionToken::Pattern(b"y"))));
    assert_eq!(lex.next(), None);
    // the longest candidate wins
    let mut lex = DefinitionToken::lexer(b"%options %{x /*a*/b /**/ %{\n\n%} \r");
    assert_eq!(lex.next(), Some(Ok(DefinitionToken::Pattern(b"%options"))));
    assert_eq!(lex.next(), Some(Ok(DefinitionToken::Pattern(b"%{x"))));
    assert_eq!(lex.next(), Some(Ok(DefinitionToken::Pattern(b"/*a*/b"))));
    assert_eq!(lex.next(), Some(Ok(DefinitionToken::CCode(b""))));
    assert_eq!(lex.next(), Some(Err(Error::LexicalError(32))));
    assert_eq!(lex.next(), None);
}

#[test]
fn three_sections_that_join_to_the_source() {
    let source: &[u8] = b"defs \t\n%%\nrules\r\n%%tail%%more \n";
    let parts = lers::lexer::split_sections(source).unwrap();
    assert_eq!(parts.definitions, b"defs");
    assert_eq!(parts.rules, b"\nrules");
    assert_eq!(parts.usercode, b"tail%%more \n");
    assert_eq!(parts.first_delimiter, 7);
    assert_eq!(parts.second_delimiter, 17);
    // joined with the delimiters, and with the whitespace that ended the
    // first two sections put back, the sections give the source
    let joined = [
        parts.definitions,
        &b" \t\n"[..],
        &b"%%"[..],
        parts.rules,
        &b"\r\n"[..],
        &b"%%"[..],
        parts.usercode,
    ]
    .concat();
    assert_eq!(joined, source);
    assert_eq!(
        lers::lexer::split_sections(b"a%%b").err(),
        Some(Error::MalformedInput)
    );
}
