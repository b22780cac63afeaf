use lers::error::Error;
use lers::lexer::auxiliary_token::AuxiliaryToken;
use lers::lexer::declaration_token::DeclarationToken;
use lers::parser::rule_parser::code::{MATCH, PREPARE};
use lers::parser::rule_parser::RuleParser;

#[test]
fn auxiliary_token_tokenize() {
    let aux = r#"
            /*** C Code section ***/

            int main(void)
            {
                /* Call the lexer, then quit. */
                yylex();
                return 0;
            }
            "#;
    let mut lex = AuxiliaryToken::lexer(aux.as_bytes());
    assert!(matches!(lex.next(), Some(Ok(AuxiliaryToken::CCode(_)))));
    assert_eq!(lex.next(), None);
}

#[test]
fn declaration_token_tokenize() {
    let decl = r#"
%option noyywrap
/*** Definition section ***/

%{
    /* C code to be copied verbatim */
    #include <stdio.h>
%}"#;
    let mut lex = DeclarationToken::lexer(decl.as_bytes());
    assert_eq!(lex.next(), Some(Ok(DeclarationToken::OptionStart)));
    assert_eq!(lex.next(), Some(Ok(DeclarationToken::Option(b"noyywrap"))));
    assert_eq!(
        lex.next(),
        Some(Ok(DeclarationToken::CCode(
            "    /* C code to be copied verbatim */\n    #include <stdio.h>".as_bytes()
        )))
    );
    assert_eq!(lex.next(), None);
}

#[test]
fn auxiliary_token_holds_the_whole_text() {
    let mut lex = AuxiliaryToken::lexer(b" a\n%% ");
    assert_eq!(lex.next(), Some(Ok(AuxiliaryToken::CCode(b" a\n%% "))));
    assert_eq!(lex.next(), None);
    let mut lex = AuxiliaryToken::lexer(b"");
    assert_eq!(lex.next(), None);
}

#[test]
fn declaration_tokens_edge_cases() {
    let mut lex = DeclarationToken::lexer(b"%optionx\x0c%{ /**/x\r");
    assert_eq!(lex.next(), Some(Ok(DeclarationToken::Option(b"%optionx"))));
    assert_eq!(lex.next(), Some(Ok(DeclarationToken::Option(b"%{"))));
    assert_eq!(lex.next(), Some(Ok(DeclarationToken::Option(b"/**/x"))));
    assert_eq!(lex.next(), Some(Err(Error::LexicalError(17))));
    assert_eq!(lex.next(), None);
}

#[test]
fn plain_matcher_source() {
    let mut parser = RuleParser::new();
    parser.add_pattern(b"abc");
    parser.add_action(b"puts(\"abc\");");
    parser.add_pattern(b"d");
    parser.add_action(b"puts(\"d\");");
    let expected = format!(
        "{}{}{}{}",
        PREPARE,
        "#define g_pattern_count 2\nchar *g_patterns[] = {\n  \"abc\",\n  \"d\",\n};\n\nvoid action(int pattern_index) {\n  if (pattern_index == 0) {\nputs(\"abc\");\n  }\n  if (pattern_index == 1) {\nputs(\"d\");\n  }\n}\n",
        MATCH,
        "int yylex() {\n  read_file(\"test.txt\");\n  match();\n  return 0;\n}\n"
    );
    assert_eq!(String::from_utf8(parser.gen_code()).unwrap(), expected);
    let empty = RuleParser::default();
    assert!(String::from_utf8(empty.gen_code())
        .unwrap()
        .contains("#define g_pattern_count 0\nchar *g_patterns[] = {\n};\n\nvoid action(int pattern_index) {\n}\n"));
}
