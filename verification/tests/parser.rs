use lers::ast::{
    CodeNode, DefinitionNode, DefinitionPairNode, OptionNode, Root, RuleNode, RulePairNode,
    UserCodeNode,
};
use lers::lexer::Lexer;
use lers::parser::Parser;

#[test]
fn mod_parse() {
    let source = r#"
%option noyywrap
/* comment */
%{
    c code block
%}

name1       pattern1
name2       pattern2
name3       pattern3

%%

pattern1    { action1(); }
pattern2    { action2(); }
pattern3    { action3(); }

%%

/* user code */
void helper() {}"#;
    let lexer = Lexer::new(source.as_bytes()).unwrap();
    let mut parser = Parser::new(lexer);
    let target_ast = Root {
        definition_node: Some(DefinitionNode {
            options: Some(vec![OptionNode { value: b"noyywrap" }]),
            code: Some(CodeNode {
                value: b"    c code block",
            }),
            definitions: Some(vec![
                DefinitionPairNode {
                    name: b"name1",
                    definition: b"pattern1",
                },
                DefinitionPairNode {
                    name: b"name2",
                    definition: b"pattern2",
                },
                DefinitionPairNode {
                    name: b"name3",
                    definition: b"pattern3",
                },
            ]),
        }),
        rule_node: Some(RuleNode {
            rules: Some(vec![
                RulePairNode {
                    pattern: b"pattern1".to_vec(),
                    action: b"{ action1(); }",
                },
                RulePairNode {
                    pattern: b"pattern2".to_vec(),
                    action: b"{ action2(); }",
                },
                RulePairNode {
                    pattern: b"pattern3".to_vec(),
                    action: b"{ action3(); }",
                },
            ]),
        }),
        usercode_node: Some(UserCodeNode {
            value: b"\n\n/* user code */\nvoid helper() {}",
        }),
    };
    assert_eq!(parser.parse(), Ok(target_ast));
}

use lers::error::{Error, SyntaxKind};
use lers::parser::expand::expand_pattern;

fn parse(source: &[u8]) -> Result<Root<'_>, Error> {
    Parser::new(Lexer::new(source).unwrap()).parse()
}

#[test]
fn empty_sections_give_no_nodes() {
    assert_eq!(
        parse(b"%%%%"),
        Ok(Root { definition_node: None, rule_node: None, usercode_node: None })
    );
    assert_eq!(
        parse(b"\n\n %%\n\n %%"),
        Ok(Root { definition_node: None, rule_node: None, usercode_node: None })
    );
    // line feeds alone are tokens: the nodes are there and hold nothing
    assert_eq!(
        parse(b"\n\n/**/%%\n\n/**/%%"),
        Ok(Root {
            definition_node: Some(DefinitionNode { options: None, code: None, definitions: None }),
            rule_node: Some(RuleNode { rules: Some(vec![]) }),
            usercode_node: None,
        })
    );
}

#[test]
fn later_code_and_options_replace_earlier_and_macros_are_appended() {
    let source = b"\n%option a b\n%{\none\n%}\na x\n\n%option c\n%{\ntwo\n%}\nb y\n%%%%";
    let root = parse(source).unwrap();
    assert_eq!(
        root.definition_node,
        Some(DefinitionNode {
            options: Some(vec![OptionNode { value: b"c" }]),
            code: Some(CodeNode { value: b"two" }),
            definitions: Some(vec![
                DefinitionPairNode { name: b"a", definition: b"x" },
                DefinitionPairNode { name: b"b", definition: b"y" },
            ]),
        })
    );
}

#[test]
fn syntax_errors_of_a_specification() {
    // a name without a pattern: the error is at the token found instead
    assert_eq!(
        parse(b"\nname\nother x\n%%%%"),
        Err(Error::SyntaxError(SyntaxKind::MissingPattern, 5))
    );
    assert_eq!(
        parse(b"\nname\n%%%%"),
        Err(Error::SyntaxError(SyntaxKind::MissingPattern, 6))
    );
    // a pattern without a name
    assert_eq!(
        parse(b"x y\n%%%%"),
        Err(Error::SyntaxError(SyntaxKind::UnexpectedToken, 0))
    );
    // a pattern without an action
    assert_eq!(
        parse(b"%%\na\nb {}\n%%"),
        Err(Error::SyntaxError(SyntaxKind::MissingAction, 4))
    );
    assert_eq!(
        parse(b"%%\na\n%%"),
        Err(Error::SyntaxError(SyntaxKind::MissingAction, 5))
    );
    // an action without a pattern
    assert_eq!(
        parse(b"%%\n {}\n%%"),
        Err(Error::SyntaxError(SyntaxKind::UnexpectedToken, 4))
    );
    // braces at the start of a line are pattern text
    assert_eq!(
        parse(b"%%\n{}\n%%"),
        Err(Error::SyntaxError(SyntaxKind::MissingAction, 6))
    );
    // a lexical error comes out as it is
    assert_eq!(parse(b"%%\na {} b\n%%"), Err(Error::LexicalError(8)));
    assert_eq!(parse(b"\nname \r x\n%%%%"), Err(Error::LexicalError(6)));
}

fn pair<'a>(name: &'a [u8], definition: &'a [u8]) -> DefinitionPairNode<'a> {
    DefinitionPairNode { name, definition }
}

#[test]
fn expansion_reaches_the_fixed_point() {
    let macros = [pair(b"digit", b"[0-9]"), pair(b"number", b"{digit}+")];
    assert_eq!(expand_pattern(b"{number}", &macros), Some(b"[0-9]+".to_vec()));
    assert_eq!(
        expand_pattern(b"a{digit}b{digit}{number}", &macros),
        Some(b"a[0-9]b[0-9][0-9]+".to_vec())
    );
    // expanding what was expanded changes nothing
    assert_eq!(expand_pattern(b"[0-9]+", &macros), Some(b"[0-9]+".to_vec()));
    // an unknown name stays as it is, and so do braces that hold no name
    assert_eq!(expand_pattern(b"{none}{}{digit", &macros), Some(b"{none}{}{digit".to_vec()));
    assert_eq!(expand_pattern(b"", &macros), Some(Vec::new()));
    assert_eq!(expand_pattern(b"{a}", &[]), Some(b"{a}".to_vec()));
    // of two macros with one name the first counts
    let twice = [pair(b"a", b"1"), pair(b"a", b"2")];
    assert_eq!(expand_pattern(b"{a}", &twice), Some(b"1".to_vec()));
}

#[test]
fn expansion_stops_at_the_limit() {
    // macros that refer to each other in a circle
    assert_eq!(expand_pattern(b"{a}", &[pair(b"a", b"{a}")]), None);
    assert_eq!(expand_pattern(b"{a}", &[pair(b"a", b"x{b}"), pair(b"b", b"{a}y")]), None);
    // the limit is the number of macros, whether there is a circle or not:
    // this pattern would be done after two rounds
    assert_eq!(expand_pattern(b"{a}a}", &[pair(b"a", b"{")]), None);
    assert_eq!(
        expand_pattern(b"{a}a}", &[pair(b"a", b"{"), pair(b"b", b"x")]),
        Some(b"{".to_vec())
    );
    // a chain takes as many rounds as it has macros
    let chain = [pair(b"a", b"{b}"), pair(b"b", b"{c}"), pair(b"c", b"z")];
    assert_eq!(expand_pattern(b"{a}", &chain), Some(b"z".to_vec()));
    assert_eq!(
        parse(b"\na {b}\nb {a}\n%%\nx {}\n{a} {}\n%%"),
        Err(Error::ExpansionLimit(1))
    );
}

#[test]
fn rule_patterns_are_expanded_in_order() {
    let root = parse(b"\nd [0-9]\n%%\n{d}+ {one}\nx{d} {two}\n{e} {three}\n%%").unwrap();
    let rules = root.rule_node.unwrap().rules.unwrap();
    let patterns: Vec<&[u8]> = rules.iter().map(|r| r.pattern.as_slice()).collect();
    assert_eq!(patterns, vec![&b"[0-9]+"[..], &b"x[0-9]"[..], &b"{e}"[..]]);
    let actions: Vec<&[u8]> = rules.iter().map(|r| r.action).collect();
    assert_eq!(actions, vec![&b"{one}"[..], &b"{two}"[..], &b"{three}"[..]]);
}
