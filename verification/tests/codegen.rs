use lers::codegen::code::{
    PREPARE, REGEX_AST, REGEX_BUILDER, REGEX_EDGE, REGEX_HEAD, REGEX_LEXER, REGEX_MATCH, REGEX_NFA,
    REGEX_PARSER, REGEX_STATE, YYLEX,
};
use lers::codegen::{CodeGen, GenOption, RuleTable};
use lers::lexer::Lexer;
use lers::parser::Parser;

fn target_code() -> String {
    format!(
        "{}{}{}{}{}{}{}{}{}{}{}{}{}",
        PREPARE,
        REGEX_HEAD,
        REGEX_STATE,
        REGEX_LEXER,
        REGEX_AST,
        REGEX_PARSER,
        REGEX_EDGE,
        REGEX_NFA,
        REGEX_BUILDER,
        REGEX_MATCH,
        r#"/*** Definition Code ***/
    c code block
/*** Rule Code ***/
#define g_pattern_count 3
char *g_patterns[] = {
  "pattern1",
  "pattern2",
  "pattern3",
};

void action(int pattern_index) {
  if (pattern_index == 0) {
{ action1(); }
  }
  if (pattern_index == 1) {
{ action2(); }
  }
  if (pattern_index == 2) {
{ action3(); }
  }
}
"#,
        YYLEX,
        r#"
/*** User Code ***/

void helper() {}"#,
    )
}

#[test]
fn codegen() {
    let source = r#"
%option noyywrap
/* comment */
%{
    c code block
%}
%%
pattern1    { action1(); }
pattern2    { action2(); }
pattern3    { action3(); }
%%
void helper() {}"#;
    let mut codegen = CodeGen::new(
        Parser::new(Lexer::new(source.as_bytes()).unwrap())
            .parse()
            .unwrap(),
    );
    let rule_table = RuleTable {
        pair_count: 3,
        patterns: vec![b"pattern1".to_vec(), b"pattern2".to_vec(), b"pattern3".to_vec()],
        actions: vec![b"{ action1(); }", b"{ action2(); }", b"{ action3(); }"],
    };
    let code = codegen.generate();
    assert_eq!(String::from_utf8(code).unwrap(), target_code());
    assert_eq!(*codegen.rule_table(), rule_table);
    assert_eq!(*codegen.options(), vec![GenOption::Noyywrap]);
}

use lers::codegen::{push_decimal, same_bytes};
use lers::driver::compile;
use lers::error::Error;

fn engine() -> String {
    format!(
        "{}{}{}{}{}{}{}{}{}{}",
        PREPARE,
        REGEX_HEAD,
        REGEX_STATE,
        REGEX_LEXER,
        REGEX_AST,
        REGEX_PARSER,
        REGEX_EDGE,
        REGEX_NFA,
        REGEX_BUILDER,
        REGEX_MATCH
    )
}

#[test]
fn empty_specification_gives_the_runtime_and_an_empty_table() {
    let code = compile(b"%%%%").unwrap();
    let expected = format!(
        "{}{}{}{}",
        engine(),
        "/*** Rule Code ***/\n#define g_pattern_count 0\nchar *g_patterns[] = {\n};\n\nvoid action(int pattern_index) {\n}\n",
        YYLEX,
        "\n"
    );
    assert_eq!(String::from_utf8(code).unwrap(), expected);
}

#[test]
fn patterns_are_emitted_expanded_as_they_stand_and_in_order() {
    let code = compile(b"\nq \"\n%%\n{q}a\\n {A}\nb {B}\n%%tail").unwrap();
    let expected = format!(
        "{}{}{}{}",
        engine(),
        "/*** Rule Code ***/\n#define g_pattern_count 2\nchar *g_patterns[] = {\n  \"\"a\\n\",\n  \"b\",\n};\n\nvoid action(int pattern_index) {\n  if (pattern_index == 0) {\n{A}\n  }\n  if (pattern_index == 1) {\n{B}\n  }\n}\n",
        YYLEX,
        "\n/*** User Code ***/\ntail"
    );
    assert_eq!(String::from_utf8(code).unwrap(), expected);
}

#[test]
fn counts_and_indexes_are_decimal() {
    let mut source = b"%%".to_vec();
    for _ in 0..12 {
        source.extend_from_slice(b"\nx {}");
    }
    source.extend_from_slice(b"\n%%");
    let code = String::from_utf8(compile(&source).unwrap()).unwrap();
    assert!(code.contains("#define g_pattern_count 12\n"));
    assert!(code.contains("  if (pattern_index == 9) {\n{}\n  }\n  if (pattern_index == 10) {\n"));
    assert!(code.contains("  if (pattern_index == 11) {\n"));
    assert!(!code.contains("pattern_index == 12"));
    let mut out = b"n=".to_vec();
    push_decimal(&mut out, 0);
    push_decimal(&mut out, 7);
    push_decimal(&mut out, 1090);
    assert_eq!(out, b"n=071090");
    let mut out = Vec::new();
    push_decimal(&mut out, usize::MAX);
    assert_eq!(String::from_utf8(out).unwrap(), usize::MAX.to_string());
}

#[test]
fn generating_twice_gives_the_same() {
    let root = Parser::new(Lexer::new(b"\n%option noyywrap other noyywrap\n%%\na {b}\n%%").unwrap())
        .parse()
        .unwrap();
    let mut codegen = CodeGen::new(root);
    assert!(codegen.options().is_empty());
    assert_eq!(codegen.rule_table().pair_count, 0);
    let first = codegen.generate();
    let second = codegen.generate();
    assert_eq!(first, second);
    assert_eq!(codegen.rule_table().pair_count, 1);
    assert_eq!(*codegen.options(), vec![GenOption::Noyywrap, GenOption::Noyywrap]);
}

#[test]
fn rule_table_appends_pairs() {
    let mut table = RuleTable::new();
    table.append_pair(b"p", b"{a}");
    table.append_pair(b"q", b"{b}");
    assert_eq!(
        table,
        RuleTable {
            pair_count: 2,
            patterns: vec![b"p".to_vec(), b"q".to_vec()],
            actions: vec![b"{a}", b"{b}"],
        }
    );
}

#[test]
fn compile_reports_errors() {
    assert_eq!(compile(b"no delimiters"), Err(Error::MalformedInput));
    assert_eq!(compile(b"%%\na {} b\n%%"), Err(Error::LexicalError(8)));
    assert!(same_bytes(b"ab", b"ab"));
    assert!(!same_bytes(b"ab", b"abc"));
    assert!(!same_bytes(b"ab", b"ac"));
}

#[test]
fn emitted_matcher_is_written_to_the_scan_of_the_engine() {
    // the rule is found by walking the accept states in the order of the
    // patterns
    assert!(REGEX_STATE.contains("int first_shared_index(States *s, States *targets)"));
    assert!(REGEX_STATE.contains("for (size_t i = 0; i < targets->len; ++i)"));
    assert!(!REGEX_STATE.contains("get_shared_states"));
    assert!(!REGEX_MATCH.contains("get_shared_states"));
    // the rule is noted only where an accept state is live
    assert!(REGEX_MATCH.contains(
        "    if (shared >= 0) {\n      last_match = yyleng;\n      last_pattern = shared;\n    }"
    ));
    // a byte that kills a scan without a match is dropped without a look at
    // the accept states
    assert!(REGEX_MATCH.contains(
        "      s = epsilon_closure(nfa, s);\n      ++g_buffer_ptr;\n      continue;"
    ));
    // an automaton of too many states is given up, and the array of edges has
    // room for every other
    assert!(REGEX_BUILDER.contains("  if (g_state_counts >= MAX) {"));
    assert!(REGEX_NFA.contains("  Edge *edges[2 * MAX];"));
    // a scan without a match ends no process and runs no action
    assert!(REGEX_MATCH.contains("  return last_pattern;\n}"));
    assert!(!REGEX_MATCH.contains("EXIT_FAILURE"));
    assert!(YYLEX.contains("    if (pattern_idx >= 0)\n      action(pattern_idx);"));
}

#[test]
fn pattern_array_keeps_order_and_equal_patterns() {
    let root = Parser::new(Lexer::new(b"%%\nb {1}\na {2}\nb {3}\n%%").unwrap())
        .parse()
        .unwrap();
    let mut codegen = CodeGen::new(root);
    let mut out = Vec::new();
    codegen.gen_pattern_array(&mut out);
    assert_eq!(out, b"#define g_pattern_count 0\nchar *g_patterns[] = {\n};\n\n");
    codegen.generate();
    let mut out = b"x".to_vec();
    codegen.gen_pattern_array(&mut out);
    assert_eq!(
        String::from_utf8(out).unwrap(),
        "x#define g_pattern_count 3\nchar *g_patterns[] = {\n  \"b\",\n  \"a\",\n  \"b\",\n};\n\n"
    );
    let mut out = Vec::new();
    codegen.gen_action_function(&mut out);
    assert_eq!(
        String::from_utf8(out).unwrap(),
        "void action(int pattern_index) {\n  if (pattern_index == 0) {\n{1}\n  }\n  if (pattern_index == 1) {\n{2}\n  }\n  if (pattern_index == 2) {\n{3}\n  }\n}\n"
    );
    let mut out = Vec::new();
    codegen.gen_rule_code(&mut out);
    let text = String::from_utf8(out).unwrap();
    assert!(text.starts_with("/*** Rule Code ***/\n#define g_pattern_count 3\n"));
    assert!(text.ends_with("  return 0;\n}\n"));
}
