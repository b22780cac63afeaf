use lers::driver::simulate;
use lers::error::{Error, SyntaxKind};
use lers::regex::builder::build_many;
use lers::regex::scanner::{yylex, Match, Scanner};

/// Scans the input with the rules of the specification and returns what each
/// rule's action would print.
///
/// This runs the verified engine through `simulate`. The C text that the
/// generator emits is the same algorithm written in C; it is not compiled or
/// run here, so these tests say nothing of it.
fn scan(spec: &str, input: &str) -> Vec<String> {
    simulate(spec.as_bytes(), input.as_bytes())
        .unwrap()
        .iter()
        .map(|m| format!("{}|{}", String::from_utf8_lossy(&m.text), m.rule.unwrap()))
        .collect()
}

#[test]
fn simulation_reports_the_first_error() {
    assert_eq!(simulate(b"%%", b"x"), Err(Error::MalformedInput));
    assert_eq!(simulate(b"%%\na\n%%", b"x"), Err(Error::SyntaxError(SyntaxKind::MissingAction, 5)));
    assert_eq!(
        simulate(b"%%\na {}\n(b {}\n%%", b"x"),
        Err(Error::SyntaxError(SyntaxKind::UnmatchedParen, 2))
    );
    let mut long = b"%%\n".to_vec();
    long.extend_from_slice(&vec![b'a'; 1000]);
    long.extend_from_slice(b" {}\n%%");
    assert_eq!(simulate(&long, b"x"), Err(Error::RegexOverflow));
    assert_eq!(simulate(b"%%%%", b"abc"), Ok(vec![]));
}

#[test]
fn single_literal() {
    let spec = "%%\nabc { printf(\"%s|%d\\n\", yytext, 0); }\n%%\n";
    assert_eq!(scan(spec, "abcabc"), vec!["abc|0", "abc|0"]);
}

#[test]
fn class_and_kleene() {
    let spec = "%%\n[0-9]+ { printf(\"%s|%d\\n\", yytext, 0); }\n.|\\n { printf(\"%s|%d\\n\", yytext, 1); }\n%%\n";
    assert_eq!(scan(spec, "x12 3"), vec!["x|1", "12|0", " |1", "3|0"]);
}

#[test]
fn longest_match_beats_earliest() {
    let spec = "%%\nif { printf(\"%s|%d\\n\", yytext, 0); }\n[a-z]+ { printf(\"%s|%d\\n\", yytext, 1); }\n%%\n";
    assert_eq!(scan(spec, "iffy"), vec!["iffy|1"]);
}

#[test]
fn earliest_breaks_length_tie() {
    let spec = "%%\nif { printf(\"%s|%d\\n\", yytext, 0); }\n[a-z]+ { printf(\"%s|%d\\n\", yytext, 1); }\n%%\n";
    assert_eq!(scan(spec, "if "), vec!["if|0"]);
}

#[test]
fn macro_expansion() {
    let spec = "\ndigit [0-9]\nnumber {digit}+\n%%\n{number} { printf(\"%s|%d\\n\", yytext, 0); }\n%%\n";
    assert_eq!(scan(spec, "42 7"), vec!["42|0", "7|0"]);
}

#[test]
fn alternation_and_grouping() {
    let spec = "%%\n(ab|cd)*e { printf(\"%s|%d\\n\", yytext, 0); }\n%%\n";
    assert_eq!(scan(spec, "abcde"), vec!["abcde|0"]);
}

#[test]
fn unmatched_byte_is_dropped_and_the_cursor_moves_on() {
    let nfa = build_many(&[b"if".to_vec(), b"[a-z]+".to_vec()]).unwrap();
    let mut scanner = Scanner::new(b"if x");
    let first = scanner.yy_match(&nfa);
    assert_eq!(first, Match { text: b"if".to_vec(), rule: Some(0) });
    assert_eq!(scanner.cursor(), 2);
    let second = scanner.yy_match(&nfa);
    assert_eq!(second, Match { text: b"x".to_vec(), rule: Some(1) });
    assert_eq!(scanner.cursor(), 4);
    assert!(scanner.at_end());
}

#[test]
fn scan_without_any_match_yields_no_rule() {
    let nfa = build_many(&[b"a".to_vec()]).unwrap();
    let mut scanner = Scanner::new(b"  ");
    let m = scanner.yy_match(&nfa);
    assert_eq!(m, Match { text: Vec::new(), rule: None });
    assert_eq!(scanner.cursor(), 2);
    assert!(yylex(&nfa, b"  ").is_empty());
}

#[test]
fn scan_stops_where_the_automaton_dies_after_a_match() {
    // "ab" matches rule 0; "abc" is taken but "abcx" kills the automaton, so
    // the token is "ab" and the cursor stands at the byte that killed it.
    let nfa = build_many(&[b"ab".to_vec(), b"abcd".to_vec()]).unwrap();
    let mut scanner = Scanner::new(b"abcxab");
    let m = scanner.yy_match(&nfa);
    assert_eq!(m, Match { text: b"ab".to_vec(), rule: Some(0) });
    assert_eq!(scanner.cursor(), 3);
}

#[test]
fn bytes_taken_before_a_restart_stay_in_the_token() {
    // "ab" is taken, "x" kills the automaton with no match noted: "x" is
    // dropped and the scan goes on; what was taken before stays.
    let nfa = build_many(&[b"abc".to_vec()]).unwrap();
    let mut scanner = Scanner::new(b"abxabc");
    let m = scanner.yy_match(&nfa);
    assert_eq!(m, Match { text: b"ababc".to_vec(), rule: Some(0) });
    assert_eq!(scanner.cursor(), 6);
}
