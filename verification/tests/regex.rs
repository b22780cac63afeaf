use lers::error::{Error, SyntaxKind};
use lers::regex::ast::Ast;
use lers::regex::builder::build_many;
use lers::regex::matcher::match_full;
use lers::regex::nfa::{Edge, Label, MAX};
use lers::regex::parser::{get_token, parse, PatternToken, TokenKind};

fn lit(c: u8) -> Box<Ast> {
    Box::new(Ast::Literal(c))
}

#[test]
fn every_byte_is_one_token() {
    let kinds: Vec<TokenKind> = (0..14).map(|i| get_token(b"()[]^-.+*|\\a\0", i).kind).collect();
    assert_eq!(
        kinds,
        vec![
            TokenKind::LParen,
            TokenKind::RParen,
            TokenKind::LBracket,
            TokenKind::RBracket,
            TokenKind::Caret,
            TokenKind::Dash,
            TokenKind::Dot,
            TokenKind::Plus,
            TokenKind::Asterisk,
            TokenKind::Bar,
            TokenKind::BackSlash,
            TokenKind::Literal,
            TokenKind::Literal,
            TokenKind::End,
        ]
    );
    assert_eq!(get_token(b"a", 0), PatternToken { kind: TokenKind::Literal, value: b'a' });
    assert_eq!(get_token(b"a", 1), PatternToken { kind: TokenKind::End, value: 0 });
}

#[test]
fn concatenation_binds_tighter_than_alternation() {
    assert_eq!(
        parse(b"ab|c"),
        Ok(Ast::Or(Box::new(Ast::And(lit(b'a'), lit(b'b'))), lit(b'c')))
    );
    assert_eq!(
        parse(b"a|b|c"),
        Ok(Ast::Or(Box::new(Ast::Or(lit(b'a'), lit(b'b'))), lit(b'c')))
    );
    assert_eq!(
        parse(b"abc"),
        Ok(Ast::And(Box::new(Ast::And(lit(b'a'), lit(b'b'))), lit(b'c')))
    );
}

#[test]
fn star_plus_dot_and_group() {
    assert_eq!(parse(b"a*"), Ok(Ast::Repeat(lit(b'a'))));
    assert_eq!(
        parse(b"a+"),
        Ok(Ast::And(lit(b'a'), Box::new(Ast::Repeat(lit(b'a')))))
    );
    assert_eq!(parse(b"."), Ok(Ast::Class(vec![b'\n'], true)));
    assert_eq!(parse(b"(a)"), Ok(Ast::Group(lit(b'a'))));
    assert_eq!(parse(b"^"), Ok(Ast::Literal(b'^')));
}

#[test]
fn escapes() {
    assert_eq!(parse(b"\\a"), Ok(Ast::Literal(0x07)));
    assert_eq!(parse(b"\\n"), Ok(Ast::Literal(0x0a)));
    assert_eq!(parse(b"\\r"), Ok(Ast::Literal(0x0d)));
    assert_eq!(parse(b"\\t"), Ok(Ast::Literal(0x09)));
    assert_eq!(parse(b"\\*"), Ok(Ast::Literal(b'*')));
    assert_eq!(parse(b"\\\\"), Ok(Ast::Literal(b'\\')));
}

#[test]
fn classes() {
    assert_eq!(parse(b"[abc]"), Ok(Ast::Class(b"abc".to_vec(), false)));
    assert_eq!(parse(b"[^abc]"), Ok(Ast::Class(b"abc".to_vec(), true)));
    assert_eq!(parse(b"[a-e]"), Ok(Ast::Class(b"abcde".to_vec(), false)));
    assert_eq!(parse(b"[a-cx0-2]"), Ok(Ast::Class(b"abcx012".to_vec(), false)));
    assert_eq!(parse(b"[\\n\\]]"), Ok(Ast::Class(b"\n]".to_vec(), false)));
    assert_eq!(parse(b"[z-a]"), Ok(Ast::Class(Vec::new(), false)));
    assert_eq!(parse(b"[]"), Ok(Ast::Class(Vec::new(), false)));
    assert_eq!(parse(b"[^]"), Ok(Ast::Class(Vec::new(), true)));
    let all = parse(b"[\x00-\xff]").unwrap();
    match all {
        Ast::Class(bytes, false) => {
            assert_eq!(bytes.len(), 256);
            assert_eq!(bytes[0], 0);
            assert_eq!(bytes[255], 255);
        }
        other => panic!("{:?}", other),
    }
}

#[test]
fn syntax_errors() {
    let unexpected = |at| Err(Error::SyntaxError(SyntaxKind::UnexpectedToken, at));
    assert_eq!(parse(b""), unexpected(0));
    assert_eq!(parse(b"*a"), unexpected(0));
    assert_eq!(parse(b"a|"), unexpected(2));
    assert_eq!(parse(b"()"), unexpected(1));
    assert_eq!(parse(b"a\\"), unexpected(2));
    assert_eq!(parse(b"[a.]"), unexpected(2));
    assert_eq!(parse(b"[a-]"), unexpected(3));
    assert_eq!(parse(b"[-a]"), unexpected(1));
    assert_eq!(
        parse(b"[ab"),
        Err(Error::SyntaxError(SyntaxKind::UnmatchedBracket, 3))
    );
    assert_eq!(
        parse(b"[a-"),
        Err(Error::SyntaxError(SyntaxKind::UnmatchedBracket, 3))
    );
    assert_eq!(
        parse(b"[a\\"),
        Err(Error::SyntaxError(SyntaxKind::UnmatchedBracket, 3))
    );
    assert_eq!(
        parse(b"(ab"),
        Err(Error::SyntaxError(SyntaxKind::UnmatchedParen, 3))
    );
    assert_eq!(
        parse(b"a)"),
        Err(Error::SyntaxError(SyntaxKind::TrailingGarbage, 1))
    );
    assert_eq!(
        parse(b"a**"),
        Err(Error::SyntaxError(SyntaxKind::TrailingGarbage, 2))
    );
    assert_eq!(
        parse(b"a-b"),
        Err(Error::SyntaxError(SyntaxKind::TrailingGarbage, 1))
    );
}

#[test]
fn duplicate_is_equal() {
    let ast = parse(b"(a|[b-d]+)*e").unwrap();
    assert_eq!(ast.duplicate(), ast);
}

fn eps(from: usize, to: usize) -> Edge {
    Edge { from, label: Label::Epsilon, to }
}

#[test]
fn fragment_of_a_literal_and_a_concatenation() {
    let nfa = build_many(&[b"ab".to_vec()]).unwrap();
    assert_eq!(nfa.states_count, 4);
    assert_eq!(
        nfa.edges,
        vec![
            Edge { from: 1, label: Label::Char(b'a'), to: 2 },
            Edge { from: 2, label: Label::Char(b'b'), to: 3 },
            eps(0, 1),
        ]
    );
    assert_eq!(nfa.accepts, vec![3]);
}

#[test]
fn fragment_of_an_alternation() {
    let nfa = build_many(&[b"a|b".to_vec()]).unwrap();
    assert_eq!(nfa.states_count, 7);
    assert_eq!(
        nfa.edges,
        vec![
            Edge { from: 2, label: Label::Char(b'a'), to: 3 },
            Edge { from: 4, label: Label::Char(b'b'), to: 5 },
            eps(1, 2),
            eps(1, 4),
            eps(3, 6),
            eps(5, 6),
            eps(0, 1),
        ]
    );
    assert_eq!(nfa.accepts, vec![6]);
}

#[test]
fn fragment_of_a_repetition_and_a_class() {
    let nfa = build_many(&[b"[ab]*".to_vec()]).unwrap();
    assert_eq!(nfa.states_count, 5);
    assert_eq!(
        nfa.edges,
        vec![
            Edge { from: 2, label: Label::Class(b"ab".to_vec(), false), to: 3 },
            eps(1, 2),
            eps(1, 4),
            eps(3, 2),
            eps(3, 4),
            eps(0, 1),
        ]
    );
    assert_eq!(nfa.accepts, vec![4]);
}

#[test]
fn one_accept_state_for_each_pattern_in_order() {
    let nfa = build_many(&[b"a".to_vec(), b"(b)".to_vec(), b"c+".to_vec()]).unwrap();
    // 1 start state, then 2, 2 and 5 states
    assert_eq!(nfa.states_count, 10);
    assert_eq!(nfa.accepts, vec![2, 4, 9]);
    let starts: Vec<usize> = nfa
        .edges
        .iter()
        .filter(|e| e.from == 0)
        .map(|e| e.to)
        .collect();
    assert_eq!(starts, vec![1, 3, 5]);
    let none = build_many(&[]).unwrap();
    assert_eq!(none.states_count, 1);
    assert!(none.accepts.is_empty());
    assert!(none.edges.is_empty());
}

#[test]
fn too_many_states_overflow() {
    // each "a" after the first adds one state: n bytes give n + 1 states,
    // and the start state of the automaton is one more
    let fits = vec![b'a'; MAX - 2];
    assert_eq!(build_many(&[fits]).unwrap().states_count, MAX);
    let too_long = vec![b'a'; MAX - 1];
    assert_eq!(build_many(&[too_long]).err(), Some(Error::RegexOverflow));
    let half = vec![b'a'; 499];
    assert_eq!(
        build_many(&[half.clone(), half.clone()]).err(),
        Some(Error::RegexOverflow)
    );
    assert_eq!(build_many(&[half.clone(), vec![b'a'; 497]]).unwrap().states_count, MAX);
}

#[test]
fn fewer_than_twice_as_many_edges_as_states() {
    // repetitions and alternations give the most edges for their states
    let mut pattern = b"a".to_vec();
    while pattern.len() + 5 < 1400 {
        pattern = [&b"("[..], &pattern, &b")*"[..]].concat();
    }
    let many = vec![b"(a|b)*".to_vec(); 120];
    for patterns in [vec![pattern.clone()], many] {
        match build_many(&patterns) {
            Ok(nfa) => {
                assert!(nfa.edges.len() + 2 <= 2 * nfa.states_count);
                assert!(nfa.edges.len() > MAX);
            }
            Err(e) => assert_eq!(e, Error::RegexOverflow),
        }
    }
    let nested = {
        let mut p = b"a".to_vec();
        for _ in 0..400 {
            p = [&b"("[..], &p, &b")*"[..]].concat();
        }
        p
    };
    let nfa = build_many(&[nested]).unwrap();
    assert_eq!(nfa.states_count, 1 + 2 + 2 * 400);
    assert_eq!(nfa.edges.len(), 1 + 4 * 400 + 1);
}

#[test]
fn first_error_in_pattern_order_is_returned() {
    assert_eq!(
        build_many(&[b"a".to_vec(), b"(".to_vec(), vec![b'a'; 2000]]).err(),
        Some(Error::SyntaxError(SyntaxKind::UnexpectedToken, 1))
    );
    assert_eq!(
        build_many(&[vec![b'a'; 2000], b"(".to_vec()]).err(),
        Some(Error::RegexOverflow)
    );
}

#[test]
fn full_match() {
    let nfa = build_many(&[b"(ab|cd)*e".to_vec(), b"[^x]y".to_vec()]).unwrap();
    assert!(match_full(&nfa, b"e"));
    assert!(match_full(&nfa, b"abcdabe"));
    assert!(match_full(&nfa, b"zy"));
    assert!(!match_full(&nfa, b"xy"));
    assert!(!match_full(&nfa, b"ab"));
    assert!(!match_full(&nfa, b""));
    assert!(!match_full(&nfa, b"ee"));
    let star = build_many(&[b"a*".to_vec()]).unwrap();
    assert!(match_full(&star, b""));
    assert!(match_full(&star, b"aaa"));
    assert!(!match_full(&star, b"ab"));
    let dot = build_many(&[b".".to_vec()]).unwrap();
    assert!(match_full(&dot, b"\xff"));
    assert!(!match_full(&dot, b"\n"));
}
