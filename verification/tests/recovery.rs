use parser::entry;
use parser::event::Event;
use parser::grammar;
use parser::parser::Parser;
use parser::syntax_kind::SyntaxKind;
use parser::token_set::TokenSet;

fn error_events(p: &Parser) -> usize {
    p.events.iter().filter(|e| matches!(e, Event::Error { .. })).count()
}

fn token_events(p: &Parser) -> usize {
    p.events.iter().filter(|e| matches!(e, Event::Token { .. })).count()
}

#[test]
fn token_set_membership() {
    let ts = TokenSet::empty()
        .with(SyntaxKind::Semicolon)
        .with(SyntaxKind::RParen);
    assert!(ts.contains(SyntaxKind::Semicolon));
    assert!(ts.contains(SyntaxKind::RParen));
    assert!(!ts.contains(SyntaxKind::Ident));
    assert!(!TokenSet::empty().contains(SyntaxKind::Semicolon));
}

#[test]
fn use_path_recovers_at_a_non_starter() {
    // not a path head and not a brace: the error consumes one token
    let mut p = Parser::new(vec![SyntaxKind::Plus, SyntaxKind::Ident]);
    grammar::use_path(&mut p);
    assert_eq!(p.pos, 1);
    assert_eq!(error_events(&p), 1);

    // at a brace nothing is consumed
    let mut p = Parser::new(vec![SyntaxKind::LCurly]);
    grammar::use_path(&mut p);
    assert_eq!(p.pos, 0);
    assert_eq!(error_events(&p), 1);
}

#[test]
fn pattern_recovery_forces_progress() {
    let mut p = Parser::new(vec![SyntaxKind::Plus, SyntaxKind::Ident]);
    entry::pat(&mut p);
    assert_eq!(p.pos, 1);
    assert_eq!(error_events(&p), 1);
}

#[test]
fn type_recovery_consumes_one_token_away_from_braces() {
    let mut p = Parser::new(vec![SyntaxKind::Plus]);
    entry::ty(&mut p);
    assert_eq!(p.pos, 1);
    assert_eq!(error_events(&p), 1);

    let mut p = Parser::new(vec![SyntaxKind::RCurly]);
    entry::ty(&mut p);
    assert_eq!(p.pos, 0);
    assert_eq!(error_events(&p), 1);
}

#[test]
fn item_entry_wraps_a_stray_closing_brace_in_an_error() {
    let mut p = Parser::new(vec![SyntaxKind::RCurly, SyntaxKind::Ident]);
    entry::item(&mut p);
    assert_eq!(p.pos, 1);
    assert!(matches!(&p.events[0], Event::Start { kind, .. } if *kind == SyntaxKind::Error));
}

#[test]
fn item_entry_turns_a_stray_brace_region_into_an_error_block() {
    let mut p = Parser::new(vec![
        SyntaxKind::LCurly,
        SyntaxKind::Ident,
        SyntaxKind::RCurly,
        SyntaxKind::Ident,
    ]);
    entry::item(&mut p);
    assert_eq!(p.pos, 3);
    assert!(matches!(&p.events[0], Event::Start { kind, .. } if *kind == SyntaxKind::Error));
}

#[test]
fn expr_entry_at_end_of_input_records_an_error_only() {
    let mut p = Parser::new(vec![]);
    entry::expr(&mut p);
    assert_eq!(p.pos, 0);
    assert_eq!(p.events.len(), 1);
    assert!(matches!(&p.events[0], Event::Error { .. }));
}

#[test]
fn token_tree_tolerates_a_missing_closer() {
    let mut p = Parser::new(vec![SyntaxKind::LBrack, SyntaxKind::Ident]);
    grammar::token_tree(&mut p);
    assert_eq!(p.pos, 2);
    assert_eq!(error_events(&p), 1);
    assert!(matches!(&p.events[0], Event::Start { kind, .. } if *kind == SyntaxKind::TokenTree));
}

#[test]
fn token_tree_nests_mixed_delimiters() {
    let mut p = Parser::new(vec![
        SyntaxKind::LParen,
        SyntaxKind::LBrack,
        SyntaxKind::Ident,
        SyntaxKind::RBrack,
        SyntaxKind::RParen,
        SyntaxKind::Ident,
    ]);
    grammar::token_tree(&mut p);
    assert_eq!(p.pos, 5);
    assert_eq!(error_events(&p), 0);
    assert_eq!(token_events(&p), 5);
}

#[test]
fn source_file_with_a_directive_only() {
    let mut p = Parser::new(vec![SyntaxKind::Shebang]);
    entry::source_file(&mut p);
    assert_eq!(p.pos, 1);
    assert_eq!(token_events(&p), 1);
}

#[test]
fn macro_stmts_accepts_a_trailing_block_statement() {
    let mut p = Parser::new(vec![
        SyntaxKind::LCurly,
        SyntaxKind::Ident,
        SyntaxKind::RCurly,
        SyntaxKind::Semicolon,
    ]);
    entry::macro_stmts(&mut p);
    assert_eq!(p.pos, 4);
    assert_eq!(token_events(&p), 4);
}
