use parser::event::Event;
use parser::grammar::opt_visibility;
use parser::parser::Parser;
use parser::syntax_kind::SyntaxKind;

fn is_start(e: &Event, kind: SyntaxKind) -> bool {
    matches!(e, Event::Start { kind: k, .. } if *k == kind)
}

#[test]
fn tuple_field_leaves_parenthesized_identifier_for_the_type() {
    // visibility keyword, `(`, bare identifier, `)` — in a tuple field the
    // parenthesized region may be the field's type, so only the keyword is
    // consumed.
    let toks = vec![
        SyntaxKind::PubKw,
        SyntaxKind::LParen,
        SyntaxKind::Ident,
        SyntaxKind::RParen,
        SyntaxKind::Semicolon,
    ];
    let mut p = Parser::new(toks.clone());
    assert!(opt_visibility(&mut p, true));
    assert_eq!(p.pos, 1);
    assert!(is_start(&p.events[0], SyntaxKind::Visibility));

    // outside a tuple field the same shape is a scope qualifier
    let mut p = Parser::new(toks);
    assert!(opt_visibility(&mut p, false));
    assert_eq!(p.pos, 4);
}

#[test]
fn leading_scope_keyword_before_path_separator_is_a_path() {
    let mut p = Parser::new(vec![
        SyntaxKind::CrateKw,
        SyntaxKind::PathSep,
        SyntaxKind::Ident,
        SyntaxKind::LParen,
        SyntaxKind::RParen,
        SyntaxKind::Semicolon,
    ]);
    assert!(!opt_visibility(&mut p, false));
    assert_eq!(p.pos, 0);
    assert!(p.events.is_empty());
}

#[test]
fn bare_scope_keyword_is_a_visibility() {
    let mut p = Parser::new(vec![SyntaxKind::CrateKw, SyntaxKind::Ident]);
    assert!(opt_visibility(&mut p, false));
    assert_eq!(p.pos, 1);
    assert!(is_start(&p.events[0], SyntaxKind::Visibility));
}

#[test]
fn scope_qualifier_in_parentheses_is_consumed() {
    let mut p = Parser::new(vec![
        SyntaxKind::PubKw,
        SyntaxKind::LParen,
        SyntaxKind::CrateKw,
        SyntaxKind::RParen,
        SyntaxKind::Ident,
    ]);
    assert!(opt_visibility(&mut p, false));
    assert_eq!(p.pos, 4);
    assert!(is_start(&p.events[0], SyntaxKind::Visibility));
}

#[test]
fn in_qualifier_takes_a_path() {
    let mut p = Parser::new(vec![
        SyntaxKind::PubKw,
        SyntaxKind::LParen,
        SyntaxKind::InKw,
        SyntaxKind::SuperKw,
        SyntaxKind::PathSep,
        SyntaxKind::Ident,
        SyntaxKind::RParen,
        SyntaxKind::Ident,
    ]);
    assert!(opt_visibility(&mut p, false));
    assert_eq!(p.pos, 7);
}

#[test]
fn scope_keyword_heading_a_type_path_is_not_a_qualifier() {
    // `pub` followed by `( super :: ident )` — the parenthesized region is
    // a type path, so the visibility is the keyword alone.
    let mut p = Parser::new(vec![
        SyntaxKind::PubKw,
        SyntaxKind::LParen,
        SyntaxKind::SuperKw,
        SyntaxKind::PathSep,
        SyntaxKind::Ident,
        SyntaxKind::RParen,
    ]);
    assert!(opt_visibility(&mut p, false));
    assert_eq!(p.pos, 1);
}

#[test]
fn plain_keyword_visibility() {
    let mut p = Parser::new(vec![SyntaxKind::PubKw, SyntaxKind::Ident]);
    assert!(opt_visibility(&mut p, false));
    assert_eq!(p.pos, 1);
    assert!(matches!(&p.events[1], Event::Token { kind } if *kind == SyntaxKind::PubKw));
    assert!(matches!(p.events.last().unwrap(), Event::Finish));
}

#[test]
fn no_visibility_consumes_nothing() {
    let mut p = Parser::new(vec![SyntaxKind::Ident]);
    assert!(!opt_visibility(&mut p, false));
    assert_eq!(p.pos, 0);
    assert!(p.events.is_empty());
}
