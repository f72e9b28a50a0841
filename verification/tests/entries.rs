use parser::entry;
use parser::event::Event;
use parser::parser::Parser;
use parser::syntax_kind::SyntaxKind;

fn starts(p: &Parser, kind: SyntaxKind) -> usize {
    p.events
        .iter()
        .filter(|e| matches!(e, Event::Start { kind: k, .. } if *k == kind))
        .count()
}

#[test]
fn vis_entry_runs_the_visibility_rule() {
    let mut p = Parser::new(vec![SyntaxKind::PubKw, SyntaxKind::Ident]);
    entry::vis(&mut p);
    assert_eq!(p.pos, 1);
    assert_eq!(starts(&p, SyntaxKind::Visibility), 1);
}

#[test]
fn stmt_entry_parses_one_statement_without_requiring_a_separator() {
    let mut p = Parser::new(vec![SyntaxKind::Ident, SyntaxKind::Semicolon, SyntaxKind::Ident]);
    entry::stmt(&mut p);
    // entry statements take no trailing separator
    assert_eq!(p.pos, 1);
    assert_eq!(starts(&p, SyntaxKind::ExprStmt), 1);
}

#[test]
fn pat_entry_parses_single_patterns() {
    let mut p = Parser::new(vec![SyntaxKind::Underscore, SyntaxKind::Ident]);
    entry::pat(&mut p);
    assert_eq!(p.pos, 1);
    assert_eq!(starts(&p, SyntaxKind::WildcardPat), 1);

    let mut p = Parser::new(vec![
        SyntaxKind::LParen,
        SyntaxKind::IntNumber,
        SyntaxKind::RParen,
    ]);
    entry::pat(&mut p);
    assert_eq!(p.pos, 3);
    assert_eq!(starts(&p, SyntaxKind::ParenPat), 1);
    assert_eq!(starts(&p, SyntaxKind::LiteralPat), 1);
}

#[test]
fn ty_entry_parses_a_path_type() {
    let mut p = Parser::new(vec![
        SyntaxKind::SuperKw,
        SyntaxKind::PathSep,
        SyntaxKind::Ident,
        SyntaxKind::Semicolon,
    ]);
    entry::ty(&mut p);
    assert_eq!(p.pos, 3);
    assert_eq!(starts(&p, SyntaxKind::Path), 1);
}

#[test]
fn ty_entry_parses_a_lifetime() {
    let mut p = Parser::new(vec![SyntaxKind::LifetimeIdent, SyntaxKind::Ident]);
    entry::ty(&mut p);
    assert_eq!(p.pos, 1);
    assert_eq!(starts(&p, SyntaxKind::Lifetime), 1);
}

#[test]
fn expr_entry_builds_binary_expressions() {
    let mut p = Parser::new(vec![
        SyntaxKind::Ident,
        SyntaxKind::Plus,
        SyntaxKind::IntNumber,
        SyntaxKind::Semicolon,
    ]);
    entry::expr(&mut p);
    assert_eq!(p.pos, 3);
    assert_eq!(starts(&p, SyntaxKind::BinExpr), 1);
}

#[test]
fn expr_entry_parses_delimited_groups() {
    let mut p = Parser::new(vec![
        SyntaxKind::LParen,
        SyntaxKind::Ident,
        SyntaxKind::Plus,
        SyntaxKind::Ident,
        SyntaxKind::RParen,
    ]);
    entry::expr(&mut p);
    assert_eq!(p.pos, 5);
    assert_eq!(starts(&p, SyntaxKind::ParenExpr), 1);
}

#[test]
fn path_entry_consumes_exactly_the_path() {
    let mut p = Parser::new(vec![
        SyntaxKind::CrateKw,
        SyntaxKind::PathSep,
        SyntaxKind::Ident,
        SyntaxKind::PathSep,
        SyntaxKind::Ident,
        SyntaxKind::LParen,
    ]);
    entry::path(&mut p);
    assert_eq!(p.pos, 5);
    assert_eq!(starts(&p, SyntaxKind::Path), 1);
    assert_eq!(starts(&p, SyntaxKind::NameRef), 3);
}

#[test]
fn path_entry_stops_at_a_trailing_separator_without_a_segment() {
    let mut p = Parser::new(vec![SyntaxKind::Ident, SyntaxKind::PathSep, SyntaxKind::Semicolon]);
    entry::path(&mut p);
    assert_eq!(p.pos, 1);
}

#[test]
fn item_entry_parses_an_item_up_to_its_terminator() {
    let mut p = Parser::new(vec![
        SyntaxKind::PubKw,
        SyntaxKind::Ident,
        SyntaxKind::Ident,
        SyntaxKind::Semicolon,
        SyntaxKind::Ident,
    ]);
    entry::item(&mut p);
    assert_eq!(p.pos, 4);
    assert_eq!(starts(&p, SyntaxKind::Item), 1);
    assert_eq!(starts(&p, SyntaxKind::Visibility), 1);
}

#[test]
fn item_entry_takes_a_braced_body_as_one_region() {
    let mut p = Parser::new(vec![
        SyntaxKind::Ident,
        SyntaxKind::LCurly,
        SyntaxKind::Ident,
        SyntaxKind::RCurly,
        SyntaxKind::Ident,
    ]);
    entry::item(&mut p);
    assert_eq!(p.pos, 4);
    assert_eq!(starts(&p, SyntaxKind::TokenTree), 1);
}

#[test]
fn meta_item_entry_parses_attribute_interiors() {
    let mut p = Parser::new(vec![
        SyntaxKind::Ident,
        SyntaxKind::LParen,
        SyntaxKind::Ident,
        SyntaxKind::RParen,
        SyntaxKind::RBrack,
    ]);
    entry::meta_item(&mut p);
    assert_eq!(p.pos, 4);
    assert_eq!(starts(&p, SyntaxKind::Meta), 1);

    let mut p = Parser::new(vec![SyntaxKind::Ident, SyntaxKind::EqSign, SyntaxKind::Str]);
    entry::meta_item(&mut p);
    assert_eq!(p.pos, 3);
    assert_eq!(starts(&p, SyntaxKind::Meta), 1);
    assert_eq!(starts(&p, SyntaxKind::Literal), 1);
}
