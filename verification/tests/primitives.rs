use parser::event::Event;
use parser::grammar;
use parser::parser::Parser;
use parser::syntax_kind::SyntaxKind;
use parser::token_set::TokenSet;

fn new_parser(toks: Vec<SyntaxKind>) -> Parser {
    Parser::new(toks)
}

fn is_start(e: &Event, kind: SyntaxKind) -> bool {
    matches!(e, Event::Start { kind: k, .. } if *k == kind)
}

#[test]
fn err_and_bump_advances_exactly_one_token() {
    let mut p = new_parser(vec![SyntaxKind::Ident, SyntaxKind::Semicolon]);
    p.err_and_bump("unexpected token");
    assert_eq!(p.pos, 1);
    assert_eq!(p.events.len(), 4);
    assert!(is_start(&p.events[0], SyntaxKind::Error));
    assert!(matches!(&p.events[1], Event::Error { msg } if *msg == "unexpected token"));
    assert!(matches!(&p.events[2], Event::Token { kind } if *kind == SyntaxKind::Ident));
    assert!(matches!(&p.events[3], Event::Finish));
    // exactly one error event and one consume-token event were appended
    let errors = p.events.iter().filter(|e| matches!(e, Event::Error { .. })).count();
    let tokens = p.events.iter().filter(|e| matches!(e, Event::Token { .. })).count();
    assert_eq!(errors, 1);
    assert_eq!(tokens, 1);
}

#[test]
fn err_and_bump_at_end_of_input_only_records_the_error() {
    let mut p = new_parser(vec![]);
    p.err_and_bump("nothing here");
    assert_eq!(p.pos, 0);
    assert_eq!(p.events.len(), 3);
    assert!(matches!(&p.events[1], Event::Error { .. }));
    assert!(!p.events.iter().any(|e| matches!(e, Event::Token { .. })));
}

#[test]
fn err_recover_stops_at_braces_and_at_the_recovery_set() {
    let mut p = new_parser(vec![SyntaxKind::LCurly]);
    p.err_recover("oops", TokenSet::empty());
    assert_eq!(p.pos, 0);
    assert_eq!(p.events.len(), 1);
    assert!(matches!(&p.events[0], Event::Error { .. }));

    let mut p = new_parser(vec![SyntaxKind::Semicolon]);
    p.err_recover("oops", TokenSet::empty().with(SyntaxKind::Semicolon));
    assert_eq!(p.pos, 0);
    assert_eq!(p.events.len(), 1);

    let mut p = new_parser(vec![SyntaxKind::Semicolon]);
    p.err_recover("oops", TokenSet::empty());
    assert_eq!(p.pos, 1);
    assert_eq!(p.events.len(), 4);
}

#[test]
fn cursor_primitives_behave() {
    let mut p = new_parser(vec![SyntaxKind::Ident, SyntaxKind::Semicolon]);
    assert!(p.at(SyntaxKind::Ident));
    assert!(p.nth_at(1, SyntaxKind::Semicolon));
    assert_eq!(p.nth(2), SyntaxKind::Eof);
    assert!(!p.eat(SyntaxKind::Semicolon));
    assert!(p.eat(SyntaxKind::Ident));
    assert!(p.expect(SyntaxKind::Semicolon));
    assert!(!p.expect(SyntaxKind::Semicolon));
    assert!(matches!(p.events.last().unwrap(), Event::Error { .. }));
    p.bump_any();
    assert_eq!(p.pos, 2);
}

#[test]
fn name_wraps_an_identifier() {
    let mut p = new_parser(vec![SyntaxKind::Ident]);
    grammar::name(&mut p);
    assert_eq!(p.pos, 1);
    assert!(is_start(&p.events[0], SyntaxKind::Name));
    assert!(matches!(&p.events[2], Event::Finish));
}

#[test]
fn name_r_recovers_without_consuming_at_a_stop_kind() {
    let mut p = new_parser(vec![SyntaxKind::Semicolon, SyntaxKind::Ident]);
    grammar::name_r(&mut p, TokenSet::empty().with(SyntaxKind::Semicolon));
    assert_eq!(p.pos, 0);
    assert_eq!(p.events.len(), 1);
    assert!(matches!(&p.events[0], Event::Error { .. }));
}

#[test]
fn name_ref_forces_progress_on_mismatch() {
    let mut p = new_parser(vec![SyntaxKind::Semicolon]);
    grammar::name_ref(&mut p);
    assert_eq!(p.pos, 1);
    assert!(is_start(&p.events[0], SyntaxKind::Error));
}

#[test]
fn name_ref_or_index_accepts_both_token_classes() {
    let mut p = new_parser(vec![SyntaxKind::IntNumber]);
    grammar::name_ref_or_index(&mut p);
    assert_eq!(p.pos, 1);
    assert!(is_start(&p.events[0], SyntaxKind::NameRef));

    let mut p = new_parser(vec![SyntaxKind::Ident]);
    grammar::name_ref_or_index(&mut p);
    assert!(is_start(&p.events[0], SyntaxKind::NameRef));
}

#[test]
fn lifetime_wraps_the_token() {
    let mut p = new_parser(vec![SyntaxKind::LifetimeIdent]);
    grammar::lifetime(&mut p);
    assert_eq!(p.pos, 1);
    assert!(is_start(&p.events[0], SyntaxKind::Lifetime));
}

#[test]
fn abi_takes_an_optional_string() {
    let mut p = new_parser(vec![SyntaxKind::AbiKw, SyntaxKind::Str, SyntaxKind::Ident]);
    grammar::abi(&mut p);
    assert_eq!(p.pos, 2);
    assert!(is_start(&p.events[0], SyntaxKind::Abi));

    let mut p = new_parser(vec![SyntaxKind::AbiKw, SyntaxKind::Ident]);
    grammar::abi(&mut p);
    assert_eq!(p.pos, 1);
}

#[test]
fn opt_rename_consumes_as_clauses_only() {
    let mut p = new_parser(vec![SyntaxKind::AsKw, SyntaxKind::Ident, SyntaxKind::Semicolon]);
    grammar::opt_rename(&mut p);
    assert_eq!(p.pos, 2);
    assert!(is_start(&p.events[0], SyntaxKind::Rename));

    let mut p = new_parser(vec![SyntaxKind::AsKw, SyntaxKind::Underscore]);
    grammar::opt_rename(&mut p);
    assert_eq!(p.pos, 2);

    let mut p = new_parser(vec![SyntaxKind::Ident]);
    grammar::opt_rename(&mut p);
    assert_eq!(p.pos, 0);
    assert!(p.events.is_empty());
}

#[test]
fn opt_ret_type_reports_presence() {
    let mut p = new_parser(vec![SyntaxKind::ThinArrow, SyntaxKind::Ident, SyntaxKind::LCurly]);
    assert!(grammar::opt_ret_type(&mut p));
    assert_eq!(p.pos, 2);
    assert!(is_start(&p.events[0], SyntaxKind::RetType));

    let mut p = new_parser(vec![SyntaxKind::Ident]);
    assert!(!grammar::opt_ret_type(&mut p));
    assert_eq!(p.pos, 0);
    assert!(p.events.is_empty());
}

#[test]
fn block_like_distinguishes_blocks() {
    assert!(grammar::BlockLike::Block.is_block());
    assert!(!grammar::BlockLike::NotBlock.is_block());
}
