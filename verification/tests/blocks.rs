use parser::entry;
use parser::event::Event;
use parser::grammar;
use parser::parser::Parser;
use parser::syntax_kind::SyntaxKind;

fn token_events(p: &Parser) -> usize {
    p.events.iter().filter(|e| matches!(e, Event::Token { .. })).count()
}

/// The standard bracket-matching check over a log, tombstones excised.
fn well_nested(events: &[Event]) -> bool {
    let mut depth: i64 = 0;
    for e in events {
        match e {
            Event::Start { kind, .. } if *kind != SyntaxKind::Tombstone => depth += 1,
            Event::Finish => {
                depth -= 1;
                if depth < 0 {
                    return false;
                }
            }
            _ => {}
        }
    }
    depth == 0
}

#[test]
fn error_block_wraps_the_whole_region_in_one_error_node() {
    // an opening brace, one clearly invalid token, a closing brace
    let mut p = Parser::new(vec![
        SyntaxKind::LCurly,
        SyntaxKind::PathSep,
        SyntaxKind::RCurly,
        SyntaxKind::Ident,
    ]);
    grammar::error_block(&mut p, "no construct fits here");
    // parsing resumes immediately after the closing brace
    assert_eq!(p.pos, 3);
    assert!(p.at(SyntaxKind::Ident));
    // the whole region is one error-kind node: the first event opens it
    // and the last closes it
    assert!(matches!(&p.events[0], Event::Start { kind, .. } if *kind == SyntaxKind::Error));
    assert!(matches!(&p.events[1], Event::Error { msg } if *msg == "no construct fits here"));
    assert!(matches!(&p.events[2], Event::Token { kind } if *kind == SyntaxKind::LCurly));
    assert!(matches!(p.events.last().unwrap(), Event::Finish));
    assert_eq!(token_events(&p), 3);
    assert!(well_nested(&p.events));
}

#[test]
fn error_block_tolerates_a_missing_closing_brace() {
    let mut p = Parser::new(vec![SyntaxKind::LCurly, SyntaxKind::PathSep]);
    grammar::error_block(&mut p, "broken");
    assert_eq!(p.pos, 2);
    assert_eq!(token_events(&p), 2);
    assert!(well_nested(&p.events));
}

#[test]
fn source_file_consumes_every_token_exactly_once() {
    let toks = vec![
        SyntaxKind::Shebang,
        SyntaxKind::PubKw,
        SyntaxKind::Ident,
        SyntaxKind::Semicolon,
        SyntaxKind::RCurly,
        SyntaxKind::LCurly,
        SyntaxKind::Ident,
        SyntaxKind::RCurly,
        SyntaxKind::PathSep,
    ];
    let n = toks.len();
    let mut p = Parser::new(toks);
    entry::source_file(&mut p);
    assert_eq!(p.pos, n);
    assert_eq!(token_events(&p), n);
    assert!(well_nested(&p.events));
    assert!(matches!(&p.events[0], Event::Start { kind, .. } if *kind == SyntaxKind::SourceFile));
}

#[test]
fn macro_stmts_consumes_every_token_exactly_once() {
    let toks = vec![
        SyntaxKind::Semicolon,
        SyntaxKind::Ident,
        SyntaxKind::Plus,
        SyntaxKind::IntNumber,
        SyntaxKind::Semicolon,
        SyntaxKind::RParen,
        SyntaxKind::LCurly,
        SyntaxKind::Ident,
        SyntaxKind::RCurly,
    ];
    let n = toks.len();
    let mut p = Parser::new(toks);
    entry::macro_stmts(&mut p);
    assert_eq!(p.pos, n);
    assert_eq!(token_events(&p), n);
    assert!(well_nested(&p.events));
    assert!(matches!(&p.events[0], Event::Start { kind, .. } if *kind == SyntaxKind::MacroStmts));
}

#[test]
fn macro_items_consumes_every_token_exactly_once() {
    let toks = vec![
        SyntaxKind::PubKw,
        SyntaxKind::Ident,
        SyntaxKind::LCurly,
        SyntaxKind::Ident,
        SyntaxKind::RCurly,
        SyntaxKind::Semicolon,
    ];
    let n = toks.len();
    let mut p = Parser::new(toks);
    entry::macro_items(&mut p);
    assert_eq!(p.pos, n);
    assert_eq!(token_events(&p), n);
    assert!(well_nested(&p.events));
}

#[test]
fn macro_stmts_tolerates_stray_separators_without_errors() {
    let mut p = Parser::new(vec![SyntaxKind::Semicolon, SyntaxKind::Semicolon]);
    entry::macro_stmts(&mut p);
    // both separators are direct children of the single root node, and
    // no error event is appended
    assert_eq!(p.pos, 2);
    assert_eq!(p.events.len(), 4);
    assert!(matches!(
        &p.events[0],
        Event::Start { kind: SyntaxKind::MacroStmts, forward_parent: None }
    ));
    assert!(matches!(&p.events[1], Event::Token { kind: SyntaxKind::Semicolon }));
    assert!(matches!(&p.events[2], Event::Token { kind: SyntaxKind::Semicolon }));
    assert!(matches!(&p.events[3], Event::Finish));
}

#[test]
fn consume_events_replay_the_input_in_order() {
    let toks = vec![
        SyntaxKind::Ident,
        SyntaxKind::LCurly,
        SyntaxKind::PathSep,
        SyntaxKind::RCurly,
        SyntaxKind::Semicolon,
    ];
    let mut p = Parser::new(toks.clone());
    entry::source_file(&mut p);
    let replayed: Vec<SyntaxKind> = p
        .events
        .iter()
        .filter_map(|e| match e {
            Event::Token { kind } => Some(*kind),
            _ => None,
        })
        .collect();
    assert_eq!(replayed, toks);
}

#[test]
fn unit_entries_accept_empty_input() {
    let mut p = Parser::new(vec![]);
    entry::source_file(&mut p);
    assert_eq!(p.pos, 0);
    assert_eq!(token_events(&p), 0);
    assert!(well_nested(&p.events));

    let mut p = Parser::new(vec![]);
    entry::macro_stmts(&mut p);
    assert!(well_nested(&p.events));
}

#[test]
fn precede_links_the_old_region_under_the_new_parent() {
    // ident + number + ident: each extension re-parents the left-hand side
    let mut p = Parser::new(vec![
        SyntaxKind::Ident,
        SyntaxKind::Plus,
        SyntaxKind::IntNumber,
        SyntaxKind::Plus,
        SyntaxKind::Ident,
    ]);
    entry::expr(&mut p);
    assert_eq!(p.pos, 5);
    assert_eq!(token_events(&p), 5);
    assert!(well_nested(&p.events));
    // the first atom's open event points forward at the first parent
    assert!(matches!(
        &p.events[0],
        Event::Start { kind: SyntaxKind::NameRef, forward_parent: Some(3) }
    ));
    // the first binary node, opened at index 3, points at the second
    assert!(matches!(
        &p.events[3],
        Event::Start { kind: SyntaxKind::BinExpr, forward_parent: Some(6) }
    ));
    // the outermost parent has no forward parent
    assert!(matches!(
        &p.events[9],
        Event::Start { kind: SyntaxKind::BinExpr, forward_parent: None }
    ));
}

#[test]
fn precede_spans_contain_the_preceded_region() {
    let mut p = Parser::new(vec![SyntaxKind::Ident]);
    let m = p.start();
    p.bump(SyntaxKind::Ident);
    let inner = m.complete(&mut p, SyntaxKind::NameRef);
    let (inner_start, inner_finish) = (inner.start_pos, inner.finish_pos);
    let parent_marker = inner.precede(&mut p);
    let parent = parent_marker.complete(&mut p, SyntaxKind::BinExpr);
    assert_eq!(inner_start, 0);
    assert_eq!(inner_finish, 2);
    assert!(parent.finish_pos > inner_finish);
    assert!(matches!(
        &p.events[0],
        Event::Start { kind: SyntaxKind::NameRef, forward_parent: Some(3) }
    ));
    assert!(well_nested(&p.events));
}

#[test]
fn abandon_removes_a_fresh_placeholder_and_tombstones_an_old_one() {
    let mut p = Parser::new(vec![SyntaxKind::Ident]);
    let m = p.start();
    m.abandon(&mut p);
    assert!(p.events.is_empty());

    let mut p = Parser::new(vec![SyntaxKind::Ident]);
    let m = p.start();
    p.bump(SyntaxKind::Ident);
    m.abandon(&mut p);
    assert_eq!(p.events.len(), 2);
    assert!(matches!(
        &p.events[0],
        Event::Start { kind: SyntaxKind::Tombstone, forward_parent: None }
    ));
    assert!(well_nested(&p.events));
}

#[test]
fn block_entry_parses_a_block_and_resumes_after_it() {
    let mut p = Parser::new(vec![
        SyntaxKind::LCurly,
        SyntaxKind::Ident,
        SyntaxKind::Semicolon,
        SyntaxKind::RCurly,
        SyntaxKind::Ident,
    ]);
    entry::block(&mut p);
    assert_eq!(p.pos, 4);
    assert!(matches!(&p.events[0], Event::Start { kind, .. } if *kind == SyntaxKind::BlockExpr));
    assert!(well_nested(&p.events));
}

#[test]
fn block_entry_without_a_brace_only_records_an_error() {
    let mut p = Parser::new(vec![SyntaxKind::Ident]);
    entry::block(&mut p);
    assert_eq!(p.pos, 0);
    assert_eq!(p.events.len(), 1);
    assert!(matches!(&p.events[0], Event::Error { .. }));
}

#[test]
fn nested_braces_stay_matched_inside_an_error_block() {
    let mut p = Parser::new(vec![
        SyntaxKind::LCurly,
        SyntaxKind::LCurly,
        SyntaxKind::PathSep,
        SyntaxKind::RCurly,
        SyntaxKind::RCurly,
        SyntaxKind::Ident,
    ]);
    grammar::error_block(&mut p, "bad region");
    assert_eq!(p.pos, 5);
    assert!(p.at(SyntaxKind::Ident));
    assert!(well_nested(&p.events));
}
