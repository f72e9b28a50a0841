use parser::event::Event;
use parser::parser::Parser;
use parser::reparse::{reparser, ReparseRule};
use parser::syntax_kind::SyntaxKind;

#[test]
fn context_free_kinds_map_unconditionally() {
    let cases = [
        (SyntaxKind::BlockExpr, ReparseRule::BlockExpr),
        (SyntaxKind::RecordFieldList, ReparseRule::RecordFieldList),
        (SyntaxKind::RecordExprFieldList, ReparseRule::RecordExprFieldList),
        (SyntaxKind::VariantList, ReparseRule::VariantList),
        (SyntaxKind::MatchArmList, ReparseRule::MatchArmList),
        (SyntaxKind::UseTreeList, ReparseRule::UseTreeList),
        (SyntaxKind::ForeignItemList, ReparseRule::ForeignItemList),
        (SyntaxKind::ItemList, ReparseRule::ItemList),
    ];
    for (node, rule) in cases {
        assert_eq!(reparser(node, None, None), Some(rule));
        assert_eq!(reparser(node, Some(SyntaxKind::Ident), Some(SyntaxKind::Item)), Some(rule));
    }
}

#[test]
fn token_tree_requires_a_brace_delimited_first_child() {
    assert_eq!(
        reparser(SyntaxKind::TokenTree, Some(SyntaxKind::LCurly), None),
        Some(ReparseRule::TokenTree)
    );
    assert_eq!(reparser(SyntaxKind::TokenTree, Some(SyntaxKind::LParen), None), None);
    assert_eq!(reparser(SyntaxKind::TokenTree, Some(SyntaxKind::LBrack), None), None);
    assert_eq!(reparser(SyntaxKind::TokenTree, None, None), None);
}

#[test]
fn assoc_item_list_depends_on_the_parent_kind() {
    assert_eq!(
        reparser(SyntaxKind::AssocItemList, None, Some(SyntaxKind::Impl)),
        Some(ReparseRule::AssocItemList)
    );
    assert_eq!(
        reparser(SyntaxKind::AssocItemList, None, Some(SyntaxKind::Trait)),
        Some(ReparseRule::AssocItemList)
    );
    assert_eq!(reparser(SyntaxKind::AssocItemList, None, Some(SyntaxKind::Item)), None);
    assert_eq!(reparser(SyntaxKind::AssocItemList, None, None), None);
}

#[test]
fn unlisted_kinds_force_a_full_reparse() {
    for node in [
        SyntaxKind::SourceFile,
        SyntaxKind::Visibility,
        SyntaxKind::BinExpr,
        SyntaxKind::Item,
        SyntaxKind::Path,
        SyntaxKind::Error,
        SyntaxKind::Ident,
    ] {
        assert_eq!(reparser(node, Some(SyntaxKind::LCurly), Some(SyntaxKind::Impl)), None);
    }
}

#[test]
fn selected_rules_regenerate_a_braced_region() {
    for rule in [
        ReparseRule::BlockExpr,
        ReparseRule::RecordFieldList,
        ReparseRule::MatchArmList,
        ReparseRule::TokenTree,
        ReparseRule::AssocItemList,
        ReparseRule::ItemList,
    ] {
        let mut p = Parser::new(vec![
            SyntaxKind::LCurly,
            SyntaxKind::Ident,
            SyntaxKind::Semicolon,
            SyntaxKind::RCurly,
            SyntaxKind::Ident,
        ]);
        rule.run(&mut p);
        assert_eq!(p.pos, 4, "rule {:?} must stop right after the closing brace", rule);
        assert!(matches!(&p.events[0], Event::Start { .. }));
        assert!(matches!(p.events.last().unwrap(), Event::Finish));
    }
}
