//! The incremental-reparse dispatch: a pure lookup from a tree node's
//! kind (plus limited context) to the single grammar rule able to
//! regenerate that node in isolation.

use vstd::prelude::*;

use crate::grammar;
use crate::parser::{rule_frame, Parser};
use crate::syntax_kind::SyntaxKind;

verus! {

/// The grammar rules an edited node can be regenerated by in isolation.
#[derive(Clone, Copy, Debug, PartialEq, Eq, Structural)]
pub enum ReparseRule {
    BlockExpr,
    RecordFieldList,
    RecordExprFieldList,
    VariantList,
    MatchArmList,
    UseTreeList,
    ForeignItemList,
    TokenTree,
    AssocItemList,
    ItemList,
}

/// The dispatch table.  Context-free list kinds map unconditionally; a
/// token tree is reparsable only when it is brace-delimited (its first
/// structural child is a brace opener); an associated-item list only
/// under a trait definition or an implementation, since the same shape
/// parses differently under any other parent; every other kind forces a
/// full reparse.
pub open spec fn spec_reparser(
    node: SyntaxKind,
    first_child: Option<SyntaxKind>,
    parent: Option<SyntaxKind>,
) -> Option<ReparseRule> {
    match node {
        SyntaxKind::BlockExpr => Some(ReparseRule::BlockExpr),
        SyntaxKind::RecordFieldList => Some(ReparseRule::RecordFieldList),
        SyntaxKind::RecordExprFieldList => Some(ReparseRule::RecordExprFieldList),
        SyntaxKind::VariantList => Some(ReparseRule::VariantList),
        SyntaxKind::MatchArmList => Some(ReparseRule::MatchArmList),
        SyntaxKind::UseTreeList => Some(ReparseRule::UseTreeList),
        SyntaxKind::ForeignItemList => Some(ReparseRule::ForeignItemList),
        SyntaxKind::TokenTree => if first_child == Some(SyntaxKind::LCurly) {
            Some(ReparseRule::TokenTree)
        } else {
            None
        },
        SyntaxKind::AssocItemList => if parent == Some(SyntaxKind::Impl) || parent == Some(
            SyntaxKind::Trait,
        ) {
            Some(ReparseRule::AssocItemList)
        } else {
            None
        },
        SyntaxKind::ItemList => Some(ReparseRule::ItemList),
        _ => None,
    }
}

/// Pure lookup, no side effects: which grammar rule, if any, can
/// regenerate a node of kind `node` in isolation, given its first
/// structural child's kind and its parent's kind when those matter.
pub fn reparser(
    node: SyntaxKind,
    first_child: Option<SyntaxKind>,
    parent: Option<SyntaxKind>,
) -> (r: Option<ReparseRule>)
    ensures
        r == spec_reparser(node, first_child, parent),
{
    match node {
        SyntaxKind::BlockExpr => Some(ReparseRule::BlockExpr),
        SyntaxKind::RecordFieldList => Some(ReparseRule::RecordFieldList),
        SyntaxKind::RecordExprFieldList => Some(ReparseRule::RecordExprFieldList),
        SyntaxKind::VariantList => Some(ReparseRule::VariantList),
        SyntaxKind::MatchArmList => Some(ReparseRule::MatchArmList),
        SyntaxKind::UseTreeList => Some(ReparseRule::UseTreeList),
        SyntaxKind::ForeignItemList => Some(ReparseRule::ForeignItemList),
        SyntaxKind::TokenTree => {
            if first_child == Some(SyntaxKind::LCurly) {
                Some(ReparseRule::TokenTree)
            } else {
                None
            }
        },
        SyntaxKind::AssocItemList => {
            if parent == Some(SyntaxKind::Impl) || parent == Some(SyntaxKind::Trait) {
                Some(ReparseRule::AssocItemList)
            } else {
                None
            }
        },
        SyntaxKind::ItemList => Some(ReparseRule::ItemList),
        _ => None,
    }
}

impl ReparseRule {
    /// Run the selected rule against a cursor positioned at the edited
    /// node's first token.  Every rule in the table starts at an opening
    /// brace.
    pub fn run(self, p: &mut Parser)
        requires
            old(p)@.wf(),
            old(p)@.cur() == SyntaxKind::LCurly,
        ensures
            final(p)@.wf(),
            rule_frame(old(p)@, final(p)@),
            final(p)@.pos > old(p)@.pos,
    {
        match self {
            ReparseRule::BlockExpr => {
                let _ = grammar::block_expr(p);
            },
            ReparseRule::RecordFieldList => grammar::record_field_list(p),
            ReparseRule::RecordExprFieldList => grammar::record_expr_field_list(p),
            ReparseRule::VariantList => grammar::variant_list(p),
            ReparseRule::MatchArmList => grammar::match_arm_list(p),
            ReparseRule::UseTreeList => grammar::use_tree_list(p),
            ReparseRule::ForeignItemList => grammar::foreign_item_list(p),
            ReparseRule::TokenTree => grammar::token_tree(p),
            ReparseRule::AssocItemList => grammar::assoc_item_list(p),
            ReparseRule::ItemList => grammar::item_list(p),
        }
    }
}

} // verus!
