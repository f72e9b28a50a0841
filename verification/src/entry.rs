//! The fixed set of parsing entry points, all sharing one cursor and one
//! event log.  Unit entries parse a whole input to its end; fragment
//! entries run exactly one grammar rule and return, assuming the caller
//! has already verified the rule's starting condition.

use vstd::prelude::*;

use crate::event::{consumed_kinds, token_count};
use crate::grammar;
use crate::grammar::{simple_type_end, use_path_end};
use crate::marker::{lemma_marker_live_extend, marker_live};
use crate::parser::{
    lemma_extend_prefix, lemma_prefix_trans, rule_frame, tombstone_start, wraps_node, Parser,
    ParserModel,
};
use crate::syntax_kind::SyntaxKind;

verus! {

/// Fragment entry: an optional visibility modifier.
pub fn vis(p: &mut Parser)
    requires
        old(p)@.wf(),
    ensures
        final(p)@.wf(),
        rule_frame(old(p)@, final(p)@),
        !grammar::vis_would_consume(old(p)@) ==> final(p)@ == old(p)@,
        grammar::vis_would_consume(old(p)@) ==> final(p)@.pos == grammar::vis_end(old(p)@, false)
            && wraps_node(old(p)@.evs, final(p)@.evs, SyntaxKind::Visibility),
{
    let _ = grammar::opt_visibility(p, false);
}

/// Fragment entry: a single block expression.
pub fn block(p: &mut Parser)
    requires
        old(p)@.wf(),
    ensures
        final(p)@.wf(),
        rule_frame(old(p)@, final(p)@),
        old(p)@.cur() == SyntaxKind::LCurly ==> wraps_node(
            old(p)@.evs,
            final(p)@.evs,
            SyntaxKind::BlockExpr,
        ),
        old(p)@.cur() != SyntaxKind::LCurly ==> grammar::err_only_shape(old(p)@, final(p)@),
{
    let _ = grammar::block_expr(p);
}

/// Fragment entry: a single statement, without a required trailing
/// separator.
pub fn stmt(p: &mut Parser)
    requires
        old(p)@.wf(),
    ensures
        final(p)@.wf(),
        rule_frame(old(p)@, final(p)@),
        wraps_node(old(p)@.evs, final(p)@.evs, SyntaxKind::ExprStmt),
{
    grammar::stmt(p, false);
}

/// Fragment entry: a single pattern: exactly one completed pattern
/// region (or one error region) is appended, and trailing tokens are
/// left for the caller.
pub fn pat(p: &mut Parser)
    requires
        old(p)@.wf(),
    ensures
        final(p)@.wf(),
        rule_frame(old(p)@, final(p)@),
        old(p)@.cur() != SyntaxKind::Eof ==> final(p)@.pos > old(p)@.pos,
        old(p)@.cur() == SyntaxKind::Ident ==> final(p)@.evs =~= old(p)@.evs
            + grammar::leaf_node_events(SyntaxKind::IdentPat, SyntaxKind::Ident),
        old(p)@.cur() == SyntaxKind::Underscore ==> final(p)@.evs =~= old(p)@.evs
            + grammar::leaf_node_events(SyntaxKind::WildcardPat, SyntaxKind::Underscore),
        old(p)@.cur() == SyntaxKind::IntNumber || old(p)@.cur() == SyntaxKind::Str
            ==> final(p)@.evs =~= old(p)@.evs + grammar::leaf_node_events(
            SyntaxKind::LiteralPat,
            old(p)@.cur(),
        ),
        old(p)@.cur() == SyntaxKind::LParen ==> wraps_node(
            old(p)@.evs,
            final(p)@.evs,
            SyntaxKind::ParenPat,
        ),
        !grammar::pattern_start(old(p)@.cur()) && old(p)@.cur() != SyntaxKind::Eof
            ==> grammar::err_node_shape(old(p)@, final(p)@),
        old(p)@.cur() == SyntaxKind::Eof ==> wraps_node(
            old(p)@.evs,
            final(p)@.evs,
            SyntaxKind::Error,
        ),
{
    grammar::pattern_single(p);
}

/// Fragment entry: a single type.
pub fn ty(p: &mut Parser)
    requires
        old(p)@.wf(),
    ensures
        final(p)@.wf(),
        rule_frame(old(p)@, final(p)@),
        simple_type_end(old(p)@.toks, old(p)@.pos) matches Some(e) ==> final(p)@.pos == e,
        old(p)@.cur() == SyntaxKind::LParen || old(p)@.cur() == SyntaxKind::LBrack
            ==> final(p)@.pos > old(p)@.pos,
{
    grammar::type_(p);
}

/// Fragment entry: a single expression: exactly one completed region —
/// the expression, or an error node — is appended, and trailing tokens
/// are left for the caller.
pub fn expr(p: &mut Parser)
    requires
        old(p)@.wf(),
    ensures
        final(p)@.wf(),
        rule_frame(old(p)@, final(p)@),
        old(p)@.cur() != SyntaxKind::Eof ==> final(p)@.pos > old(p)@.pos,
        old(p)@.cur() != SyntaxKind::Eof ==> crate::parser::appended_region(old(p)@, final(p)@),
        old(p)@.cur() == SyntaxKind::Eof ==> grammar::err_only_shape(old(p)@, final(p)@),
{
    let _ = grammar::expr(p);
}

/// Fragment entry: a single path.
pub fn path(p: &mut Parser)
    requires
        old(p)@.wf(),
    ensures
        final(p)@.wf(),
        rule_frame(old(p)@, final(p)@),
        final(p)@.pos == use_path_end(old(p)@.toks, old(p)@.pos),
        grammar::is_path_segment_start(old(p)@.cur()) ==> wraps_node(
            old(p)@.evs,
            final(p)@.evs,
            SyntaxKind::Path,
        ),
{
    grammar::type_path(p);
}

/// Fragment entry: a single item, permitting an item-or-macro-call
/// shape: exactly one completed item region is appended — or one error
/// region, when the cursor sits on a stray brace — and trailing tokens
/// are left for the caller.
pub fn item(p: &mut Parser)
    requires
        old(p)@.wf(),
    ensures
        final(p)@.wf(),
        rule_frame(old(p)@, final(p)@),
        old(p)@.cur() != SyntaxKind::Eof ==> final(p)@.pos > old(p)@.pos,
        old(p)@.cur() == SyntaxKind::Eof ==> final(p)@.pos == old(p)@.pos,
        old(p)@.cur() != SyntaxKind::Eof && old(p)@.cur() != SyntaxKind::LCurly && old(p)@.cur()
            != SyntaxKind::RCurly ==> wraps_node(old(p)@.evs, final(p)@.evs, SyntaxKind::Item),
        old(p)@.cur() == SyntaxKind::LCurly || old(p)@.cur() == SyntaxKind::RCurly ==> wraps_node(
            old(p)@.evs,
            final(p)@.evs,
            SyntaxKind::Error,
        ),
{
    grammar::item_or_macro(p);
}

/// Fragment entry: an attribute's interior, without its surrounding
/// bracket tokens.
pub fn meta_item(p: &mut Parser)
    requires
        old(p)@.wf(),
    ensures
        final(p)@.wf(),
        rule_frame(old(p)@, final(p)@),
        wraps_node(old(p)@.evs, final(p)@.evs, SyntaxKind::Meta),
{
    grammar::meta(p);
}

/// Unit entry: a whole source file — an optional leading interpreter
/// directive, then items to the end of the input, wrapped in one root
/// node.  Every token of the input ends up consumed by exactly one
/// consume-token event.
pub fn source_file(p: &mut Parser)
    requires
        old(p)@.wf(),
    ensures
        final(p)@.wf(),
        rule_frame(old(p)@, final(p)@),
        final(p)@.pos == final(p)@.toks.len(),
        token_count(final(p)@.evs) == final(p)@.toks.len(),
        consumed_kinds(final(p)@.evs) == final(p)@.toks,
        wraps_node(old(p)@.evs, final(p)@.evs, SyntaxKind::SourceFile),
{
    let ghost pre = p@;
    let m = p.start();
    let ghost b1 = p@;
    let _ = p.eat(SyntaxKind::Shebang);
    let ghost b2 = p@;
    grammar::mod_contents(p, false);
    proof {
        lemma_extend_prefix(b1.evs, b2.evs);
        lemma_prefix_trans(b1.evs, b2.evs, p@.evs);
        lemma_marker_live_extend(m, b1, p@);
    }
    let ghost mid = p@;
    let _ = m.complete(p, SyntaxKind::SourceFile);
    proof {
        grammar::lemma_node_wrap(pre, mid, p@, m.pos as int, SyntaxKind::SourceFile);
        assert(p@.toks.subrange(0, p@.toks.len() as int) =~= p@.toks);
    }
}

/// A run of consume-token events, one per stray statement separator.
pub open spec fn separator_run(n: int) -> Seq<crate::event::Event> {
    Seq::new(n as nat, |i: int| crate::event::Event::Token { kind: SyntaxKind::Semicolon })
}

/// Unit entry: a bare sequence of statements, tolerating stray statement
/// separators, parsed to the end of the input.  Every token of the input
/// ends up consumed by exactly one consume-token event.  An input of
/// separators alone passes through untouched: each becomes a direct
/// child of the root node, and no error is recorded.
pub fn macro_stmts(p: &mut Parser)
    requires
        old(p)@.wf(),
    ensures
        final(p)@.wf(),
        rule_frame(old(p)@, final(p)@),
        final(p)@.pos == final(p)@.toks.len(),
        token_count(final(p)@.evs) == final(p)@.toks.len(),
        consumed_kinds(final(p)@.evs) == final(p)@.toks,
        wraps_node(old(p)@.evs, final(p)@.evs, SyntaxKind::MacroStmts),
        (forall|i: int|
            old(p)@.pos <= i < old(p)@.toks.len() ==> old(p)@.toks[i] == SyntaxKind::Semicolon)
            ==> final(p)@.evs =~= old(p)@.evs + seq![
            crate::event::Event::Start { kind: SyntaxKind::MacroStmts, forward_parent: None },
        ] + separator_run(old(p)@.remaining()) + seq![crate::event::Event::Finish],
{
    let ghost pre = p@;
    let m = p.start();
    while !p.at(SyntaxKind::Eof)
        invariant
            pre == old(p)@,
            p@.wf(),
            p@.toks == pre.toks,
            pre.pos <= p@.pos <= p@.toks.len(),
            m.pos == pre.evs.len(),
            m.preceded@ is None,
            marker_live(m, p@),
            pre.evs.push(tombstone_start()).is_prefix_of(p@.evs),
            (forall|i: int| pre.pos <= i < pre.toks.len() ==> pre.toks[i] == SyntaxKind::Semicolon)
                ==> p@.evs =~= pre.evs.push(tombstone_start()) + separator_run(p@.pos - pre.pos),
        decreases p@.remaining(),
    {
        let ghost before = p@;
        if p.at(SyntaxKind::Semicolon) {
            p.bump(SyntaxKind::Semicolon);
            proof {
                if forall|i: int|
                    pre.pos <= i < pre.toks.len() ==> pre.toks[i] == SyntaxKind::Semicolon {
                    assert(separator_run(before.pos - pre.pos).push(
                        crate::event::Event::Token { kind: SyntaxKind::Semicolon },
                    ) =~= separator_run(p@.pos - pre.pos));
                    assert(p@.evs =~= pre.evs.push(tombstone_start()) + separator_run(
                        p@.pos - pre.pos,
                    ));
                }
            }
        } else {
            grammar::stmt(p, true);
        }
        proof {
            lemma_extend_prefix(before.evs, p@.evs);
            lemma_marker_live_extend(m, before, p@);
            lemma_prefix_trans(pre.evs.push(tombstone_start()), before.evs, p@.evs);
        }
    }
    let ghost mid = p@;
    let _ = m.complete(p, SyntaxKind::MacroStmts);
    proof {
        grammar::lemma_node_wrap(pre, mid, p@, m.pos as int, SyntaxKind::MacroStmts);
        assert(p@.toks.subrange(0, p@.toks.len() as int) =~= p@.toks);
        if forall|i: int| pre.pos <= i < pre.toks.len() ==> pre.toks[i] == SyntaxKind::Semicolon {
            assert(p@.evs =~= pre.evs + seq![
                crate::event::Event::Start { kind: SyntaxKind::MacroStmts, forward_parent: None },
            ] + separator_run(pre.remaining()) + seq![crate::event::Event::Finish]);
        }
    }
}

/// Unit entry: a bare sequence of items, parsed to the end of the input.
/// Every token of the input ends up consumed by exactly one
/// consume-token event.
pub fn macro_items(p: &mut Parser)
    requires
        old(p)@.wf(),
    ensures
        final(p)@.wf(),
        rule_frame(old(p)@, final(p)@),
        final(p)@.pos == final(p)@.toks.len(),
        token_count(final(p)@.evs) == final(p)@.toks.len(),
        consumed_kinds(final(p)@.evs) == final(p)@.toks,
        wraps_node(old(p)@.evs, final(p)@.evs, SyntaxKind::MacroItems),
{
    let ghost pre = p@;
    let m = p.start();
    let ghost b1 = p@;
    grammar::mod_contents(p, false);
    proof {
        lemma_marker_live_extend(m, b1, p@);
    }
    let ghost mid = p@;
    let _ = m.complete(p, SyntaxKind::MacroItems);
    proof {
        grammar::lemma_node_wrap(pre, mid, p@, m.pos as int, SyntaxKind::MacroItems);
        assert(p@.toks.subrange(0, p@.toks.len() as int) =~= p@.toks);
    }
}

} // verus!
