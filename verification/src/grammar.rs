//! The grammar rules: small, composable productions over the shared
//! cursor and event log, written in the discipline every rule follows —
//! consume tokens strictly left to right, always terminate, always leave
//! the log one completed region richer (or record an error), and never
//! desynchronize the caller.

use vstd::prelude::*;

use crate::event::{close_count, open_count, Event};
use crate::marker::{
    completed_fresh, lemma_marker_live_extend, marker_live, CompletedMarker,
};
use crate::parser::{
    appended_region, lemma_extend_prefix, lemma_prefix_keeps, lemma_prefix_trans, rule_frame,
    tombstone_start, wraps_node, Parser, ParserModel,
};
use crate::syntax_kind::SyntaxKind;
use crate::token_set::TokenSet;

verus! {

/// Whether an expression form ends in a brace-delimited block, in which
/// case a trailing statement separator is optional.
#[derive(Clone, Copy, Debug, PartialEq, Eq, Structural)]
pub enum BlockLike {
    Block,
    NotBlock,
}

impl BlockLike {
    pub fn is_block(self) -> (r: bool)
        ensures
            r == (self == BlockLike::Block),
    {
        self == BlockLike::Block
    }
}

/// The kinds that may begin a path segment.
pub open spec fn is_path_segment_start(k: SyntaxKind) -> bool {
    ||| k == SyntaxKind::Ident
    ||| k == SyntaxKind::CrateKw
    ||| k == SyntaxKind::SelfKw
    ||| k == SyntaxKind::SuperKw
}

/// The position right after the `::`-separated tail of a path whose first
/// segment ends at `j`.
pub open spec fn path_tail_end(toks: Seq<SyntaxKind>, j: int) -> int
    decreases toks.len() - j,
{
    if j + 2 <= toks.len() && toks[j] == SyntaxKind::PathSep && is_path_segment_start(
        toks[j + 1],
    ) {
        path_tail_end(toks, j + 2)
    } else {
        j
    }
}

pub proof fn lemma_path_tail_end_bounds(toks: Seq<SyntaxKind>, j: int)
    requires
        0 <= j <= toks.len(),
    ensures
        j <= path_tail_end(toks, j) <= toks.len(),
    decreases toks.len() - j,
{
    if j + 2 <= toks.len() && toks[j] == SyntaxKind::PathSep && is_path_segment_start(
        toks[j + 1],
    ) {
        lemma_path_tail_end_bounds(toks, j + 2);
    }
}

/// Where error recovery with an empty stop-set leaves the cursor when
/// entered at `i`: one past `i`, except at a structural brace or at the
/// end of the input.
pub open spec fn skip_end(toks: Seq<SyntaxKind>, i: int) -> int {
    if i < toks.len() && toks[i] != SyntaxKind::LCurly && toks[i] != SyntaxKind::RCurly {
        i + 1
    } else {
        i
    }
}

/// Where the path rule leaves the cursor when entered at `i`.
pub open spec fn use_path_end(toks: Seq<SyntaxKind>, i: int) -> int {
    if i < toks.len() && is_path_segment_start(toks[i]) {
        path_tail_end(toks, i + 1)
    } else {
        skip_end(toks, i)
    }
}

/// One path segment: a single segment-starting token wrapped in a
/// name-reference node.
pub fn path_segment(p: &mut Parser)
    requires
        old(p)@.wf(),
        is_path_segment_start(old(p)@.cur()),
    ensures
        final(p)@.wf(),
        final(p)@.toks == old(p)@.toks,
        final(p)@.pos == old(p)@.pos + 1,
        final(p)@.evs =~= old(p)@.evs + seq![
            Event::Start { kind: SyntaxKind::NameRef, forward_parent: None },
            Event::Token { kind: old(p)@.cur() },
            Event::Finish,
        ],
{
    let m = p.start();
    p.bump_any();
    let _ = m.complete(p, SyntaxKind::NameRef);
}

/// A (simplified) multi-segment path: `seg (:: seg)*`, wrapped in a path
/// node.  At a token that cannot start a path, recovery with an empty
/// stop-set runs instead.
pub fn use_path(p: &mut Parser)
    requires
        old(p)@.wf(),
    ensures
        final(p)@.wf(),
        rule_frame(old(p)@, final(p)@),
        final(p)@.pos == use_path_end(old(p)@.toks, old(p)@.pos),
        is_path_segment_start(old(p)@.cur()) ==> wraps_node(
            old(p)@.evs,
            final(p)@.evs,
            SyntaxKind::Path,
        ),
{
    let k = p.current();
    if k == SyntaxKind::Ident || k == SyntaxKind::CrateKw || k == SyntaxKind::SelfKw || k
        == SyntaxKind::SuperKw {
        let ghost pre = p@;
        let m = p.start();
        path_segment(p);
        proof {
            lemma_path_tail_end_bounds(p@.toks, p@.pos);
            assert(pre.evs.push(tombstone_start()).is_prefix_of(p@.evs)) by {
                lemma_extend_prefix(pre.evs.push(tombstone_start()), p@.evs);
            }
            lemma_marker_live_extend(m, ParserModel { evs: pre.evs.push(tombstone_start()), ..pre }, p@);
        }
        while p.at(SyntaxKind::PathSep) && (p.nth_at(1, SyntaxKind::Ident) || p.nth_at(
            1,
            SyntaxKind::CrateKw,
        ) || p.nth_at(1, SyntaxKind::SelfKw) || p.nth_at(1, SyntaxKind::SuperKw))
            invariant
                p@.wf(),
                p@.toks == pre.toks,
                pre.pos < p@.pos <= p@.toks.len(),
                m.pos == pre.evs.len(),
                m.preceded@ is None,
                marker_live(m, p@),
                pre.evs.push(tombstone_start()).is_prefix_of(p@.evs),
                path_tail_end(p@.toks, p@.pos) == path_tail_end(pre.toks, pre.pos + 1),
            decreases p@.remaining(),
        {
            let ghost before = p@;
            p.bump(SyntaxKind::PathSep);
            path_segment(p);
            proof {
                lemma_path_tail_end_bounds(p@.toks, p@.pos);
                lemma_extend_prefix(before.evs, p@.evs);
                lemma_marker_live_extend(m, before, p@);
                lemma_prefix_trans(pre.evs.push(tombstone_start()), before.evs, p@.evs);
            }
        }
        let ghost mid = p@;
        let _ = m.complete(p, SyntaxKind::Path);
        proof {
            lemma_node_wrap(pre, mid, p@, m.pos as int, SyntaxKind::Path);
        }
    } else {
        p.err_recover("expected a path", TokenSet::empty());
    }
}

/// The events of a single-token leaf node.
pub open spec fn leaf_node_events(node: SyntaxKind, token: SyntaxKind) -> Seq<Event> {
    seq![
        Event::Start { kind: node, forward_parent: None },
        Event::Token { kind: token },
        Event::Finish,
    ]
}

/// The appended events record an error and exactly one consumed token,
/// wrapped in one error node.
pub open spec fn err_node_shape(pre: ParserModel, post: ParserModel) -> bool {
    let n = pre.evs.len() as int;
    &&& post.pos == pre.pos + 1
    &&& post.evs.len() == n + 4
    &&& post.evs[n] == (Event::Start { kind: SyntaxKind::Error, forward_parent: None })
    &&& post.evs[n + 1] is Error
    &&& post.evs[n + 2] == (Event::Token { kind: pre.cur() })
    &&& post.evs[n + 3] is Finish
}

/// The appended events record an error and nothing else.
pub open spec fn err_only_shape(pre: ParserModel, post: ParserModel) -> bool {
    &&& post.pos == pre.pos
    &&& post.evs.len() == pre.evs.len() + 1
    &&& post.evs.last() is Error
}

/// A single identifier wrapped in a name node; on mismatch, recovery
/// bounded by the caller's stop-set.
pub fn name_r(p: &mut Parser, recovery: TokenSet)
    requires
        old(p)@.wf(),
    ensures
        final(p)@.wf(),
        rule_frame(old(p)@, final(p)@),
        old(p)@.cur() == SyntaxKind::Ident ==> final(p)@.pos == old(p)@.pos + 1 && final(p)@.evs
            =~= old(p)@.evs + leaf_node_events(SyntaxKind::Name, SyntaxKind::Ident),
        old(p)@.cur() != SyntaxKind::Ident && Parser::recover_stop(old(p)@, recovery)
            ==> err_only_shape(old(p)@, final(p)@),
        old(p)@.cur() != SyntaxKind::Ident && !Parser::recover_stop(old(p)@, recovery)
            ==> err_node_shape(old(p)@, final(p)@),
{
    if p.at(SyntaxKind::Ident) {
        let m = p.start();
        p.bump(SyntaxKind::Ident);
        let _ = m.complete(p, SyntaxKind::Name);
    } else {
        p.err_recover("expected a name", recovery);
        proof {
            lemma_extend_prefix(old(p)@.evs, p@.evs);
        }
    }
}

/// `name_r` with no recovery set.
pub fn name(p: &mut Parser)
    requires
        old(p)@.wf(),
    ensures
        final(p)@.wf(),
        rule_frame(old(p)@, final(p)@),
        old(p)@.cur() == SyntaxKind::Ident ==> final(p)@.pos == old(p)@.pos + 1 && final(p)@.evs
            =~= old(p)@.evs + leaf_node_events(SyntaxKind::Name, SyntaxKind::Ident),
        old(p)@.cur() != SyntaxKind::Ident && (old(p)@.cur() == SyntaxKind::LCurly || old(p)@.cur() == SyntaxKind::RCurly || old(p)@.cur() == SyntaxKind::Eof) ==> err_only_shape(
            old(p)@,
            final(p)@,
        ),
        old(p)@.cur() != SyntaxKind::Ident && !(old(p)@.cur() == SyntaxKind::LCurly || old(p)@.cur() == SyntaxKind::RCurly || old(p)@.cur() == SyntaxKind::Eof) ==> err_node_shape(
            old(p)@,
            final(p)@,
        ),
{
    name_r(p, TokenSet::empty());
}

/// A single identifier wrapped in a name-reference node; on mismatch an
/// error is recorded and one token is consumed, forcing progress.
pub fn name_ref(p: &mut Parser)
    requires
        old(p)@.wf(),
    ensures
        final(p)@.wf(),
        rule_frame(old(p)@, final(p)@),
        old(p)@.cur() == SyntaxKind::Ident ==> final(p)@.pos == old(p)@.pos + 1 && final(p)@.evs
            =~= old(p)@.evs + leaf_node_events(SyntaxKind::NameRef, SyntaxKind::Ident),
        old(p)@.cur() != SyntaxKind::Ident && old(p)@.cur() != SyntaxKind::Eof ==> err_node_shape(
            old(p)@,
            final(p)@,
        ),
        old(p)@.cur() == SyntaxKind::Eof ==> final(p)@.pos == old(p)@.pos,
{
    if p.at(SyntaxKind::Ident) {
        let m = p.start();
        p.bump(SyntaxKind::Ident);
        let _ = m.complete(p, SyntaxKind::NameRef);
    } else {
        p.err_and_bump("expected identifier");
        proof {
            lemma_extend_prefix(old(p)@.evs, p@.evs);
        }
    }
}

/// A name reference that may also be a positional (integer) reference.
/// Callers must have verified the token class already.
pub fn name_ref_or_index(p: &mut Parser)
    requires
        old(p)@.wf(),
        old(p)@.cur() == SyntaxKind::Ident || old(p)@.cur() == SyntaxKind::IntNumber,
    ensures
        final(p)@.wf(),
        rule_frame(old(p)@, final(p)@),
        final(p)@.pos == old(p)@.pos + 1,
        final(p)@.evs =~= old(p)@.evs + leaf_node_events(SyntaxKind::NameRef, old(p)@.cur()),
{
    let m = p.start();
    p.bump_any();
    let _ = m.complete(p, SyntaxKind::NameRef);
}

/// A single lifetime token wrapped in a lifetime node.  Callers must have
/// verified the token class already.
pub fn lifetime(p: &mut Parser)
    requires
        old(p)@.wf(),
        old(p)@.cur() == SyntaxKind::LifetimeIdent,
    ensures
        final(p)@.wf(),
        rule_frame(old(p)@, final(p)@),
        final(p)@.pos == old(p)@.pos + 1,
        final(p)@.evs =~= old(p)@.evs + leaf_node_events(
            SyntaxKind::Lifetime,
            SyntaxKind::LifetimeIdent,
        ),
{
    let m = p.start();
    p.bump(SyntaxKind::LifetimeIdent);
    let _ = m.complete(p, SyntaxKind::Lifetime);
}

/// Where the optional rename clause leaves the cursor when one is
/// present: `as` plus a wildcard or a name, or `as` plus recovery.
pub open spec fn rename_end(pre: ParserModel) -> int {
    if pre.nth(1) == SyntaxKind::Underscore || pre.nth(1) == SyntaxKind::Ident {
        pre.pos + 2
    } else {
        skip_end(pre.toks, pre.pos + 1)
    }
}

/// An optional `as <new-name-or-wildcard>` clause; a no-op without the
/// keyword.
pub fn opt_rename(p: &mut Parser)
    requires
        old(p)@.wf(),
    ensures
        final(p)@.wf(),
        rule_frame(old(p)@, final(p)@),
        old(p)@.cur() != SyntaxKind::AsKw ==> final(p)@ == old(p)@,
        old(p)@.cur() == SyntaxKind::AsKw ==> final(p)@.pos == rename_end(old(p)@) && wraps_node(
            old(p)@.evs,
            final(p)@.evs,
            SyntaxKind::Rename,
        ),
{
    if p.at(SyntaxKind::AsKw) {
        let ghost pre = p@;
        let m = p.start();
        p.bump(SyntaxKind::AsKw);
        if !p.eat(SyntaxKind::Underscore) {
            name(p);
        }
        proof {
            assert forall|i: int| 0 <= i < pre.evs.len() + 1 implies p@.evs[i] == pre.evs.push(
                tombstone_start(),
            )[i] by {
                if old(p)@.nth(1) != SyntaxKind::Underscore {
                    lemma_prefix_keeps(
                        pre.evs.push(tombstone_start()).push(
                            Event::Token { kind: SyntaxKind::AsKw },
                        ),
                        p@.evs,
                        i,
                    );
                }
            }
            lemma_extend_prefix(pre.evs.push(tombstone_start()), p@.evs);
        }
        let ghost mid = p@;
        let _ = m.complete(p, SyntaxKind::Rename);
        proof {
            lemma_node_wrap(pre, mid, p@, m.pos as int, SyntaxKind::Rename);
        }
    }
}

/// A calling-convention marker: its keyword, optionally followed by a
/// string literal.  Callers must have verified the keyword is present.
pub fn abi(p: &mut Parser)
    requires
        old(p)@.wf(),
        old(p)@.cur() == SyntaxKind::AbiKw,
    ensures
        final(p)@.wf(),
        rule_frame(old(p)@, final(p)@),
        final(p)@.pos == old(p)@.pos + (if old(p)@.nth(1) == SyntaxKind::Str {
            2int
        } else {
            1int
        }),
        wraps_node(old(p)@.evs, final(p)@.evs, SyntaxKind::Abi),
        final(p)@.evs =~= old(p)@.evs + abi_events(old(p)@.nth(1)),
{
    let ghost pre = p@;
    let m = p.start();
    p.bump(SyntaxKind::AbiKw);
    let _ = p.eat(SyntaxKind::Str);
    proof {
        lemma_extend_prefix(pre.evs.push(tombstone_start()), p@.evs);
    }
    let ghost mid = p@;
    let _ = m.complete(p, SyntaxKind::Abi);
    proof {
        lemma_node_wrap(pre, mid, p@, m.pos as int, SyntaxKind::Abi);
        assert(p@.evs =~= pre.evs + abi_events(pre.nth(1)));
    }
}

/// The exact events the calling-convention rule appends: the node around
/// its keyword and — if and only if one follows — the string literal.  No
/// error event is ever recorded.
pub open spec fn abi_events(k1: SyntaxKind) -> Seq<Event> {
    if k1 == SyntaxKind::Str {
        seq![
            Event::Start { kind: SyntaxKind::Abi, forward_parent: None },
            Event::Token { kind: SyntaxKind::AbiKw },
            Event::Token { kind: SyntaxKind::Str },
            Event::Finish,
        ]
    } else {
        seq![
            Event::Start { kind: SyntaxKind::Abi, forward_parent: None },
            Event::Token { kind: SyntaxKind::AbiKw },
            Event::Finish,
        ]
    }
}

/// The closing delimiter that pairs with an opening one.
pub open spec fn matching_closer(open: SyntaxKind) -> SyntaxKind {
    if open == SyntaxKind::LParen {
        SyntaxKind::RParen
    } else if open == SyntaxKind::LBrack {
        SyntaxKind::RBrack
    } else {
        SyntaxKind::RCurly
    }
}

/// A delimited token tree: an opening parenthesis, bracket or brace, a
/// permissive interior in which nested delimiters open nested trees, and
/// the matching closer (tolerating its absence at end of input); the rule
/// stops right after that closer, or at the end of the input.
pub fn token_tree(p: &mut Parser)
    requires
        old(p)@.wf(),
        old(p)@.cur() == SyntaxKind::LParen || old(p)@.cur() == SyntaxKind::LBrack || old(p)@.cur() == SyntaxKind::LCurly,
    ensures
        final(p)@.wf(),
        rule_frame(old(p)@, final(p)@),
        final(p)@.pos > old(p)@.pos,
        wraps_node(old(p)@.evs, final(p)@.evs, SyntaxKind::TokenTree),
        final(p)@.pos == final(p)@.toks.len() || final(p)@.toks[final(p)@.pos - 1]
            == matching_closer(old(p)@.cur()),
    decreases old(p)@.remaining(),
{
    let ghost pre = p@;
    let open = p.current();
    let close = if open == SyntaxKind::LParen {
        SyntaxKind::RParen
    } else if open == SyntaxKind::LBrack {
        SyntaxKind::RBrack
    } else {
        SyntaxKind::RCurly
    };
    let m = p.start();
    p.bump(open);
    proof {
        lemma_extend_prefix(pre.evs.push(tombstone_start()), p@.evs);
        lemma_marker_live_extend(m, ParserModel { evs: pre.evs.push(tombstone_start()), ..pre }, p@);
    }
    while !p.at(close) && !p.at(SyntaxKind::Eof)
        invariant
            pre == old(p)@,
            p@.wf(),
            p@.toks == pre.toks,
            pre.pos < p@.pos <= p@.toks.len(),
            close == matching_closer(pre.cur()),
            close == SyntaxKind::RParen || close == SyntaxKind::RBrack || close
                == SyntaxKind::RCurly,
            m.pos == pre.evs.len(),
            m.preceded@ is None,
            marker_live(m, p@),
            pre.evs.push(tombstone_start()).is_prefix_of(p@.evs),
        decreases p@.remaining(),
    {
        let ghost before = p@;
        if p.at(SyntaxKind::LParen) || p.at(SyntaxKind::LBrack) || p.at(SyntaxKind::LCurly) {
            token_tree(p);
        } else {
            p.bump_any();
        }
        proof {
            lemma_marker_live_extend(m, before, p@);
            lemma_prefix_trans(pre.evs.push(tombstone_start()), before.evs, p@.evs);
        }
    }
    let ghost before = p@;
    let _ = p.expect(close);
    proof {
        lemma_marker_live_extend(m, before, p@);
        lemma_prefix_trans(pre.evs.push(tombstone_start()), before.evs, p@.evs);
    }
    let ghost mid = p@;
    let _ = m.complete(p, SyntaxKind::TokenTree);
    proof {
        lemma_node_wrap(pre, mid, p@, m.pos as int, SyntaxKind::TokenTree);
    }
}

/// Where the simplified type rule leaves the cursor, when its extent is
/// captured by this flat model; a grouped (delimited) type is consumed as
/// a token tree whose extent the model leaves open.
pub open spec fn simple_type_end(toks: Seq<SyntaxKind>, i: int) -> Option<int> {
    if i < toks.len() && is_path_segment_start(toks[i]) {
        Some(path_tail_end(toks, i + 1))
    } else if i < toks.len() && toks[i] == SyntaxKind::LifetimeIdent {
        Some(i + 1)
    } else if i < toks.len() && (toks[i] == SyntaxKind::LParen || toks[i] == SyntaxKind::LBrack) {
        None
    } else {
        Some(skip_end(toks, i))
    }
}

/// A type, excluding trailing bound lists: a path type, a lifetime, or a
/// grouped type; anything else is an error bounded by an empty stop-set.
pub fn type_no_bounds(p: &mut Parser)
    requires
        old(p)@.wf(),
    ensures
        final(p)@.wf(),
        rule_frame(old(p)@, final(p)@),
        simple_type_end(old(p)@.toks, old(p)@.pos) matches Some(e) ==> final(p)@.pos == e,
        old(p)@.cur() == SyntaxKind::LParen || old(p)@.cur() == SyntaxKind::LBrack ==> final(p)@.pos > old(p)@.pos,
{
    let k = p.current();
    if k == SyntaxKind::Ident || k == SyntaxKind::CrateKw || k == SyntaxKind::SelfKw || k
        == SyntaxKind::SuperKw {
        use_path(p);
    } else if k == SyntaxKind::LifetimeIdent {
        lifetime(p);
    } else if k == SyntaxKind::LParen || k == SyntaxKind::LBrack {
        token_tree(p);
    } else {
        p.err_recover("expected a type", TokenSet::empty());
        proof {
            lemma_extend_prefix(old(p)@.evs, p@.evs);
        }
    }
}

/// The general type rule; the simplified grammar adds nothing beyond
/// `type_no_bounds`.
pub fn type_(p: &mut Parser)
    requires
        old(p)@.wf(),
    ensures
        final(p)@.wf(),
        rule_frame(old(p)@, final(p)@),
        simple_type_end(old(p)@.toks, old(p)@.pos) matches Some(e) ==> final(p)@.pos == e,
        old(p)@.cur() == SyntaxKind::LParen || old(p)@.cur() == SyntaxKind::LBrack ==> final(p)@.pos > old(p)@.pos,
{
    type_no_bounds(p);
}

/// An optional `-> <type>` clause; reports whether one was present.
pub fn opt_ret_type(p: &mut Parser) -> (r: bool)
    requires
        old(p)@.wf(),
    ensures
        final(p)@.wf(),
        rule_frame(old(p)@, final(p)@),
        r == (old(p)@.cur() == SyntaxKind::ThinArrow),
        !r ==> final(p)@ == old(p)@,
        r ==> wraps_node(old(p)@.evs, final(p)@.evs, SyntaxKind::RetType) && final(p)@.pos > old(p)@.pos && (simple_type_end(old(p)@.toks, old(p)@.pos + 1) matches Some(e) ==> final(p)@.pos == e),
{
    if p.at(SyntaxKind::ThinArrow) {
        let ghost pre = p@;
        let m = p.start();
        p.bump(SyntaxKind::ThinArrow);
        let ghost s2 = p@;
        type_no_bounds(p);
        proof {
            lemma_extend_prefix(pre.evs.push(tombstone_start()), s2.evs);
            lemma_prefix_trans(pre.evs.push(tombstone_start()), s2.evs, p@.evs);
        }
        let ghost mid = p@;
        let _ = m.complete(p, SyntaxKind::RetType);
        proof {
            lemma_node_wrap(pre, mid, p@, m.pos as int, SyntaxKind::RetType);
        }
        true
    } else {
        false
    }
}

/// Whether the visibility rule would recognize (and consume) a modifier.
/// A leading `crate` keyword immediately followed by a path separator is
/// the start of a path, not a visibility.
pub open spec fn vis_would_consume(pre: ParserModel) -> bool {
    ||| pre.cur() == SyntaxKind::PubKw
    ||| (pre.cur() == SyntaxKind::CrateKw && pre.nth(1) != SyntaxKind::PathSep)
}

pub open spec fn expect_end(toks: Seq<SyntaxKind>, i: int, k: SyntaxKind) -> int {
    if i < toks.len() && toks[i] == k {
        i + 1
    } else {
        i
    }
}

/// Where the visibility rule leaves the cursor when it consumes one.
/// After the visibility keyword, a parenthesized qualifier is consumed
/// only when it is headed by a scope keyword or a plain path (not the
/// `::`-separated start of a type path), and — in a tuple-field — only
/// when it cannot instead be the parenthesized start of the field's type;
/// an `in`-qualifier is always consumed.
pub open spec fn vis_end(pre: ParserModel, in_tuple_field: bool) -> int {
    if pre.cur() == SyntaxKind::CrateKw {
        pre.pos + 1
    } else {
        let k1 = pre.nth(1);
        let k2 = pre.nth(2);
        let k3 = pre.nth(3);
        if k1 == SyntaxKind::LParen && (k2 == SyntaxKind::CrateKw || k2 == SyntaxKind::SelfKw || k2
            == SyntaxKind::SuperKw || k2 == SyntaxKind::Ident) && k3 != SyntaxKind::PathSep {
            if in_tuple_field && k2 == SyntaxKind::Ident {
                pre.pos + 1
            } else {
                expect_end(
                    pre.toks,
                    use_path_end(pre.toks, pre.pos + 2),
                    SyntaxKind::RParen,
                )
            }
        } else if k1 == SyntaxKind::LParen && k2 == SyntaxKind::InKw {
            expect_end(pre.toks, use_path_end(pre.toks, pre.pos + 3), SyntaxKind::RParen)
        } else {
            pre.pos + 1
        }
    }
}

/// An optional visibility modifier: the visibility keyword, possibly with
/// a parenthesized scope qualifier.  In a tuple-field list, a lone
/// parenthesized identifier after the keyword is left unconsumed, since
/// it may instead be the start of the field's parenthesized type.
pub fn opt_visibility(p: &mut Parser, in_tuple_field: bool) -> (r: bool)
    requires
        old(p)@.wf(),
    ensures
        final(p)@.wf(),
        rule_frame(old(p)@, final(p)@),
        r == vis_would_consume(old(p)@),
        !r ==> final(p)@ == old(p)@,
        r ==> final(p)@.pos == vis_end(old(p)@, in_tuple_field) && wraps_node(
            old(p)@.evs,
            final(p)@.evs,
            SyntaxKind::Visibility,
        ),
{
    let k0 = p.current();
    if k0 == SyntaxKind::PubKw {
        let ghost pre = p@;
        let k1 = p.nth(1);
        let k2 = p.nth(2);
        let k3 = p.nth(3);
        let m = p.start();
        p.bump(SyntaxKind::PubKw);
        proof {
            lemma_extend_prefix(pre.evs.push(tombstone_start()), p@.evs);
            lemma_marker_live_extend(
                m,
                ParserModel { evs: pre.evs.push(tombstone_start()), ..pre },
                p@,
            );
        }
        if k1 == SyntaxKind::LParen {
            if (k2 == SyntaxKind::CrateKw || k2 == SyntaxKind::SelfKw || k2 == SyntaxKind::SuperKw
                || k2 == SyntaxKind::Ident) && k3 != SyntaxKind::PathSep {
                if !(in_tuple_field && k2 == SyntaxKind::Ident) {
                    let ghost b0 = p@;
                    p.bump(SyntaxKind::LParen);
                    let ghost b1 = p@;
                    use_path(p);
                    let ghost b2 = p@;
                    let _ = p.expect(SyntaxKind::RParen);
                    proof {
                        lemma_extend_prefix(b0.evs, b1.evs);
                        lemma_prefix_trans(b0.evs, b1.evs, b2.evs);
                        if b2.cur() == SyntaxKind::RParen {
                            lemma_extend_prefix(b2.evs, p@.evs);
                        }
                        lemma_prefix_trans(b0.evs, b2.evs, p@.evs);
                        lemma_marker_live_extend(m, b0, p@);
                        lemma_prefix_trans(pre.evs.push(tombstone_start()), b0.evs, p@.evs);
                    }
                }
            } else if k2 == SyntaxKind::InKw {
                let ghost b0 = p@;
                p.bump(SyntaxKind::LParen);
                p.bump(SyntaxKind::InKw);
                let ghost b1 = p@;
                use_path(p);
                let ghost b2 = p@;
                let _ = p.expect(SyntaxKind::RParen);
                proof {
                    lemma_extend_prefix(b0.evs, b1.evs);
                    lemma_prefix_trans(b0.evs, b1.evs, b2.evs);
                    if b2.cur() == SyntaxKind::RParen {
                        lemma_extend_prefix(b2.evs, p@.evs);
                    }
                    lemma_prefix_trans(b0.evs, b2.evs, p@.evs);
                    lemma_marker_live_extend(m, b0, p@);
                    lemma_prefix_trans(pre.evs.push(tombstone_start()), b0.evs, p@.evs);
                }
            }
        }
        let ghost mid = p@;
        let _ = m.complete(p, SyntaxKind::Visibility);
        proof {
            lemma_node_wrap(pre, mid, p@, m.pos as int, SyntaxKind::Visibility);
        }
        true
    } else if k0 == SyntaxKind::CrateKw {
        if p.nth_at(1, SyntaxKind::PathSep) {
            return false;
        }
        let ghost pre = p@;
        let m = p.start();
        p.bump(SyntaxKind::CrateKw);
        proof {
            lemma_extend_prefix(pre.evs.push(tombstone_start()), p@.evs);
        }
        let ghost mid = p@;
        let _ = m.complete(p, SyntaxKind::Visibility);
        proof {
            lemma_node_wrap(pre, mid, p@, m.pos as int, SyntaxKind::Visibility);
        }
        true
    } else {
        false
    }
}

/// A brace-delimited block expression.  Without an opening brace only an
/// error is recorded; with one, parsing resumes immediately after the
/// matching closing brace (or at end of input if none is found).
pub fn block_expr(p: &mut Parser) -> (r: Option<CompletedMarker>)
    requires
        old(p)@.wf(),
    ensures
        final(p)@.wf(),
        rule_frame(old(p)@, final(p)@),
        old(p)@.cur() != SyntaxKind::LCurly ==> r is None && err_only_shape(old(p)@, final(p)@),
        old(p)@.cur() == SyntaxKind::LCurly ==> r is Some && wraps_node(
            old(p)@.evs,
            final(p)@.evs,
            SyntaxKind::BlockExpr,
        ) && final(p)@.pos > old(p)@.pos,
        old(p)@.cur() == SyntaxKind::LCurly ==> (final(p)@.pos == final(p)@.toks.len() || final(p)@.toks[final(p)@.pos - 1] == SyntaxKind::RCurly),
        r matches Some(cm) ==> completed_fresh(cm, final(p)@) && cm.start_pos >= old(p)@.evs.len(),
    decreases old(p)@.remaining(), 1int,
{
    if !p.at(SyntaxKind::LCurly) {
        p.error("expected a block");
        proof {
            lemma_extend_prefix(old(p)@.evs, p@.evs);
        }
        return None;
    }
    let ghost pre = p@;
    let m = p.start();
    p.bump(SyntaxKind::LCurly);
    let ghost b1 = p@;
    expr_block_contents(p);
    let ghost b2 = p@;
    let _ = p.expect(SyntaxKind::RCurly);
    proof {
        lemma_extend_prefix(pre.evs.push(tombstone_start()), b1.evs);
        lemma_prefix_trans(pre.evs.push(tombstone_start()), b1.evs, b2.evs);
        if b2.cur() == SyntaxKind::RCurly {
            lemma_extend_prefix(b2.evs, p@.evs);
        }
        lemma_prefix_trans(pre.evs.push(tombstone_start()), b2.evs, p@.evs);
        lemma_marker_live_extend(
            m,
            ParserModel { evs: pre.evs.push(tombstone_start()), ..pre },
            p@,
        );
    }
    let ghost mid = p@;
    let cm = m.complete(p, SyntaxKind::BlockExpr);
    proof {
        lemma_node_wrap(pre, mid, p@, m.pos as int, SyntaxKind::BlockExpr);
    }
    Some(cm)
}

/// An atomic expression: a name, a literal, a delimited group, or a block;
/// anything else is an error with one token of forced progress.
pub fn atom_expr(p: &mut Parser) -> (r: (Option<CompletedMarker>, BlockLike))
    requires
        old(p)@.wf(),
    ensures
        final(p)@.wf(),
        rule_frame(old(p)@, final(p)@),
        old(p)@.cur() != SyntaxKind::Eof ==> final(p)@.pos > old(p)@.pos,
        old(p)@.cur() == SyntaxKind::Eof ==> final(p)@.pos == old(p)@.pos,
        r.0 matches Some(cm) ==> completed_fresh(cm, final(p)@) && cm.start_pos >= old(p)@.evs.len(),
        r.1 == BlockLike::Block ==> old(p)@.cur() == SyntaxKind::LCurly,
        old(p)@.cur() != SyntaxKind::Eof ==> appended_region(old(p)@, final(p)@),
    decreases old(p)@.remaining(), 2int,
{
    let k = p.current();
    if k == SyntaxKind::Ident {
        let ghost pre = p@;
        let m = p.start();
        p.bump_any();
        proof {
            lemma_extend_prefix(pre.evs, p@.evs);
        }
        let cm = m.complete(p, SyntaxKind::NameRef);
        proof {
            lemma_extend_prefix(pre.evs, p@.evs);
            crate::event::lemma_balanced_diff(pre.evs, p@.evs);
            assert(p@.evs[pre.evs.len() as int] is Start);
            assert(p@.evs.last() is Finish);
        }
        (Some(cm), BlockLike::NotBlock)
    } else if k == SyntaxKind::IntNumber || k == SyntaxKind::Str || k
        == SyntaxKind::LifetimeIdent {
        let ghost pre = p@;
        let m = p.start();
        p.bump_any();
        proof {
            lemma_extend_prefix(pre.evs, p@.evs);
        }
        let cm = m.complete(p, SyntaxKind::Literal);
        proof {
            lemma_extend_prefix(pre.evs, p@.evs);
            crate::event::lemma_balanced_diff(pre.evs, p@.evs);
            assert(p@.evs[pre.evs.len() as int] is Start);
            assert(p@.evs.last() is Finish);
        }
        (Some(cm), BlockLike::NotBlock)
    } else if k == SyntaxKind::LParen || k == SyntaxKind::LBrack {
        let close = if k == SyntaxKind::LParen {
            SyntaxKind::RParen
        } else {
            SyntaxKind::RBrack
        };
        let node = if k == SyntaxKind::LParen {
            SyntaxKind::ParenExpr
        } else {
            SyntaxKind::ArrayExpr
        };
        let ghost pre = p@;
        let m = p.start();
        p.bump_any();
        proof {
            lemma_extend_prefix(pre.evs.push(tombstone_start()), p@.evs);
            lemma_marker_live_extend(
                m,
                ParserModel { evs: pre.evs.push(tombstone_start()), ..pre },
                p@,
            );
        }
        while !p.at(close) && !p.at(SyntaxKind::Eof)
            invariant
                pre == old(p)@,
                p@.wf(),
                p@.toks == pre.toks,
                pre.pos < p@.pos <= p@.toks.len(),
                close == SyntaxKind::RParen || close == SyntaxKind::RBrack,
                node != SyntaxKind::Tombstone,
                m.pos == pre.evs.len(),
                m.preceded@ is None,
                marker_live(m, p@),
                pre.evs.push(tombstone_start()).is_prefix_of(p@.evs),
            decreases p@.remaining(),
        {
            let ghost before = p@;
            let _ = expr(p);
            proof {
                lemma_marker_live_extend(m, before, p@);
                lemma_prefix_trans(pre.evs.push(tombstone_start()), before.evs, p@.evs);
            }
        }
        let ghost b2 = p@;
        let _ = p.expect(close);
        proof {
            if b2.cur() == close {
                lemma_extend_prefix(b2.evs, p@.evs);
            }
            lemma_marker_live_extend(m, b2, p@);
            lemma_prefix_trans(pre.evs.push(tombstone_start()), b2.evs, p@.evs);
        }
        let ghost mid = p@;
        let cm = m.complete(p, node);
        proof {
            lemma_node_wrap(pre, mid, p@, m.pos as int, node);
            crate::parser::lemma_wraps_region(pre, p@, node);
        }
        (Some(cm), BlockLike::NotBlock)
    } else if k == SyntaxKind::LCurly {
        let r = block_expr(p);
        proof {
            crate::parser::lemma_wraps_region(old(p)@, p@, SyntaxKind::BlockExpr);
        }
        (r, BlockLike::Block)
    } else {
        let msg = "expected an expression";
        p.err_and_bump(msg);
        proof {
            crate::parser::lemma_err_bump_wraps(old(p)@.evs, p@.evs, old(p)@.cur(), msg);
            if old(p)@.cur() != SyntaxKind::Eof {
                crate::parser::lemma_wraps_region(old(p)@, p@, SyntaxKind::Error);
            }
        }
        (None, BlockLike::NotBlock)
    }
}

/// An expression: an atom, extended by any number of trailing binary
/// operators.  Each extension re-parents the already-parsed left-hand
/// side under a fresh binary-expression node via `precede`, so every
/// token is processed exactly once, left to right.
pub fn expr(p: &mut Parser) -> (r: BlockLike)
    requires
        old(p)@.wf(),
    ensures
        final(p)@.wf(),
        rule_frame(old(p)@, final(p)@),
        old(p)@.cur() != SyntaxKind::Eof ==> final(p)@.pos > old(p)@.pos,
        old(p)@.cur() == SyntaxKind::Eof ==> final(p)@.pos == old(p)@.pos,
        old(p)@.cur() != SyntaxKind::Eof ==> appended_region(old(p)@, final(p)@),
        old(p)@.cur() == SyntaxKind::Eof ==> err_only_shape(old(p)@, final(p)@),
    decreases old(p)@.remaining(), 3int,
{
    if p.at(SyntaxKind::Eof) {
        p.error("expected an expression");
        proof {
            lemma_extend_prefix(old(p)@.evs, p@.evs);
        }
        return BlockLike::NotBlock;
    }
    let ghost pre = p@;
    let (first, bl) = atom_expr(p);
    proof {
        let app = p@.evs.subrange(pre.evs.len() as int, p@.evs.len() as int);
        assert(p@.evs[pre.evs.len() as int] == app[0]);
        assert(p@.evs.last() == app.last());
    }
    let mut blk = bl;
    match first {
        Some(first_cm) => {
            let mut lhs = first_cm;
            while p.at(SyntaxKind::Plus)
                invariant
                    pre == old(p)@,
                    p@.wf(),
                    p@.toks == pre.toks,
                    pre.pos < p@.pos <= p@.toks.len(),
                    pre.evs.is_prefix_of(p@.evs),
                    completed_fresh(lhs, p@),
                    lhs.start_pos >= pre.evs.len(),
                    p@.evs.len() >= pre.evs.len() + 2,
                    p@.evs[pre.evs.len() as int] is Start,
                    p@.evs.last() is Finish,
                decreases p@.remaining(),
            {
                let ghost b0 = p@;
                let m = lhs.precede(p);
                let ghost b1 = p@;
                p.bump(SyntaxKind::Plus);
                let ghost b2 = p@;
                let _ = atom_expr(p);
                let ghost b3 = p@;
                proof {
                    lemma_extend_prefix(b1.evs, b2.evs);
                    lemma_marker_live_extend(m, b1, b2);
                    lemma_marker_live_extend(m, b2, b3);
                }
                lhs = m.complete(p, SyntaxKind::BinExpr);
                blk = BlockLike::NotBlock;
                proof {
                    assert forall|i: int| 0 <= i < pre.evs.len() implies p@.evs[i] == pre.evs[i] by {
                        lemma_prefix_keeps(pre.evs, b0.evs, i);
                        lemma_prefix_keeps(b2.evs, b3.evs, i);
                    }
                    lemma_extend_prefix(pre.evs, p@.evs);
                    // the first appended event stays an open event: a
                    // precede may rewrite its forward-parent link, nothing
                    // more
                    assert(b1.evs[pre.evs.len() as int] is Start);
                    lemma_prefix_keeps(b2.evs, b3.evs, pre.evs.len() as int);
                    assert(p@.evs[pre.evs.len() as int] is Start);
                }
            }
            proof {
                crate::event::lemma_balanced_diff(pre.evs, p@.evs);
                let app = p@.evs.subrange(pre.evs.len() as int, p@.evs.len() as int);
                assert(app[0] == p@.evs[pre.evs.len() as int]);
                assert(app.last() == p@.evs.last());
            }
        },
        None => {},
    }
    blk
}

/// A statement: an expression, optionally closed by a statement
/// separator (which block-like expressions do not need).
pub fn stmt(p: &mut Parser, eat_trailing_semi: bool)
    requires
        old(p)@.wf(),
    ensures
        final(p)@.wf(),
        rule_frame(old(p)@, final(p)@),
        wraps_node(old(p)@.evs, final(p)@.evs, SyntaxKind::ExprStmt),
        old(p)@.cur() != SyntaxKind::Eof ==> final(p)@.pos > old(p)@.pos,
    decreases old(p)@.remaining(), 4int,
{
    let ghost pre = p@;
    let m = p.start();
    let ghost b1 = p@;
    let bl = expr(p);
    let ghost b2 = p@;
    if eat_trailing_semi && !bl.is_block() {
        let _ = p.eat(SyntaxKind::Semicolon);
    }
    proof {
        lemma_extend_prefix(pre.evs.push(tombstone_start()), b1.evs);
        lemma_prefix_trans(pre.evs.push(tombstone_start()), b1.evs, b2.evs);
        lemma_extend_prefix(b2.evs, p@.evs);
        lemma_prefix_trans(pre.evs.push(tombstone_start()), b2.evs, p@.evs);
        lemma_marker_live_extend(
            m,
            ParserModel { evs: pre.evs.push(tombstone_start()), ..pre },
            p@,
        );
    }
    let ghost mid = p@;
    let _ = m.complete(p, SyntaxKind::ExprStmt);
    proof {
        lemma_node_wrap(pre, mid, p@, m.pos as int, SyntaxKind::ExprStmt);
    }
}

/// The permissive interior of a brace-delimited region: statements and
/// stray separators until the closing brace or the end of input.
pub fn expr_block_contents(p: &mut Parser)
    requires
        old(p)@.wf(),
    ensures
        final(p)@.wf(),
        rule_frame(old(p)@, final(p)@),
        final(p)@.cur() == SyntaxKind::RCurly || final(p)@.cur() == SyntaxKind::Eof,
    decreases old(p)@.remaining(), 5int,
{
    let ghost pre = p@;
    proof {
        lemma_extend_prefix(pre.evs, pre.evs);
    }
    while !p.at(SyntaxKind::RCurly) && !p.at(SyntaxKind::Eof)
        invariant
            pre == old(p)@,
            p@.wf(),
            p@.toks == pre.toks,
            pre.pos <= p@.pos <= p@.toks.len(),
            pre.evs.is_prefix_of(p@.evs),
        decreases p@.remaining(),
    {
        let ghost before = p@;
        if p.at(SyntaxKind::Semicolon) {
            p.bump(SyntaxKind::Semicolon);
        } else {
            stmt(p, true);
        }
        proof {
            lemma_extend_prefix(before.evs, p@.evs);
            lemma_prefix_trans(pre.evs, before.evs, p@.evs);
        }
    }
}

/// A brace-delimited region that cannot be attributed to any construct:
/// the diagnostic, the opening brace, a permissively parsed interior and
/// the closing brace (if present) are all wrapped in one error node
/// spanning the whole region, so sibling parsing resumes right after it.
/// The interior tolerates further internal errors; recovery there may
/// nest further error wrappers inside this one, never beside it.
pub fn error_block(p: &mut Parser, message: &'static str)
    requires
        old(p)@.wf(),
        old(p)@.cur() == SyntaxKind::LCurly,
    ensures
        final(p)@.wf(),
        rule_frame(old(p)@, final(p)@),
        wraps_node(old(p)@.evs, final(p)@.evs, SyntaxKind::Error),
        final(p)@.evs[old(p)@.evs.len() as int + 1] == (Event::Error { msg: message }),
        final(p)@.evs[old(p)@.evs.len() as int + 2] == (Event::Token { kind: SyntaxKind::LCurly }),
        final(p)@.pos > old(p)@.pos,
        final(p)@.pos == final(p)@.toks.len() || final(p)@.toks[final(p)@.pos - 1]
            == SyntaxKind::RCurly,
{
    let ghost pre = p@;
    let m = p.start();
    p.error(message);
    p.bump(SyntaxKind::LCurly);
    let ghost b1 = p@;
    expr_block_contents(p);
    let ghost b2 = p@;
    let _ = p.eat(SyntaxKind::RCurly);
    proof {
        lemma_extend_prefix(pre.evs.push(tombstone_start()), b1.evs);
        lemma_prefix_trans(pre.evs.push(tombstone_start()), b1.evs, b2.evs);
        lemma_extend_prefix(b2.evs, p@.evs);
        lemma_prefix_trans(pre.evs.push(tombstone_start()), b2.evs, p@.evs);
        lemma_marker_live_extend(
            m,
            ParserModel { evs: pre.evs.push(tombstone_start()), ..pre },
            p@,
        );
    }
    let ghost mid = p@;
    let _ = m.complete(p, SyntaxKind::Error);
    proof {
        lemma_node_wrap(pre, mid, p@, m.pos as int, SyntaxKind::Error);
        lemma_prefix_keeps(b1.evs, b2.evs, pre.evs.len() as int + 1);
        lemma_prefix_keeps(b1.evs, b2.evs, pre.evs.len() as int + 2);
        assert(p@.evs[pre.evs.len() as int + 1] == b2.evs[pre.evs.len() as int + 1]);
        assert(p@.evs[pre.evs.len() as int + 2] == b2.evs[pre.evs.len() as int + 2]);
    }
}

/// Wrapping a completed placeholder started right at the old end of the
/// log yields one region of the given kind and keeps the old log intact.
pub proof fn lemma_node_wrap(
    pre: ParserModel,
    mid: ParserModel,
    post: ParserModel,
    mpos: int,
    kind: SyntaxKind,
)
    requires
        mpos == pre.evs.len(),
        pre.evs.push(tombstone_start()).is_prefix_of(mid.evs),
        post.evs == mid.evs.update(mpos, Event::Start { kind, forward_parent: None }).push(
            Event::Finish,
        ),
        kind != SyntaxKind::Tombstone,
        crate::event::balanced(pre.evs),
        crate::event::balanced(mid.evs),
    ensures
        pre.evs.is_prefix_of(post.evs),
        wraps_node(pre.evs, post.evs, kind),
{
    let s1 = pre.evs.push(tombstone_start());
    assert forall|i: int| 0 <= i < pre.evs.len() implies post.evs[i] == pre.evs[i] by {
        lemma_prefix_keeps(s1, mid.evs, i);
        assert(s1[i] == pre.evs[i]);
        assert(post.evs[i] == mid.evs[i]);
    }
    lemma_extend_prefix(pre.evs, post.evs);
    assert(mid.evs.len() >= pre.evs.len() + 1);
    assert(post.evs[mpos] == Event::Start { kind, forward_parent: None });
    // the events written while the placeholder was open are balanced on
    // their own, being the difference of two balanced logs
    crate::event::lemma_counts_push(pre.evs, tombstone_start());
    crate::event::lemma_prefix_balanced_push(pre.evs, tombstone_start());
    crate::event::lemma_balanced_diff(s1, mid.evs);
    let interior = mid.evs.subrange(s1.len() as int, mid.evs.len() as int);
    let start_ev = Event::Start { kind, forward_parent: None };
    let sroot = Seq::<Event>::empty().push(start_ev);
    crate::event::lemma_counts_push(Seq::<Event>::empty(), start_ev);
    let app = post.evs.subrange(pre.evs.len() as int, post.evs.len() as int);
    assert(app =~= sroot + interior + Seq::<Event>::empty().push(Event::Finish)) by {
        assert forall|j: int| 0 <= j < app.len() implies app[j] == (sroot + interior
            + Seq::<Event>::empty().push(Event::Finish))[j] by {
            if j == 0 {
            } else if j < app.len() - 1 {
                assert(app[j] == mid.evs[pre.evs.len() + j]);
            }
        }
    }
    // counts of the appended region
    assert(app.last() == Event::Finish);
    assert(app.drop_last() =~= sroot + interior);
    crate::event::lemma_counts_concat(sroot, interior);
    assert(open_count(app) == close_count(app));
    // the region stays open through every proper prefix
    assert forall|i: int| 0 < i < app.len() implies close_count(#[trigger] app.subrange(0, i))
        < open_count(app.subrange(0, i)) by {
        assert(app.subrange(0, i) =~= sroot + interior.subrange(0, i - 1));
        crate::event::lemma_counts_concat(sroot, interior.subrange(0, i - 1));
        assert(close_count(interior.subrange(0, i - 1)) <= open_count(
            interior.subrange(0, i - 1),
        ));
    }
}

/// A single pattern: a binding, a wildcard, a literal, or a parenthesized
/// pattern; anything else is an error with one token of forced progress.
pub fn pattern_single(p: &mut Parser)
    requires
        old(p)@.wf(),
    ensures
        final(p)@.wf(),
        rule_frame(old(p)@, final(p)@),
        old(p)@.cur() != SyntaxKind::Eof ==> final(p)@.pos > old(p)@.pos,
        old(p)@.cur() == SyntaxKind::Eof ==> final(p)@.pos == old(p)@.pos,
        old(p)@.cur() == SyntaxKind::Ident ==> final(p)@.evs =~= old(p)@.evs + leaf_node_events(
            SyntaxKind::IdentPat,
            SyntaxKind::Ident,
        ),
        old(p)@.cur() == SyntaxKind::Underscore ==> final(p)@.evs =~= old(p)@.evs
            + leaf_node_events(SyntaxKind::WildcardPat, SyntaxKind::Underscore),
        old(p)@.cur() == SyntaxKind::IntNumber || old(p)@.cur() == SyntaxKind::Str
            ==> final(p)@.evs =~= old(p)@.evs + leaf_node_events(
            SyntaxKind::LiteralPat,
            old(p)@.cur(),
        ),
        old(p)@.cur() == SyntaxKind::LParen ==> wraps_node(
            old(p)@.evs,
            final(p)@.evs,
            SyntaxKind::ParenPat,
        ),
        !pattern_start(old(p)@.cur()) && old(p)@.cur() != SyntaxKind::Eof ==> err_node_shape(
            old(p)@,
            final(p)@,
        ),
        old(p)@.cur() == SyntaxKind::Eof ==> wraps_node(
            old(p)@.evs,
            final(p)@.evs,
            SyntaxKind::Error,
        ),
    decreases old(p)@.remaining(),
{
    let k = p.current();
    if k == SyntaxKind::Ident || k == SyntaxKind::Underscore || k == SyntaxKind::IntNumber || k
        == SyntaxKind::Str {
        let node = if k == SyntaxKind::Ident {
            SyntaxKind::IdentPat
        } else if k == SyntaxKind::Underscore {
            SyntaxKind::WildcardPat
        } else {
            SyntaxKind::LiteralPat
        };
        let ghost pre = p@;
        let m = p.start();
        p.bump_any();
        proof {
            lemma_extend_prefix(pre.evs, p@.evs);
        }
        let _ = m.complete(p, node);
        proof {
            lemma_extend_prefix(pre.evs, p@.evs);
        }
    } else if k == SyntaxKind::LParen {
        let ghost pre = p@;
        let m = p.start();
        p.bump(SyntaxKind::LParen);
        proof {
            lemma_marker_live_extend(
                m,
                ParserModel { evs: pre.evs.push(tombstone_start()), ..pre },
                p@,
            );
        }
        let ghost b1 = p@;
        if !p.at(SyntaxKind::RParen) && !p.at(SyntaxKind::Eof) {
            pattern_single(p);
        }
        let ghost b2 = p@;
        let _ = p.expect(SyntaxKind::RParen);
        proof {
            lemma_extend_prefix(b1.evs, b2.evs);
            if b2.cur() == SyntaxKind::RParen {
                lemma_extend_prefix(b2.evs, p@.evs);
            }
            lemma_prefix_trans(b1.evs, b2.evs, p@.evs);
            lemma_marker_live_extend(m, b1, p@);
            lemma_prefix_trans(pre.evs.push(tombstone_start()), b1.evs, p@.evs);
        }
        let ghost mid = p@;
        let _ = m.complete(p, SyntaxKind::ParenPat);
        proof {
            lemma_node_wrap(pre, mid, p@, m.pos as int, SyntaxKind::ParenPat);
        }
    } else {
        let msg = "expected a pattern";
        p.err_and_bump(msg);
        proof {
            crate::parser::lemma_err_bump_wraps(old(p)@.evs, p@.evs, old(p)@.cur(), msg);
        }
    }
}

/// The kinds the simplified pattern rule recognizes directly.
pub open spec fn pattern_start(k: SyntaxKind) -> bool {
    ||| k == SyntaxKind::Ident
    ||| k == SyntaxKind::Underscore
    ||| k == SyntaxKind::IntNumber
    ||| k == SyntaxKind::Str
    ||| k == SyntaxKind::LParen
}

/// The interior of an attribute: a path, optionally followed by an
/// `=`-bound expression or by a delimited argument list.
pub fn meta(p: &mut Parser)
    requires
        old(p)@.wf(),
    ensures
        final(p)@.wf(),
        rule_frame(old(p)@, final(p)@),
        wraps_node(old(p)@.evs, final(p)@.evs, SyntaxKind::Meta),
{
    let ghost pre = p@;
    let m = p.start();
    use_path(p);
    proof {
        lemma_marker_live_extend(
            m,
            ParserModel { evs: pre.evs.push(tombstone_start()), ..pre },
            p@,
        );
    }
    if p.at(SyntaxKind::EqSign) {
        let ghost c0 = p@;
        p.bump(SyntaxKind::EqSign);
        let ghost c1 = p@;
        let _ = expr(p);
        proof {
            lemma_extend_prefix(c0.evs, c1.evs);
            lemma_prefix_trans(c0.evs, c1.evs, p@.evs);
            lemma_marker_live_extend(m, c0, p@);
            lemma_prefix_trans(pre.evs.push(tombstone_start()), c0.evs, p@.evs);
        }
    } else if p.at(SyntaxKind::LParen) {
        let ghost c0 = p@;
        token_tree(p);
        proof {
            lemma_marker_live_extend(m, c0, p@);
            lemma_prefix_trans(pre.evs.push(tombstone_start()), c0.evs, p@.evs);
        }
    }
    let ghost mid = p@;
    let _ = m.complete(p, SyntaxKind::Meta);
    proof {
        lemma_node_wrap(pre, mid, p@, m.pos as int, SyntaxKind::Meta);
    }
}

/// One item (or the item-like shape of a macro call), parsed permissively:
/// an optional visibility, the item's tokens, and a terminating separator
/// or brace-delimited body.  A stray brace region or closer becomes an
/// error node instead, so sibling items stay parseable.
pub fn item_or_macro(p: &mut Parser)
    requires
        old(p)@.wf(),
    ensures
        final(p)@.wf(),
        rule_frame(old(p)@, final(p)@),
        old(p)@.cur() != SyntaxKind::Eof ==> final(p)@.pos > old(p)@.pos,
        old(p)@.cur() == SyntaxKind::Eof ==> final(p)@.pos == old(p)@.pos,
        old(p)@.cur() != SyntaxKind::Eof && old(p)@.cur() != SyntaxKind::LCurly && old(p)@.cur()
            != SyntaxKind::RCurly ==> wraps_node(old(p)@.evs, final(p)@.evs, SyntaxKind::Item),
        old(p)@.cur() == SyntaxKind::LCurly || old(p)@.cur() == SyntaxKind::RCurly ==> wraps_node(
            old(p)@.evs,
            final(p)@.evs,
            SyntaxKind::Error,
        ),
{
    if p.at(SyntaxKind::Eof) {
        p.error("expected an item");
        proof {
            lemma_extend_prefix(old(p)@.evs, p@.evs);
        }
        return ;
    }
    if p.at(SyntaxKind::LCurly) {
        error_block(p, "expected an item");
        return ;
    }
    if p.at(SyntaxKind::RCurly) {
        let msg = "unmatched closing brace";
        p.err_and_bump(msg);
        proof {
            crate::parser::lemma_err_bump_wraps(old(p)@.evs, p@.evs, old(p)@.cur(), msg);
        }
        return ;
    }
    let ghost pre = p@;
    let m = p.start();
    let ghost b1 = p@;
    let _ = opt_visibility(p, false);
    proof {
        lemma_marker_live_extend(m, b1, p@);
        lemma_prefix_trans(pre.evs.push(tombstone_start()), b1.evs, p@.evs);
    }
    let ghost v = p@;
    while !p.at(SyntaxKind::Semicolon) && !p.at(SyntaxKind::LCurly) && !p.at(SyntaxKind::RCurly)
        && !p.at(SyntaxKind::Eof)
        invariant
            pre == old(p)@,
            p@.wf(),
            p@.toks == pre.toks,
            pre.pos <= v.pos <= p@.pos <= p@.toks.len(),
            v.pos < p@.pos || p@ == v,
            m.pos == pre.evs.len(),
            m.preceded@ is None,
            marker_live(m, p@),
            pre.evs.push(tombstone_start()).is_prefix_of(p@.evs),
        decreases p@.remaining(),
    {
        let ghost before = p@;
        p.bump_any();
        proof {
            lemma_extend_prefix(before.evs, p@.evs);
            lemma_marker_live_extend(m, before, p@);
            lemma_prefix_trans(pre.evs.push(tombstone_start()), before.evs, p@.evs);
        }
    }
    if p.at(SyntaxKind::Semicolon) {
        let ghost before = p@;
        p.bump(SyntaxKind::Semicolon);
        proof {
            lemma_extend_prefix(before.evs, p@.evs);
            lemma_marker_live_extend(m, before, p@);
            lemma_prefix_trans(pre.evs.push(tombstone_start()), before.evs, p@.evs);
        }
    } else if p.at(SyntaxKind::LCurly) {
        let ghost before = p@;
        token_tree(p);
        proof {
            lemma_marker_live_extend(m, before, p@);
            lemma_prefix_trans(pre.evs.push(tombstone_start()), before.evs, p@.evs);
        }
    }
    let ghost mid = p@;
    let _ = m.complete(p, SyntaxKind::Item);
    proof {
        lemma_node_wrap(pre, mid, p@, m.pos as int, SyntaxKind::Item);
    }
}

/// A sequence of items: to the end of the input, or — inside a braced
/// module body — up to the closing brace.
pub fn mod_contents(p: &mut Parser, stop_on_r_curly: bool)
    requires
        old(p)@.wf(),
    ensures
        final(p)@.wf(),
        rule_frame(old(p)@, final(p)@),
        !stop_on_r_curly ==> final(p)@.pos == final(p)@.toks.len(),
        stop_on_r_curly ==> final(p)@.cur() == SyntaxKind::RCurly || final(p)@.cur()
            == SyntaxKind::Eof,
{
    let ghost pre = p@;
    proof {
        lemma_extend_prefix(pre.evs, pre.evs);
    }
    while !p.at(SyntaxKind::Eof) && !(stop_on_r_curly && p.at(SyntaxKind::RCurly))
        invariant
            pre == old(p)@,
            p@.wf(),
            p@.toks == pre.toks,
            pre.pos <= p@.pos <= p@.toks.len(),
            pre.evs.is_prefix_of(p@.evs),
        decreases p@.remaining(),
    {
        let ghost before = p@;
        item_or_macro(p);
        proof {
            lemma_prefix_trans(pre.evs, before.evs, p@.evs);
        }
    }
}

/// A brace-delimited list parsed permissively: nested delimiters open
/// nested token trees, everything else is consumed as-is, and the whole
/// region is wrapped in one node of the given kind.
pub fn curly_list(p: &mut Parser, kind: SyntaxKind)
    requires
        old(p)@.wf(),
        old(p)@.cur() == SyntaxKind::LCurly,
        kind != SyntaxKind::Tombstone,
    ensures
        final(p)@.wf(),
        rule_frame(old(p)@, final(p)@),
        wraps_node(old(p)@.evs, final(p)@.evs, kind),
        final(p)@.pos > old(p)@.pos,
{
    let ghost pre = p@;
    let m = p.start();
    p.bump(SyntaxKind::LCurly);
    proof {
        lemma_marker_live_extend(
            m,
            ParserModel { evs: pre.evs.push(tombstone_start()), ..pre },
            p@,
        );
    }
    while !p.at(SyntaxKind::RCurly) && !p.at(SyntaxKind::Eof)
        invariant
            pre == old(p)@,
            p@.wf(),
            p@.toks == pre.toks,
            pre.pos < p@.pos <= p@.toks.len(),
            m.pos == pre.evs.len(),
            m.preceded@ is None,
            marker_live(m, p@),
            pre.evs.push(tombstone_start()).is_prefix_of(p@.evs),
        decreases p@.remaining(),
    {
        let ghost before = p@;
        if p.at(SyntaxKind::LParen) || p.at(SyntaxKind::LBrack) || p.at(SyntaxKind::LCurly) {
            token_tree(p);
        } else {
            p.bump_any();
        }
        proof {
            lemma_extend_prefix(before.evs, p@.evs);
            lemma_marker_live_extend(m, before, p@);
            lemma_prefix_trans(pre.evs.push(tombstone_start()), before.evs, p@.evs);
        }
    }
    let ghost b2 = p@;
    let _ = p.expect(SyntaxKind::RCurly);
    proof {
        if b2.cur() == SyntaxKind::RCurly {
            lemma_extend_prefix(b2.evs, p@.evs);
        }
        lemma_marker_live_extend(m, b2, p@);
        lemma_prefix_trans(pre.evs.push(tombstone_start()), b2.evs, p@.evs);
    }
    let ghost mid = p@;
    let _ = m.complete(p, kind);
    proof {
        lemma_node_wrap(pre, mid, p@, m.pos as int, kind);
    }
}

/// A braced list whose interior really is a sequence of items, wrapped in
/// one node of the given kind.
pub fn braced_items(p: &mut Parser, kind: SyntaxKind)
    requires
        old(p)@.wf(),
        old(p)@.cur() == SyntaxKind::LCurly,
        kind != SyntaxKind::Tombstone,
    ensures
        final(p)@.wf(),
        rule_frame(old(p)@, final(p)@),
        wraps_node(old(p)@.evs, final(p)@.evs, kind),
        final(p)@.pos > old(p)@.pos,
{
    let ghost pre = p@;
    let m = p.start();
    p.bump(SyntaxKind::LCurly);
    proof {
        lemma_marker_live_extend(
            m,
            ParserModel { evs: pre.evs.push(tombstone_start()), ..pre },
            p@,
        );
    }
    let ghost b1 = p@;
    mod_contents(p, true);
    let ghost b2 = p@;
    let _ = p.expect(SyntaxKind::RCurly);
    proof {
        if b2.cur() == SyntaxKind::RCurly {
            lemma_extend_prefix(b2.evs, p@.evs);
        }
        lemma_prefix_trans(b1.evs, b2.evs, p@.evs);
        lemma_marker_live_extend(m, b1, p@);
        lemma_prefix_trans(pre.evs.push(tombstone_start()), b1.evs, p@.evs);
    }
    let ghost mid = p@;
    let _ = m.complete(p, kind);
    proof {
        lemma_node_wrap(pre, mid, p@, m.pos as int, kind);
    }
}

/// The named list rules an incremental edit can regenerate in isolation.
pub fn record_field_list(p: &mut Parser)
    requires
        old(p)@.wf(),
        old(p)@.cur() == SyntaxKind::LCurly,
    ensures
        final(p)@.wf(),
        rule_frame(old(p)@, final(p)@),
        wraps_node(old(p)@.evs, final(p)@.evs, SyntaxKind::RecordFieldList),
        final(p)@.pos > old(p)@.pos,
{
    curly_list(p, SyntaxKind::RecordFieldList);
}

pub fn record_expr_field_list(p: &mut Parser)
    requires
        old(p)@.wf(),
        old(p)@.cur() == SyntaxKind::LCurly,
    ensures
        final(p)@.wf(),
        rule_frame(old(p)@, final(p)@),
        wraps_node(old(p)@.evs, final(p)@.evs, SyntaxKind::RecordExprFieldList),
        final(p)@.pos > old(p)@.pos,
{
    curly_list(p, SyntaxKind::RecordExprFieldList);
}

pub fn variant_list(p: &mut Parser)
    requires
        old(p)@.wf(),
        old(p)@.cur() == SyntaxKind::LCurly,
    ensures
        final(p)@.wf(),
        rule_frame(old(p)@, final(p)@),
        wraps_node(old(p)@.evs, final(p)@.evs, SyntaxKind::VariantList),
        final(p)@.pos > old(p)@.pos,
{
    curly_list(p, SyntaxKind::VariantList);
}

pub fn match_arm_list(p: &mut Parser)
    requires
        old(p)@.wf(),
        old(p)@.cur() == SyntaxKind::LCurly,
    ensures
        final(p)@.wf(),
        rule_frame(old(p)@, final(p)@),
        wraps_node(old(p)@.evs, final(p)@.evs, SyntaxKind::MatchArmList),
        final(p)@.pos > old(p)@.pos,
{
    curly_list(p, SyntaxKind::MatchArmList);
}

pub fn use_tree_list(p: &mut Parser)
    requires
        old(p)@.wf(),
        old(p)@.cur() == SyntaxKind::LCurly,
    ensures
        final(p)@.wf(),
        rule_frame(old(p)@, final(p)@),
        wraps_node(old(p)@.evs, final(p)@.evs, SyntaxKind::UseTreeList),
        final(p)@.pos > old(p)@.pos,
{
    curly_list(p, SyntaxKind::UseTreeList);
}

pub fn foreign_item_list(p: &mut Parser)
    requires
        old(p)@.wf(),
        old(p)@.cur() == SyntaxKind::LCurly,
    ensures
        final(p)@.wf(),
        rule_frame(old(p)@, final(p)@),
        wraps_node(old(p)@.evs, final(p)@.evs, SyntaxKind::ForeignItemList),
        final(p)@.pos > old(p)@.pos,
{
    braced_items(p, SyntaxKind::ForeignItemList);
}

pub fn assoc_item_list(p: &mut Parser)
    requires
        old(p)@.wf(),
        old(p)@.cur() == SyntaxKind::LCurly,
    ensures
        final(p)@.wf(),
        rule_frame(old(p)@, final(p)@),
        wraps_node(old(p)@.evs, final(p)@.evs, SyntaxKind::AssocItemList),
        final(p)@.pos > old(p)@.pos,
{
    braced_items(p, SyntaxKind::AssocItemList);
}

pub fn item_list(p: &mut Parser)
    requires
        old(p)@.wf(),
        old(p)@.cur() == SyntaxKind::LCurly,
    ensures
        final(p)@.wf(),
        rule_frame(old(p)@, final(p)@),
        wraps_node(old(p)@.evs, final(p)@.evs, SyntaxKind::ItemList),
        final(p)@.pos > old(p)@.pos,
{
    braced_items(p, SyntaxKind::ItemList);
}

/// A path in type position; the simplified grammar shares one path rule.
pub fn type_path(p: &mut Parser)
    requires
        old(p)@.wf(),
    ensures
        final(p)@.wf(),
        rule_frame(old(p)@, final(p)@),
        final(p)@.pos == use_path_end(old(p)@.toks, old(p)@.pos),
        is_path_segment_start(old(p)@.cur()) ==> wraps_node(
            old(p)@.evs,
            final(p)@.evs,
            SyntaxKind::Path,
        ),
{
    use_path(p);
}

} // verus!
