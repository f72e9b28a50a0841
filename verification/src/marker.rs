//! The marker algebra: handles that open, close, abandon, or retroactively
//! re-parent regions of the event log while tokens are scanned once,
//! left-to-right, with no backtracking.

use vstd::prelude::*;

use crate::event::{
    close_count, consumed_kinds, is_close_event, is_open_event, is_token_event,
    lemma_consumed_kinds_push, lemma_consumed_kinds_update, lemma_counts_drop_last,
    lemma_counts_push, lemma_counts_update, lemma_prefix_balanced_drop_last,
    lemma_prefix_balanced_push, lemma_prefix_counts_update, open_count, prefix_balanced,
    token_count, token_kind_seq, Event,
};
use crate::parser::{tombstone_start, Parser, ParserModel};
use crate::syntax_kind::SyntaxKind;

verus! {

/// A handle to an unresolved open-node event: a placeholder whose kind is
/// not decided yet.  A marker must be resolved exactly once, by `complete`
/// or by `abandon`; taking `self` by value enforces that no handle is used
/// twice.
pub struct Marker {
    /// The index of the placeholder event in the log.
    pub pos: usize,
    /// The completed region this marker was spliced in front of, if the
    /// marker came from `precede`.
    pub preceded: Ghost<Option<CompletedMarker>>,
}

/// The result of completing a marker: the open and close event indices of
/// a resolved region and its assigned kind.  Immutable thereafter, except
/// that it may be wrapped by exactly one later `precede`.
pub struct CompletedMarker {
    pub start_pos: usize,
    pub finish_pos: usize,
    pub kind: SyntaxKind,
}

/// The marker's placeholder still sits unresolved in the log; if the
/// marker came from `precede`, the forward-parent link of the preceded
/// region points at the placeholder.
pub open spec fn marker_live(m: Marker, pm: ParserModel) -> bool {
    &&& 0 <= m.pos < pm.evs.len()
    &&& pm.evs[m.pos as int] == tombstone_start()
    &&& match m.preceded@ {
        Some(c) => {
            &&& 0 <= c.start_pos < c.finish_pos < m.pos
            &&& c.kind != SyntaxKind::Tombstone
            &&& pm.evs[c.start_pos as int] == (Event::Start {
                kind: c.kind,
                forward_parent: Some((m.pos - c.start_pos) as usize),
            })
            &&& pm.evs[c.finish_pos as int] is Finish
        },
        None => true,
    }
}

/// The completed region's open and close events stand in the log with the
/// assigned kind.
pub open spec fn completed_in(c: CompletedMarker, pm: ParserModel) -> bool {
    &&& 0 <= c.start_pos < c.finish_pos < pm.evs.len()
    &&& c.kind != SyntaxKind::Tombstone
    &&& (pm.evs[c.start_pos as int] matches Event::Start { kind, .. } && kind == c.kind)
    &&& pm.evs[c.finish_pos as int] is Finish
}

/// A completed region that has not been preceded yet: its forward-parent
/// link is still free.
pub open spec fn completed_fresh(c: CompletedMarker, pm: ParserModel) -> bool {
    &&& completed_in(c, pm)
    &&& pm.evs[c.start_pos as int] == (Event::Start { kind: c.kind, forward_parent: None })
}

/// The region `c` is recorded, via the forward-parent link at its open
/// event, as the first child of the later-completed region `parent`.
pub open spec fn precedes_in(es: Seq<Event>, c: CompletedMarker, parent: CompletedMarker) -> bool {
    &&& 0 <= c.start_pos < c.finish_pos < parent.start_pos < parent.finish_pos < es.len()
    &&& c.kind != SyntaxKind::Tombstone
    &&& parent.kind != SyntaxKind::Tombstone
    &&& (es[c.start_pos as int] matches Event::Start { kind, forward_parent }
        && kind == c.kind
        && forward_parent == Some((parent.start_pos - c.start_pos) as usize))
    &&& es[c.finish_pos as int] is Finish
    &&& (es[parent.start_pos as int] matches Event::Start { kind, .. } && kind == parent.kind)
    &&& es[parent.finish_pos as int] is Finish
}

/// A live marker stays live across any call that only appends to the log
/// (or that touches the log at positions the old log did not reach).
pub proof fn lemma_marker_live_extend(m: Marker, pre: ParserModel, post: ParserModel)
    requires
        marker_live(m, pre),
        pre.evs.is_prefix_of(post.evs),
    ensures
        marker_live(m, post),
{
    crate::parser::lemma_prefix_keeps(pre.evs, post.evs, m.pos as int);
    match m.preceded@ {
        Some(c) => {
            crate::parser::lemma_prefix_keeps(pre.evs, post.evs, c.start_pos as int);
            crate::parser::lemma_prefix_keeps(pre.evs, post.evs, c.finish_pos as int);
        },
        None => {},
    }
}

impl Parser {
    /// Append a placeholder open-node event and hand back its marker.
    pub fn start(&mut self) -> (m: Marker)
        requires
            old(self)@.wf(),
        ensures
            final(self)@.wf(),
            final(self)@.toks == old(self)@.toks,
            final(self)@.pos == old(self)@.pos,
            final(self)@.evs == old(self)@.evs.push(tombstone_start()),
            m.pos == old(self)@.evs.len(),
            m.preceded@ is None,
            marker_live(m, final(self)@),
    {
        let pos = self.events.len();
        proof {
            lemma_counts_push(self.events@, tombstone_start());
            lemma_prefix_balanced_push(self.events@, tombstone_start());
            lemma_consumed_kinds_push(self.events@, tombstone_start());
            assert(consumed_kinds(self.events@) + token_kind_seq(tombstone_start())
                =~= consumed_kinds(self.events@));
        }
        self.events.push(Event::Start { kind: SyntaxKind::Tombstone, forward_parent: None });
        Marker { pos, preceded: Ghost(None) }
    }
}

impl Marker {
    /// Assign `kind` to the placeholder and append the matching close
    /// event.  If this marker came from `precede`, the region it preceded
    /// is now recorded as the new node's first child.
    pub fn complete(self, p: &mut Parser, kind: SyntaxKind) -> (c: CompletedMarker)
        requires
            old(p)@.wf(),
            marker_live(self, old(p)@),
            kind != SyntaxKind::Tombstone,
        ensures
            final(p)@.wf(),
            final(p)@.toks == old(p)@.toks,
            final(p)@.pos == old(p)@.pos,
            final(p)@.evs == old(p)@.evs.update(
                self.pos as int,
                Event::Start { kind, forward_parent: None },
            ).push(Event::Finish),
            c.start_pos == self.pos,
            c.finish_pos == old(p)@.evs.len(),
            c.kind == kind,
            completed_fresh(c, final(p)@),
            self.preceded@ matches Some(pr) ==> precedes_in(final(p)@.evs, pr, c),
    {
        let ghost pre = p.events@;
        proof {
            lemma_counts_update(
                p.events@,
                self.pos as int,
                Event::Start { kind, forward_parent: None },
            );
            lemma_consumed_kinds_update(
                p.events@,
                self.pos as int,
                Event::Start { kind, forward_parent: None },
            );
        }
        p.events[self.pos] = Event::Start { kind, forward_parent: None };
        let finish_pos = p.events.len();
        proof {
            let mid = p.events@;
            assert forall|j: int| 0 <= j <= mid.len() implies close_count(
                #[trigger] mid.subrange(0, j),
            ) <= open_count(mid.subrange(0, j)) by {
                lemma_prefix_counts_update(
                    pre,
                    self.pos as int,
                    Event::Start { kind, forward_parent: None },
                    j,
                );
            }
            lemma_counts_push(mid, Event::Finish);
            lemma_prefix_balanced_push(mid, Event::Finish);
            lemma_consumed_kinds_push(mid, Event::Finish);
            assert(consumed_kinds(mid) + token_kind_seq(Event::Finish) =~= consumed_kinds(mid));
        }
        p.events.push(Event::Finish);
        CompletedMarker { start_pos: self.pos, finish_pos, kind }
    }

    /// Resolve the marker as a no-op.  If nothing was written after the
    /// placeholder it is removed outright; otherwise it stays behind as a
    /// tombstone, and its would-be children are spliced into the enclosing
    /// node.
    pub fn abandon(self, p: &mut Parser)
        requires
            old(p)@.wf(),
            marker_live(self, old(p)@),
            self.preceded@ is None,
        ensures
            final(p)@.wf(),
            final(p)@.toks == old(p)@.toks,
            final(p)@.pos == old(p)@.pos,
            self.pos + 1 == old(p)@.evs.len() ==> final(p)@.evs == old(p)@.evs.drop_last(),
            self.pos + 1 < old(p)@.evs.len() ==> final(p)@.evs == old(p)@.evs,
    {
        proof {
            vstd::std_specs::vec::axiom_spec_len(&p.events);
        }
        if self.pos + 1 == p.events.len() {
            proof {
                lemma_counts_drop_last(p.events@);
                lemma_prefix_balanced_drop_last(p.events@);
                assert(consumed_kinds(p.events@.drop_last()) + token_kind_seq(p.events@.last())
                    =~= consumed_kinds(p.events@.drop_last()));
            }
            let _ = p.events.pop();
        }
    }
}

impl CompletedMarker {
    /// Create a new marker whose placeholder is spliced in immediately
    /// before this completed region, via the forward-parent link.  When
    /// the new marker completes, the tree builder nests this whole region
    /// as the new node's first child, without any token being re-scanned.
    pub fn precede(self, p: &mut Parser) -> (m: Marker)
        requires
            old(p)@.wf(),
            completed_fresh(self, old(p)@),
        ensures
            final(p)@.wf(),
            final(p)@.toks == old(p)@.toks,
            final(p)@.pos == old(p)@.pos,
            final(p)@.evs == old(p)@.evs.update(
                self.start_pos as int,
                Event::Start {
                    kind: self.kind,
                    forward_parent: Some((old(p)@.evs.len() - self.start_pos) as usize),
                },
            ).push(tombstone_start()),
            m.pos == old(p)@.evs.len(),
            m.preceded@ == Some(self),
            marker_live(m, final(p)@),
    {
        let ghost pre = p.events@;
        let new_pos = p.events.len();
        let offset = new_pos - self.start_pos;
        proof {
            lemma_counts_update(
                p.events@,
                self.start_pos as int,
                Event::Start { kind: self.kind, forward_parent: Some(offset) },
            );
            lemma_consumed_kinds_update(
                p.events@,
                self.start_pos as int,
                Event::Start { kind: self.kind, forward_parent: Some(offset) },
            );
        }
        p.events[self.start_pos] = Event::Start {
            kind: self.kind,
            forward_parent: Some(offset),
        };
        proof {
            let mid = p.events@;
            assert forall|j: int| 0 <= j <= mid.len() implies close_count(
                #[trigger] mid.subrange(0, j),
            ) <= open_count(mid.subrange(0, j)) by {
                lemma_prefix_counts_update(
                    pre,
                    self.start_pos as int,
                    Event::Start { kind: self.kind, forward_parent: Some(offset) },
                    j,
                );
            }
            lemma_counts_push(mid, tombstone_start());
            lemma_prefix_balanced_push(mid, tombstone_start());
            lemma_consumed_kinds_push(mid, tombstone_start());
            assert(consumed_kinds(mid) + token_kind_seq(tombstone_start()) =~= consumed_kinds(mid));
        }
        p.events.push(Event::Start { kind: SyntaxKind::Tombstone, forward_parent: None });
        Marker { pos: new_pos, preceded: Ghost(Some(self)) }
    }
}

} // verus!
