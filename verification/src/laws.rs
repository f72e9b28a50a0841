//! The structural guarantees the event-log model gives, stated once for
//! every reachable parser state.

use vstd::prelude::*;

use crate::event::{balanced, consumed_kinds, token_count, Event};
use crate::marker::{precedes_in, CompletedMarker};
use crate::parser::ParserModel;

verus! {

/// Totality and losslessness: in every well-formed parser state — so
/// after any sequence of grammar-rule and marker-algebra calls — the
/// consume-token events of the log, replayed in order, are exactly the
/// tokens the cursor has passed: every consumed token belongs to exactly
/// one consume-token event, in input order.  When a unit entry has run to
/// the end of the input, that replay is the whole input.
pub proof fn lemma_tokens_consumed_exactly_once(pm: ParserModel)
    requires
        pm.wf(),
    ensures
        consumed_kinds(pm.evs) == pm.toks.subrange(0, pm.pos),
        token_count(pm.evs) == pm.pos,
{
}

/// Well-nestedness: in every well-formed parser state — so after any
/// sequence of grammar-rule and marker-algebra calls — the event log,
/// with abandoned (tombstone) placeholders excised, passes the standard
/// bracket-matching check: no prefix closes more nodes than it has
/// opened, and every opened node is closed.
pub proof fn lemma_well_nested(pm: ParserModel)
    requires
        pm.wf(),
    ensures
        balanced(pm.evs),
{
}

/// Consume-token events accumulate monotonically along the log: an
/// earlier cut of the log has consumed no more tokens than a later one.
pub proof fn lemma_token_count_monotone(es: Seq<Event>, i: int, j: int)
    requires
        0 <= i <= j <= es.len(),
    ensures
        token_count(es.subrange(0, i)) <= token_count(es.subrange(0, j)),
    decreases j - i,
{
    if i < j {
        lemma_token_count_monotone(es, i, j - 1);
        assert(es.subrange(0, j).drop_last() =~= es.subrange(0, j - 1));
    }
}

/// Precede preserves order.  When a completed region `c` has been
/// preceded and the preceding marker completed as `parent`, the log
/// records `parent` as `c`'s retroactive parent: the forward-parent link
/// splices `parent`'s open event in immediately before `c`'s open event,
/// so the parent's region begins before `c`'s does, and the parent's
/// close event lies strictly after `c`'s close event.  Consequently `c`'s
/// whole consumed-token range is contained in the parent's: the tokens
/// consumed before `c` opens are exactly those consumed when the parent
/// opens, and the tokens consumed by `c`'s close never exceed those
/// consumed by the parent's close.
pub proof fn lemma_precede_preserves_order(
    es: Seq<Event>,
    c: CompletedMarker,
    parent: CompletedMarker,
)
    requires
        precedes_in(es, c, parent),
    ensures
        c.start_pos < c.finish_pos < parent.finish_pos,
        es[c.start_pos as int]->forward_parent == Some((parent.start_pos - c.start_pos) as usize),
        token_count(es.subrange(0, c.finish_pos as int)) <= token_count(
            es.subrange(0, parent.finish_pos as int),
        ),
        token_count(es.subrange(0, c.start_pos as int)) <= token_count(
            es.subrange(0, c.finish_pos as int),
        ),
{
    lemma_token_count_monotone(es, c.finish_pos as int, parent.finish_pos as int);
    lemma_token_count_monotone(es, c.start_pos as int, c.finish_pos as int);
}

} // verus!
