//! The structural event log and its counting model.
//!
//! An event log is an append-only sequence of events.  The only in-place
//! reinterpretations ever made are: assigning a kind to a placeholder
//! open-node event (completion), recording a forward-parent link on an
//! already completed open-node event (precede), and removing a trailing
//! placeholder that was never given children (abandon).

use vstd::prelude::*;

use crate::syntax_kind::SyntaxKind;

verus! {

/// One structural parse action.
///
/// * `Start` opens a node.  While its kind is `Tombstone` it is a
///   placeholder (an unresolved or abandoned marker); the tree builder
///   skips tombstones.  `forward_parent` is the offset, forward in the log,
///   of an open-node event that must be spliced in as this node's parent.
/// * `Finish` closes the most recently still-open node.
/// * `Token` records that the token under the cursor was consumed.
/// * `Error` records a diagnostic at the current position.
#[derive(Clone, Debug)]
pub enum Event {
    Start { kind: SyntaxKind, forward_parent: Option<usize> },
    Finish,
    Token { kind: SyntaxKind },
    Error { msg: &'static str },
}

/// An open-node event that counts for bracket matching: a `Start` whose
/// kind has been decided (tombstones are excised).
pub open spec fn is_open_event(e: Event) -> bool {
    e matches Event::Start { kind, .. } && kind != SyntaxKind::Tombstone
}

pub open spec fn is_close_event(e: Event) -> bool {
    e is Finish
}

pub open spec fn is_token_event(e: Event) -> bool {
    e is Token
}

pub open spec fn open_count(es: Seq<Event>) -> int
    decreases es.len(),
{
    if es.len() == 0 {
        0
    } else {
        open_count(es.drop_last()) + if is_open_event(es.last()) {
            1int
        } else {
            0int
        }
    }
}

pub open spec fn close_count(es: Seq<Event>) -> int
    decreases es.len(),
{
    if es.len() == 0 {
        0
    } else {
        close_count(es.drop_last()) + if is_close_event(es.last()) {
            1int
        } else {
            0int
        }
    }
}

/// How many consume-token events the log holds.
pub open spec fn token_count(es: Seq<Event>) -> int
    decreases es.len(),
{
    if es.len() == 0 {
        0
    } else {
        token_count(es.drop_last()) + if is_token_event(es.last()) {
            1int
        } else {
            0int
        }
    }
}

/// The kinds an event contributes to the replay of consumed tokens: one
/// kind for a consume-token event, none for anything else.
pub open spec fn token_kind_seq(e: Event) -> Seq<SyntaxKind> {
    match e {
        Event::Token { kind } => seq![kind],
        _ => Seq::empty(),
    }
}

/// Replaying the log's consume-token events, in order: the token kinds
/// the parse consumed.
pub open spec fn consumed_kinds(es: Seq<Event>) -> Seq<SyntaxKind>
    decreases es.len(),
{
    if es.len() == 0 {
        Seq::empty()
    } else {
        consumed_kinds(es.drop_last()) + token_kind_seq(es.last())
    }
}

pub proof fn lemma_consumed_kinds_push(es: Seq<Event>, e: Event)
    ensures
        consumed_kinds(es.push(e)) == consumed_kinds(es) + token_kind_seq(e),
{
    assert(es.push(e).drop_last() =~= es);
    assert(es.push(e).last() == e);
}

pub proof fn lemma_consumed_kinds_update(es: Seq<Event>, i: int, e: Event)
    requires
        0 <= i < es.len(),
        !is_token_event(e),
        !is_token_event(es[i]),
    ensures
        consumed_kinds(es.update(i, e)) == consumed_kinds(es),
    decreases es.len(),
{
    if i == es.len() - 1 {
        assert(es.update(i, e).drop_last() =~= es.drop_last());
        assert(es.update(i, e).last() == e);
        assert(consumed_kinds(es.drop_last()) + token_kind_seq(e) =~= consumed_kinds(
            es.drop_last(),
        ) + token_kind_seq(es.last()));
    } else {
        assert(es.update(i, e).drop_last() =~= es.drop_last().update(i, e));
        assert(es.update(i, e).last() == es.last());
        lemma_consumed_kinds_update(es.drop_last(), i, e);
    }
}

/// In every prefix of the log, close events never outnumber the decided
/// open events.
pub open spec fn prefix_balanced(es: Seq<Event>) -> bool {
    forall|i: int|
        0 <= i <= es.len() ==> close_count(#[trigger] es.subrange(0, i)) <= open_count(
            es.subrange(0, i),
        )
}

/// The standard bracket-matching check over the log, tombstones excised:
/// no prefix closes more nodes than it has opened, and at the end every
/// opened node is closed.
pub open spec fn balanced(es: Seq<Event>) -> bool {
    &&& prefix_balanced(es)
    &&& close_count(es) == open_count(es)
}

pub proof fn lemma_counts_push(es: Seq<Event>, e: Event)
    ensures
        open_count(es.push(e)) == open_count(es) + if is_open_event(e) {
            1int
        } else {
            0int
        },
        close_count(es.push(e)) == close_count(es) + if is_close_event(e) {
            1int
        } else {
            0int
        },
        token_count(es.push(e)) == token_count(es) + if is_token_event(e) {
            1int
        } else {
            0int
        },
{
    assert(es.push(e).drop_last() =~= es);
    assert(es.push(e).last() == e);
}

pub proof fn lemma_counts_concat(a: Seq<Event>, b: Seq<Event>)
    ensures
        open_count(a + b) == open_count(a) + open_count(b),
        close_count(a + b) == close_count(a) + close_count(b),
        token_count(a + b) == token_count(a) + token_count(b),
    decreases b.len(),
{
    if b.len() == 0 {
        assert(a + b =~= a);
    } else {
        assert((a + b).drop_last() =~= a + b.drop_last());
        assert((a + b).last() == b.last());
        lemma_counts_concat(a, b.drop_last());
    }
}

/// What a balanced log grew by since a balanced earlier cut is itself
/// balanced: the events any call appended pass the bracket check on
/// their own.
pub proof fn lemma_balanced_diff(pre: Seq<Event>, post: Seq<Event>)
    requires
        pre.is_prefix_of(post),
        balanced(pre),
        balanced(post),
    ensures
        balanced(post.subrange(pre.len() as int, post.len() as int)),
{
    let suf = post.subrange(pre.len() as int, post.len() as int);
    assert(post =~= pre + suf);
    lemma_counts_concat(pre, suf);
    assert forall|i: int| 0 <= i <= suf.len() implies close_count(#[trigger] suf.subrange(0, i))
        <= open_count(suf.subrange(0, i)) by {
        assert(post.subrange(0, pre.len() + i) =~= pre + suf.subrange(0, i));
        lemma_counts_concat(pre, suf.subrange(0, i));
        assert(close_count(post.subrange(0, pre.len() + i)) <= open_count(
            post.subrange(0, pre.len() + i),
        ));
    }
}

pub proof fn lemma_counts_update(es: Seq<Event>, i: int, e: Event)
    requires
        0 <= i < es.len(),
    ensures
        open_count(es.update(i, e)) == open_count(es) + (if is_open_event(e) {
            1int
        } else {
            0int
        }) - (if is_open_event(es[i]) {
            1int
        } else {
            0int
        }),
        close_count(es.update(i, e)) == close_count(es) + (if is_close_event(e) {
            1int
        } else {
            0int
        }) - (if is_close_event(es[i]) {
            1int
        } else {
            0int
        }),
        token_count(es.update(i, e)) == token_count(es) + (if is_token_event(e) {
            1int
        } else {
            0int
        }) - (if is_token_event(es[i]) {
            1int
        } else {
            0int
        }),
    decreases es.len(),
{
    if i == es.len() - 1 {
        assert(es.update(i, e).drop_last() =~= es.drop_last());
        assert(es.update(i, e).last() == e);
    } else {
        assert(es.update(i, e).drop_last() =~= es.drop_last().update(i, e));
        assert(es.update(i, e).last() == es.last());
        lemma_counts_update(es.drop_last(), i, e);
    }
}

/// A prefix of the log is untouched by appending.
pub proof fn lemma_subrange_push(es: Seq<Event>, e: Event, i: int)
    requires
        0 <= i <= es.len(),
    ensures
        es.push(e).subrange(0, i) =~= es.subrange(0, i),
{
}

/// Appending an event keeps the prefix-balance discipline, as long as a
/// close event is only appended while some opened node is still open.
pub proof fn lemma_prefix_balanced_push(es: Seq<Event>, e: Event)
    requires
        prefix_balanced(es),
        is_close_event(e) ==> close_count(es) < open_count(es),
    ensures
        prefix_balanced(es.push(e)),
{
    let post = es.push(e);
    assert forall|i: int| 0 <= i <= post.len() implies close_count(#[trigger] post.subrange(0, i))
        <= open_count(post.subrange(0, i)) by {
        if i <= es.len() {
            lemma_subrange_push(es, e, i);
            assert(es.subrange(0, i) == post.subrange(0, i));
        } else {
            assert(post.subrange(0, i) =~= post);
            assert(es.subrange(0, es.len() as int) =~= es);
            lemma_counts_push(es, e);
        }
    }
}

/// Updating an event in place shifts every prefix count that reaches the
/// updated position by the difference of the two events' contributions.
pub proof fn lemma_prefix_counts_update(es: Seq<Event>, i: int, e: Event, j: int)
    requires
        0 <= i < es.len(),
        0 <= j <= es.len(),
        !is_close_event(e),
        !is_close_event(es[i]),
        !is_token_event(e),
        !is_token_event(es[i]),
    ensures
        j <= i ==> es.update(i, e).subrange(0, j) == es.subrange(0, j),
        j > i ==> open_count(es.update(i, e).subrange(0, j)) == open_count(es.subrange(0, j)) + (
        if is_open_event(e) {
            1int
        } else {
            0int
        }) - (if is_open_event(es[i]) {
            1int
        } else {
            0int
        }),
        j > i ==> close_count(es.update(i, e).subrange(0, j)) == close_count(es.subrange(0, j)),
        j > i ==> token_count(es.update(i, e).subrange(0, j)) == token_count(es.subrange(0, j)),
{
    if j <= i {
        assert(es.update(i, e).subrange(0, j) =~= es.subrange(0, j));
    } else {
        assert(es.update(i, e).subrange(0, j) =~= es.subrange(0, j).update(i, e));
        lemma_counts_update(es.subrange(0, j), i, e);
        assert(es.subrange(0, j)[i] == es[i]);
    }
}

/// Removing a trailing placeholder leaves every count, and the balance
/// discipline, untouched.
pub proof fn lemma_counts_drop_last(es: Seq<Event>)
    requires
        es.len() > 0,
    ensures
        open_count(es.drop_last()) == open_count(es) - if is_open_event(es.last()) {
            1int
        } else {
            0int
        },
        close_count(es.drop_last()) == close_count(es) - if is_close_event(es.last()) {
            1int
        } else {
            0int
        },
        token_count(es.drop_last()) == token_count(es) - if is_token_event(es.last()) {
            1int
        } else {
            0int
        },
{
}

pub proof fn lemma_prefix_balanced_drop_last(es: Seq<Event>)
    requires
        prefix_balanced(es),
        es.len() > 0,
    ensures
        prefix_balanced(es.drop_last()),
{
    let post = es.drop_last();
    assert forall|i: int| 0 <= i <= post.len() implies close_count(#[trigger] post.subrange(0, i))
        <= open_count(post.subrange(0, i)) by {
        assert(post.subrange(0, i) =~= es.subrange(0, i));
    }
}

} // verus!
