//! The token cursor and the shared parser state: one token stream, one
//! cursor position, one append-only event log.

use vstd::prelude::*;

use crate::event::{
    close_count, consumed_kinds, is_close_event, is_open_event, is_token_event,
    lemma_consumed_kinds_push, lemma_counts_push, lemma_prefix_balanced_push, open_count,
    prefix_balanced, token_count, token_kind_seq, Event,
};
use crate::syntax_kind::SyntaxKind;
use crate::token_set::TokenSet;

verus! {

/// The mathematical model of a parser: the token kinds of the input, the
/// cursor position, and the event log written so far.
pub struct ParserModel {
    pub toks: Seq<SyntaxKind>,
    pub pos: int,
    pub evs: Seq<Event>,
}

/// The placeholder event a freshly started marker writes.
pub open spec fn tombstone_start() -> Event {
    Event::Start { kind: SyntaxKind::Tombstone, forward_parent: None }
}

/// The events appended by recording an error and consuming one token,
/// wrapped in an error node.  At end of input no token is consumed.
pub open spec fn err_bump_events(k: SyntaxKind, msg: &'static str) -> Seq<Event> {
    if k == SyntaxKind::Eof {
        seq![
            Event::Start { kind: SyntaxKind::Error, forward_parent: None },
            Event::Error { msg },
            Event::Finish,
        ]
    } else {
        seq![
            Event::Start { kind: SyntaxKind::Error, forward_parent: None },
            Event::Error { msg },
            Event::Token { kind: k },
            Event::Finish,
        ]
    }
}

impl ParserModel {
    /// The kind under the cursor; `Eof` once the input is exhausted.
    pub open spec fn cur(self) -> SyntaxKind {
        if self.pos < self.toks.len() {
            self.toks[self.pos]
        } else {
            SyntaxKind::Eof
        }
    }

    /// Bounded lookahead: the kind `n` tokens ahead of the cursor.
    pub open spec fn nth(self, n: int) -> SyntaxKind {
        if self.pos + n < self.toks.len() {
            self.toks[self.pos + n]
        } else {
            SyntaxKind::Eof
        }
    }

    /// How many tokens are left in front of the cursor.
    pub open spec fn remaining(self) -> int {
        self.toks.len() - self.pos
    }

    /// Well-formedness: the cursor stays inside the input, the sentinel
    /// `Eof` never occurs as a real token, the consume-token events replay
    /// exactly the consumed prefix of the input — every consumed token in
    /// exactly one such event, in order — and the log passes the bracket
    /// check at all times (completion appends the close event in the same
    /// step that decides the open event's kind).
    pub open spec fn wf(self) -> bool {
        &&& 0 <= self.pos <= self.toks.len()
        &&& forall|i: int| 0 <= i < self.toks.len() ==> self.toks[i] != SyntaxKind::Eof
        &&& token_count(self.evs) == self.pos
        &&& consumed_kinds(self.evs) == self.toks.subrange(0, self.pos)
        &&& prefix_balanced(self.evs)
        &&& open_count(self.evs) == close_count(self.evs)
    }
}

/// How any grammar rule relates the parser state after the call to the one
/// before it: the input is untouched, the cursor only moves forward, and
/// the events written before the call survive unchanged as a prefix.
pub open spec fn rule_frame(pre: ParserModel, post: ParserModel) -> bool {
    &&& post.toks == pre.toks
    &&& pre.pos <= post.pos
    &&& pre.evs.is_prefix_of(post.evs)
}

/// The appended events form exactly one completed region of the given
/// kind: the region opens with the first appended event, stays open
/// through every proper prefix of the appended events, and only the final
/// appended event closes it — so every other appended event, and every
/// token consumed by the call, nests inside this one region, with no
/// sibling region beside it.
pub open spec fn wraps_node(pre: Seq<Event>, post: Seq<Event>, kind: SyntaxKind) -> bool {
    let app = post.subrange(pre.len() as int, post.len() as int);
    &&& pre.len() + 2 <= post.len()
    &&& app[0] == (Event::Start { kind, forward_parent: None })
    &&& app.last() is Finish
    &&& open_count(app) == close_count(app)
    &&& forall|i: int|
        0 < i < app.len() ==> close_count(#[trigger] app.subrange(0, i)) < open_count(
            app.subrange(0, i),
        )
}

/// The appended events form one completed region of some kind: opened by
/// the first appended event, closed by the last, balanced in between.
/// This is what a rule whose root may later be re-parented (its open
/// event's forward-parent link rewritten by `precede`) can still promise.
pub open spec fn appended_region(pre: ParserModel, post: ParserModel) -> bool {
    let app = post.evs.subrange(pre.evs.len() as int, post.evs.len() as int);
    &&& pre.evs.len() + 2 <= post.evs.len()
    &&& app[0] is Start
    &&& app.last() is Finish
    &&& crate::event::balanced(app)
}

pub proof fn lemma_wraps_region(pre: ParserModel, post: ParserModel, kind: SyntaxKind)
    requires
        wraps_node(pre.evs, post.evs, kind),
    ensures
        appended_region(pre, post),
{
    let app = post.evs.subrange(pre.evs.len() as int, post.evs.len() as int);
    assert forall|i: int| 0 <= i <= app.len() implies close_count(#[trigger] app.subrange(0, i))
        <= open_count(app.subrange(0, i)) by {
        if i == 0 {
            assert(app.subrange(0, 0) =~= Seq::<Event>::empty());
        } else if i == app.len() {
            assert(app.subrange(0, i) =~= app);
        }
    }
}

/// Recording an error and consuming at most one token, wrapped in an
/// error node, appends exactly one completed error region.
pub proof fn lemma_err_bump_wraps(pre: Seq<Event>, post: Seq<Event>, k: SyntaxKind, msg: &'static str)
    requires
        post == pre + err_bump_events(k, msg),
    ensures
        pre.is_prefix_of(post),
        wraps_node(pre, post, SyntaxKind::Error),
{
    let app = post.subrange(pre.len() as int, post.len() as int);
    assert(app =~= err_bump_events(k, msg));
    lemma_extend_prefix(pre, post);
    let e0 = Event::Start { kind: SyntaxKind::Error, forward_parent: None };
    let e1 = Event::Error { msg };
    let s0 = Seq::<Event>::empty();
    let s1 = s0.push(e0);
    let s2 = s1.push(e1);
    crate::event::lemma_counts_push(s0, e0);
    crate::event::lemma_counts_push(s1, e1);
    assert(app.subrange(0, 1) =~= s1);
    assert(app.subrange(0, 2) =~= s2);
    if k == SyntaxKind::Eof {
        let s3 = s2.push(Event::Finish);
        crate::event::lemma_counts_push(s2, Event::Finish);
        assert(app =~= s3);
    } else {
        let e2 = Event::Token { kind: k };
        let s3 = s2.push(e2);
        let s4 = s3.push(Event::Finish);
        crate::event::lemma_counts_push(s2, e2);
        crate::event::lemma_counts_push(s3, Event::Finish);
        assert(app.subrange(0, 3) =~= s3);
        assert(app =~= s4);
    }
}

/// An event survives in any extension of the log it belongs to.
pub proof fn lemma_prefix_keeps(pre: Seq<Event>, post: Seq<Event>, i: int)
    requires
        pre.is_prefix_of(post),
        0 <= i < pre.len(),
    ensures
        post[i] == pre[i],
{
    assert(pre[i] == post.subrange(0, pre.len() as int)[i]);
}

/// A log that keeps every old event in place extends the old log.
pub proof fn lemma_extend_prefix(pre: Seq<Event>, post: Seq<Event>)
    requires
        post.len() >= pre.len(),
        forall|i: int| 0 <= i < pre.len() ==> post[i] == pre[i],
    ensures
        pre.is_prefix_of(post),
{
    assert(post.subrange(0, pre.len() as int) =~= pre);
}

pub proof fn lemma_prefix_trans(a: Seq<Event>, b: Seq<Event>, c: Seq<Event>)
    requires
        a.is_prefix_of(b),
        b.is_prefix_of(c),
    ensures
        a.is_prefix_of(c),
{
    assert forall|i: int| 0 <= i < a.len() implies c[i] == a[i] by {
        lemma_prefix_keeps(a, b, i);
        lemma_prefix_keeps(b, c, i);
    }
    lemma_extend_prefix(a, c);
}

/// The parser: a finite, already-lexed token stream, a cursor over it, and
/// the structural event log being written.
pub struct Parser {
    pub tokens: Vec<SyntaxKind>,
    pub pos: usize,
    pub events: Vec<Event>,
}

impl View for Parser {
    type V = ParserModel;

    open spec fn view(&self) -> ParserModel {
        ParserModel { toks: self.tokens@, pos: self.pos as int, evs: self.events@ }
    }
}

impl Parser {
    /// A parser over `tokens`, at the first token, with an empty log.
    pub fn new(tokens: Vec<SyntaxKind>) -> (p: Parser)
        requires
            forall|i: int| 0 <= i < tokens@.len() ==> tokens@[i] != SyntaxKind::Eof,
        ensures
            p@.wf(),
            p@.toks == tokens@,
            p@.pos == 0,
            p@.evs =~= Seq::<Event>::empty(),
    {
        let p = Parser { tokens, pos: 0, events: Vec::new() };
        proof {
            assert(consumed_kinds(p@.evs) =~= p@.toks.subrange(0, 0));
            assert forall|i: int| 0 <= i <= p@.evs.len() implies close_count(
                #[trigger] p@.evs.subrange(0, i),
            ) <= open_count(p@.evs.subrange(0, i)) by {
                assert(p@.evs.subrange(0, i) =~= Seq::<Event>::empty());
            }
        }
        p
    }

    /// The kind under the cursor.
    pub fn current(&self) -> (k: SyntaxKind)
        ensures
            k == self@.cur(),
    {
        if self.pos < self.tokens.len() {
            self.tokens[self.pos]
        } else {
            SyntaxKind::Eof
        }
    }

    /// Bounded lookahead, at most three tokens ahead.
    pub fn nth(&self, n: usize) -> (k: SyntaxKind)
        requires
            self@.wf(),
            n <= 3,
        ensures
            k == self@.nth(n as int),
    {
        if n < self.tokens.len() - self.pos {
            self.tokens[self.pos + n]
        } else {
            SyntaxKind::Eof
        }
    }

    /// Whether the cursor sits on `kind`.
    pub fn at(&self, kind: SyntaxKind) -> (r: bool)
        ensures
            r == (self@.cur() == kind),
    {
        self.current() == kind
    }

    /// Whether the token `n` ahead is `kind`.
    pub fn nth_at(&self, n: usize, kind: SyntaxKind) -> (r: bool)
        requires
            self@.wf(),
            n <= 3,
        ensures
            r == (self@.nth(n as int) == kind),
    {
        self.nth(n) == kind
    }

    /// Consume the current token, asserting its kind.
    pub fn bump(&mut self, kind: SyntaxKind)
        requires
            old(self)@.wf(),
            old(self)@.cur() == kind,
            kind != SyntaxKind::Eof,
        ensures
            final(self)@.wf(),
            final(self)@.toks == old(self)@.toks,
            final(self)@.pos == old(self)@.pos + 1,
            final(self)@.evs == old(self)@.evs.push(Event::Token { kind }),
    {
        proof {
            lemma_counts_push(self.events@, Event::Token { kind });
            lemma_prefix_balanced_push(self.events@, Event::Token { kind });
            lemma_consumed_kinds_push(self.events@, Event::Token { kind });
            vstd::std_specs::vec::axiom_spec_len(&self.tokens);
            assert(self@.toks.subrange(0, self@.pos).push(kind) =~= self@.toks.subrange(
                0,
                self@.pos + 1,
            ));
            assert(consumed_kinds(self@.evs) + token_kind_seq(Event::Token { kind })
                =~= consumed_kinds(self@.evs).push(kind));
        }
        self.events.push(Event::Token { kind });
        self.pos = self.pos + 1;
    }

    /// Consume the current token whatever it is; a no-op at end of input.
    pub fn bump_any(&mut self)
        requires
            old(self)@.wf(),
        ensures
            final(self)@.wf(),
            final(self)@.toks == old(self)@.toks,
            old(self)@.cur() == SyntaxKind::Eof ==> final(self)@ == old(self)@,
            old(self)@.cur() != SyntaxKind::Eof ==> final(self)@.pos == old(self)@.pos + 1
                && final(self)@.evs == old(self)@.evs.push(
                Event::Token { kind: old(self)@.cur() },
            ),
    {
        let k = self.current();
        if k != SyntaxKind::Eof {
            self.bump(k);
        }
    }

    /// Consume the current token if it is `kind`; report whether it was.
    pub fn eat(&mut self, kind: SyntaxKind) -> (r: bool)
        requires
            old(self)@.wf(),
            kind != SyntaxKind::Eof,
        ensures
            final(self)@.wf(),
            final(self)@.toks == old(self)@.toks,
            r == (old(self)@.cur() == kind),
            r ==> final(self)@.pos == old(self)@.pos + 1 && final(self)@.evs == old(
                self,
            )@.evs.push(Event::Token { kind }),
            !r ==> final(self)@ == old(self)@,
    {
        if self.at(kind) {
            self.bump(kind);
            true
        } else {
            false
        }
    }

    /// Record an error at the current position; nothing is consumed.
    pub fn error(&mut self, message: &'static str)
        requires
            old(self)@.wf(),
        ensures
            final(self)@.wf(),
            final(self)@.toks == old(self)@.toks,
            final(self)@.pos == old(self)@.pos,
            final(self)@.evs == old(self)@.evs.push(Event::Error { msg: message }),
    {
        proof {
            lemma_counts_push(self.events@, Event::Error { msg: message });
            lemma_prefix_balanced_push(self.events@, Event::Error { msg: message });
            lemma_consumed_kinds_push(self.events@, Event::Error { msg: message });
            assert(consumed_kinds(self.events@) + token_kind_seq(Event::Error { msg: message })
                =~= consumed_kinds(self.events@));
        }
        self.events.push(Event::Error { msg: message });
    }

    /// Consume the current token if it is `kind`; otherwise record an
    /// error without consuming anything.
    pub fn expect(&mut self, kind: SyntaxKind) -> (r: bool)
        requires
            old(self)@.wf(),
            kind != SyntaxKind::Eof,
        ensures
            final(self)@.wf(),
            final(self)@.toks == old(self)@.toks,
            r == (old(self)@.cur() == kind),
            r ==> final(self)@.pos == old(self)@.pos + 1 && final(self)@.evs == old(
                self,
            )@.evs.push(Event::Token { kind }),
            !r ==> final(self)@.pos == old(self)@.pos && final(self)@.evs.len() == old(
                self,
            )@.evs.len() + 1 && final(self)@.evs.last() is Error && old(self)@.evs.is_prefix_of(
                final(self)@.evs,
            ),
    {
        if self.eat(kind) {
            true
        } else {
            self.error("expected a different token");
            proof {
                assert(self.events@.subrange(0, old(self)@.evs.len() as int) =~= old(self)@.evs);
            }
            false
        }
    }

    /// Record an error and consume one token, wrapped in an error node:
    /// the recovery primitive that always makes progress.  At end of input
    /// only the error is recorded.
    pub fn err_and_bump(&mut self, message: &'static str)
        requires
            old(self)@.wf(),
        ensures
            final(self)@.wf(),
            final(self)@.toks == old(self)@.toks,
            final(self)@.evs == old(self)@.evs + err_bump_events(old(self)@.cur(), message),
            old(self)@.cur() != SyntaxKind::Eof ==> final(self)@.pos == old(self)@.pos + 1,
            old(self)@.cur() == SyntaxKind::Eof ==> final(self)@.pos == old(self)@.pos,
    {
        let k = self.current();
        proof {
            lemma_counts_push(
                self.events@,
                Event::Start { kind: SyntaxKind::Error, forward_parent: None },
            );
            lemma_prefix_balanced_push(
                self.events@,
                Event::Start { kind: SyntaxKind::Error, forward_parent: None },
            );
            lemma_consumed_kinds_push(
                self.events@,
                Event::Start { kind: SyntaxKind::Error, forward_parent: None },
            );
            assert(consumed_kinds(self.events@) + token_kind_seq(
                Event::Start { kind: SyntaxKind::Error, forward_parent: None },
            ) =~= consumed_kinds(self.events@));
        }
        self.events.push(Event::Start { kind: SyntaxKind::Error, forward_parent: None });
        proof {
            lemma_counts_push(self.events@, Event::Error { msg: message });
            lemma_prefix_balanced_push(self.events@, Event::Error { msg: message });
            lemma_consumed_kinds_push(self.events@, Event::Error { msg: message });
            assert(consumed_kinds(self.events@) + token_kind_seq(Event::Error { msg: message })
                =~= consumed_kinds(self.events@));
        }
        self.events.push(Event::Error { msg: message });
        if k != SyntaxKind::Eof {
            proof {
                lemma_counts_push(self.events@, Event::Token { kind: k });
                lemma_prefix_balanced_push(self.events@, Event::Token { kind: k });
                lemma_consumed_kinds_push(self.events@, Event::Token { kind: k });
                vstd::std_specs::vec::axiom_spec_len(&self.tokens);
                assert(self@.toks.subrange(0, self@.pos).push(k) =~= self@.toks.subrange(
                    0,
                    self@.pos + 1,
                ));
                assert(consumed_kinds(self@.evs) + token_kind_seq(Event::Token { kind: k })
                    =~= consumed_kinds(self@.evs).push(k));
            }
            self.events.push(Event::Token { kind: k });
            self.pos = self.pos + 1;
        }
        proof {
            lemma_counts_push(self.events@, Event::Finish);
            lemma_prefix_balanced_push(self.events@, Event::Finish);
            lemma_consumed_kinds_push(self.events@, Event::Finish);
            assert(consumed_kinds(self.events@) + token_kind_seq(Event::Finish) =~= consumed_kinds(
                self.events@,
            ));
        }
        self.events.push(Event::Finish);
        proof {
            assert(self.events@ =~= old(self)@.evs + err_bump_events(old(self)@.cur(), message));
        }
    }

    /// Whether `err_recover` would stop without consuming: at a structural
    /// brace, at end of input, or at a kind in the caller's recovery set.
    pub open spec fn recover_stop(pre: ParserModel, recovery: TokenSet) -> bool {
        ||| pre.cur() == SyntaxKind::LCurly
        ||| pre.cur() == SyntaxKind::RCurly
        ||| pre.cur() == SyntaxKind::Eof
        ||| recovery.has(pre.cur())
    }

    /// Record an error, then skip one token unless the cursor already sits
    /// at a structural brace, at end of input, or at a kind in `recovery`:
    /// the caller's stop-set bounds the damage to the current construct.
    pub fn err_recover(&mut self, message: &'static str, recovery: TokenSet)
        requires
            old(self)@.wf(),
        ensures
            final(self)@.wf(),
            final(self)@.toks == old(self)@.toks,
            Self::recover_stop(old(self)@, recovery) ==> final(self)@.pos == old(self)@.pos
                && final(self)@.evs == old(self)@.evs.push(Event::Error { msg: message }),
            !Self::recover_stop(old(self)@, recovery) ==> final(self)@.pos == old(self)@.pos + 1
                && final(self)@.evs == old(self)@.evs + err_bump_events(old(self)@.cur(), message),
    {
        let k = self.current();
        if k == SyntaxKind::LCurly || k == SyntaxKind::RCurly || k == SyntaxKind::Eof
            || recovery.contains(k) {
            self.error(message);
        } else {
            self.err_and_bump(message);
        }
    }
}

} // verus!
