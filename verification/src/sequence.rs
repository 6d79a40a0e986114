//! A cyclic sequence of events: an ordered list of tokens and a cursor that
//! walks it round and round.

use crate::text::{tokenize, tokens_of};
use vstd::arithmetic::div_mod::{
    lemma_fundamental_div_mod, lemma_fundamental_div_mod_converse, lemma_mod_multiples_vanish,
    lemma_mod_pos_bound, lemma_small_mod,
};
use vstd::prelude::*;
use vstd::string::StringExecFns;

verus! {

/// The token that stands for "no event": what an empty sequence yields, and
/// what a line may hold to keep a step silent.
pub open spec fn rest() -> Seq<char> {
    seq!['~']
}

/// What a sequence is: its tokens in playing order, and the index of the
/// token that is played next.
pub struct SequenceView {
    pub events: Seq<Seq<char>>,
    pub cursor: nat,
}

impl SequenceView {
    /// The cursor points at a token; a sequence without tokens keeps it at 0.
    pub open spec fn wf(self) -> bool {
        if self.events.len() == 0 {
            self.cursor == 0
        } else {
            self.cursor < self.events.len()
        }
    }

    /// A new sequence over `tokens`: it starts at the first of them.
    pub open spec fn fresh(tokens: Seq<Seq<char>>) -> SequenceView {
        SequenceView { events: tokens, cursor: 0 }
    }

    /// The token that is played next: the one under the cursor, or the rest
    /// where there is none.
    pub open spec fn current(self) -> Seq<char> {
        if self.events.len() == 0 {
            rest()
        } else {
            self.events[self.cursor as int]
        }
    }

    /// The sequence after one token was played: the cursor has moved on by
    /// one and is back at the start after the last token. A sequence without
    /// tokens stays as it is.
    pub open spec fn advance(self) -> SequenceView {
        if self.events.len() == 0 {
            self
        } else if self.cursor + 1 == self.events.len() {
            SequenceView { cursor: 0, ..self }
        } else {
            SequenceView { cursor: self.cursor + 1, ..self }
        }
    }

    /// The sequence after `n` tokens were played.
    pub open spec fn after(self, n: nat) -> SequenceView
        decreases n,
    {
        if n == 0 {
            self
        } else {
            self.after((n - 1) as nat).advance()
        }
    }

    /// The sequence with its tokens replaced by `tokens`. The cursor stays
    /// where it still points at a token, else it moves back to the last one
    /// (to 0 where there is none).
    pub open spec fn replaced(self, tokens: Seq<Seq<char>>) -> SequenceView {
        SequenceView {
            events: tokens,
            cursor: if self.cursor < tokens.len() {
                self.cursor
            } else if tokens.len() == 0 {
                0
            } else {
                (tokens.len() - 1) as nat
            },
        }
    }
}

/// A sequence of events given by a line of text, played in a cycle.
pub struct EventSequence {
    events: Vec<String>,
    cursor: usize,
}

impl View for EventSequence {
    type V = SequenceView;

    closed spec fn view(&self) -> SequenceView {
        SequenceView { events: self.events.deep_view(), cursor: self.cursor as nat }
    }
}

impl DeepView for EventSequence {
    type V = SequenceView;

    open spec fn deep_view(&self) -> SequenceView {
        self@
    }
}

impl EventSequence {
    #[verifier::type_invariant]
    spec fn inv(self) -> bool {
        self@.wf()
    }

    /// Creates the sequence of the tokens of `input_line`, with the cursor
    /// on the first of them.
    pub fn from_string(input_line: String) -> (seq: EventSequence)
        ensures
            seq@ == SequenceView::fresh(tokens_of(input_line@)),
            seq@.wf(),
    {
        let events = tokenize(input_line.as_str());
        EventSequence { events, cursor: 0 }
    }

    /// Replaces the tokens by those of `input_line`. The cursor keeps its
    /// place unless the new line is too short for it.
    pub fn update_sequence(&mut self, input_line: String)
        ensures
            final(self)@ == old(self)@.replaced(tokens_of(input_line@)),
            final(self)@.wf(),
    {
        let events = tokenize(input_line.as_str());
        let n = events.len();
        let cursor = if self.cursor < n {
            self.cursor
        } else if n == 0 {
            0
        } else {
            n - 1
        };
        *self = EventSequence { events, cursor };
    }

    /// Gives the token under the cursor and moves the cursor on, back to the
    /// start after the last token. A sequence without tokens gives the rest
    /// and does not change.
    pub fn get_next_event(&mut self) -> (event: String)
        ensures
            event@ == old(self)@.current(),
            final(self)@ == old(self)@.advance(),
            final(self)@.wf(),
    {
        proof {
            use_type_invariant(&*self);
        }
        if self.events.len() == 0 {
            proof {
                reveal_strlit("~");
            }
            let event = String::from_str("~");
            assert(event@ =~= rest());
            return event;
        }
        let at = self.cursor;
        if self.cursor + 1 == self.events.len() {
            self.cursor = 0;
        } else {
            self.cursor += 1;
        }
        self.events[at].clone()
    }

    /// The number of tokens.
    pub fn len(&self) -> (n: usize)
        ensures
            n == self@.events.len(),
            self@.wf(),
    {
        proof {
            use_type_invariant(self);
        }
        self.events.len()
    }

    /// The index of the token that is played next.
    pub fn cursor(&self) -> (at: usize)
        ensures
            at == self@.cursor,
            self@.wf(),
    {
        proof {
            use_type_invariant(self);
        }
        self.cursor
    }
}

/// The step from one index of a cycle of `len` to the next is the step from
/// `x` to `x + 1` modulo `len`.
proof fn lemma_mod_step(x: int, len: int)
    requires
        0 <= x,
        0 < len,
    ensures
        (x + 1) % len == if x % len + 1 == len {
            0
        } else {
            x % len + 1
        },
{
    lemma_fundamental_div_mod(x, len);
    lemma_mod_pos_bound(x, len);
    let q = x / len;
    let r = x % len;
    assert(len * q == q * len) by (nonlinear_arith);
    if r + 1 == len {
        assert(x + 1 == (q + 1) * len + 0) by (nonlinear_arith)
            requires
                x == q * len + r,
                r + 1 == len,
        ;
        lemma_fundamental_div_mod_converse(x + 1, len, q + 1, 0);
    } else {
        lemma_fundamental_div_mod_converse(x + 1, len, q, r + 1);
    }
}

/// Playing changes no token and leaves the sequence well formed.
pub proof fn lemma_after_keeps_events(v: SequenceView, n: nat)
    requires
        v.wf(),
    ensures
        v.after(n).events == v.events,
        v.after(n).wf(),
    decreases n,
{
    if n > 0 {
        lemma_after_keeps_events(v, (n - 1) as nat);
    }
}

/// A sequence is a cycle: after `n` tokens were played the cursor stands `n`
/// places further on, counted round the sequence, and the next token played
/// is the one at that place.
pub proof fn lemma_cyclic(v: SequenceView, n: nat)
    requires
        v.wf(),
        v.events.len() > 0,
    ensures
        v.after(n).cursor == (v.cursor + n) % v.events.len(),
        v.after(n).current() == v.events[((v.cursor + n) % v.events.len()) as int],
    decreases n,
{
    let len = v.events.len() as int;
    lemma_after_keeps_events(v, n);
    if n == 0 {
        lemma_small_mod(v.cursor, v.events.len());
    } else {
        lemma_cyclic(v, (n - 1) as nat);
        lemma_after_keeps_events(v, (n - 1) as nat);
        lemma_mod_step(v.cursor + n - 1, len);
    }
}

/// Played from its start, a sequence yields each of its tokens once, in
/// their order, and then begins again: in every round `m`, the token played
/// at step `k` of the round is token `k`.
pub proof fn lemma_each_token_once_per_round(v: SequenceView, m: nat, k: nat)
    requires
        v.wf(),
        v.cursor == 0,
        k < v.events.len(),
    ensures
        v.after(m * v.events.len() + k).current() == v.events[k as int],
{
    let len = v.events.len() as int;
    lemma_cyclic(v, m * v.events.len() + k);
    lemma_mod_multiples_vanish(m as int, k as int, len);
    lemma_small_mod(k, v.events.len());
    assert(m * len + k == len * m + k) by (nonlinear_arith);
}

/// After any number of full rounds a sequence is as it was.
pub proof fn lemma_full_rounds(v: SequenceView, m: nat)
    requires
        v.wf(),
    ensures
        v.after(m * v.events.len()) == v,
{
    let len = v.events.len() as int;
    lemma_after_keeps_events(v, m * v.events.len());
    if len > 0 {
        lemma_cyclic(v, m * v.events.len());
        lemma_mod_multiples_vanish(m as int, v.cursor as int, len);
        lemma_small_mod(v.cursor, v.events.len());
        assert(v.cursor + m * len == len * m + v.cursor) by (nonlinear_arith);
    } else {
        assert(m * v.events.len() == 0) by (nonlinear_arith)
            requires
                v.events.len() == 0,
        ;
    }
}

/// A sequence without tokens yields the rest, however often it is asked, and
/// never changes.
pub proof fn lemma_empty_yields_rest(v: SequenceView, n: nat)
    requires
        v.events.len() == 0,
    ensures
        v.after(n) == v,
        v.after(n).current() == rest(),
    decreases n,
{
    if n > 0 {
        lemma_empty_yields_rest(v, (n - 1) as nat);
    }
}

/// Replacing the tokens leaves the cursor within the new tokens: where it
/// was, if that place still exists, else on the last token.
pub proof fn lemma_replaced_cursor(v: SequenceView, tokens: Seq<Seq<char>>)
    ensures
        v.replaced(tokens).wf(),
        v.replaced(tokens).events == tokens,
        v.cursor < tokens.len() ==> v.replaced(tokens).cursor == v.cursor,
        tokens.len() > 0 && v.cursor >= tokens.len() ==> v.replaced(tokens).cursor == tokens.len()
            - 1,
{
}

} // verus!
