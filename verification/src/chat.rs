//! The turns of a conversation: how a user's turn is framed, which token comes next, how it is
//! shown, and when an answer ends.
use vstd::prelude::*;

use crate::bytes::signed32;
use crate::kernels::float::{float_gt, is_nan, key};
use crate::tokenizer::{pieces_ids, regex_matches, Tokenizer, PRE_TOKEN_PATTERN};

verus! {

/// The token in front of a user's turn.
pub const TOK_USER: i32 = 128803;

/// The token in front of an answer.
pub const TOK_ASST: i32 = 128804;

/// The token that opens a stretch of thinking.
pub const TOK_THINK: i32 = 128821;

/// The token that closes a stretch of thinking.
pub const TOK_ETHINK: i32 = 128822;

/// A token number as the session takes it.
pub fn session_token(id: u32) -> (r: i32)
    ensures
        r == signed32(id as nat),
{
    if id < 0x8000_0000 {
        id as i32
    } else {
        ((id - 0x8000_0000) as i32) + i32::MIN
    }
}

/// A user's turn: its token numbers between the two marks.
pub open spec fn turn(ids: Seq<u32>) -> Seq<i32> {
    seq![TOK_USER] + ids.map_values(|id: u32| signed32(id as nat) as i32) + seq![TOK_ASST]
}

/// Frames a user's turn.
pub fn frame_turn(ids: &Vec<u32>) -> (r: Vec<i32>)
    ensures
        r@ == turn(ids@),
{
    let mut out: Vec<i32> = Vec::new();
    out.push(TOK_USER);
    let mut i: usize = 0;
    while i < ids.len()
        invariant
            i <= ids@.len(),
            out@ =~= seq![TOK_USER] + ids@.take(i as int).map_values(
                |id: u32| signed32(id as nat) as i32,
            ),
        decreases ids@.len() - i,
    {
        out.push(session_token(ids[i]));
        i = i + 1;
    }
    assert(ids@.take(i as int) =~= ids@);
    out.push(TOK_ASST);
    assert(out@ =~= turn(ids@));
    out
}

/// Encodes and frames a user's turn; `None` where the pre-tokenization pattern is not a regular
/// expression.
pub fn encode_turn(tok: &Tokenizer, line: &str) -> (r: Option<Vec<i32>>)
    ensures
        match regex_matches(PRE_TOKEN_PATTERN@, line@) {
            Some(pieces) => r matches Some(v) && v@ == turn(
                pieces_ids(tok.ids(), tok.ranks(), tok.eos_id, pieces),
            ),
            None => r is None,
        },
{
    match tok.try_encode(line) {
        Some(ids) => Some(frame_turn(&ids)),
        None => None,
    }
}

/// Index `r` has the highest of the scores, and the last of equal ones.
pub open spec fn is_last_highest(logits: Seq<u32>, r: int) -> bool {
    &&& 0 <= r < logits.len()
    &&& forall|i: int| 0 <= i < logits.len() ==> key(#[trigger] logits[i]) <= key(logits[r])
    &&& forall|i: int| r < i < logits.len() ==> key(#[trigger] logits[i]) < key(logits[r])
}

/// The token with the highest score, of equal ones the last; 0 where there are none. Scores that
/// are compared are bit patterns of numbers.
pub fn greedy(logits: &[u32]) -> (r: usize)
    requires
        logits@.len() > 1 ==> forall|i: int|
            0 <= i < logits@.len() ==> !is_nan(#[trigger] logits@[i]),
    ensures
        logits@.len() == 0 ==> r == 0,
        logits@.len() > 0 ==> is_last_highest(logits@, r as int),
{
    let mut best: usize = 0;
    let mut i: usize = 1;
    while i < logits.len()
        invariant
            logits@.len() > 0 ==> 1 <= i <= logits@.len(),
            i >= 1,
            best < i,
            logits@.len() > 1 ==> forall|x: int|
                0 <= x < logits@.len() ==> !is_nan(#[trigger] logits@[x]),
            logits@.len() > 0 ==> best < logits@.len(),
            logits@.len() > 0 ==> forall|x: int|
                0 <= x < i ==> key(#[trigger] logits@[x]) <= key(logits@[best as int]),
            forall|x: int| best < x < i ==> key(#[trigger] logits@[x]) < key(logits@[best as int]),
            logits@.len() == 0 ==> best == 0,
        decreases logits@.len() - i,
    {
        if !float_gt(logits[best], logits[i]) {
            best = i;
        }
        i = i + 1;
    }
    best
}

/// There is one such index.
pub proof fn last_highest_is_unique(logits: Seq<u32>, a: int, b: int)
    requires
        is_last_highest(logits, a),
        is_last_highest(logits, b),
    ensures
        a == b,
{
    assert(key(logits[a]) <= key(logits[b]));
    assert(key(logits[b]) <= key(logits[a]));
    if a < b {
        assert(key(logits[b]) < key(logits[a]));
    } else if b < a {
        assert(key(logits[a]) < key(logits[b]));
    }
}

/// What is done with the next token.
#[derive(Clone, Copy, Debug, PartialEq, Eq, Structural)]
pub enum Action {
    /// The answer ends.
    Stop,
    /// The token is shown, behind a line break or not, dimmed or not, and fed back.
    Show { line_break: bool, dim: bool },
}

/// An answer as far as it has come.
#[derive(Clone, Copy, Debug, PartialEq, Eq, Structural)]
pub struct Answer {
    /// Inside a stretch of thinking.
    pub in_think: bool,
    /// Tokens shown.
    pub count: usize,
    /// Tokens to show at most.
    pub max_tokens: usize,
}

impl Answer {
    /// An answer that has not begun.
    pub fn new(max_tokens: usize) -> (r: Self)
        ensures
            !r.in_think,
            r.count == 0,
            r.max_tokens == max_tokens,
    {
        Answer { in_think: false, count: 0, max_tokens }
    }

    /// Inside a stretch of thinking once `next` has come.
    pub open spec fn thinks_after(self, next: i32) -> bool {
        if next == TOK_ETHINK {
            false
        } else if next == TOK_THINK {
            true
        } else {
            self.in_think
        }
    }

    /// The answer once `next` has come, and what is done with it: the answer ends where it is
    /// long enough or the token ends the sequence. A token that is shown counts.
    pub open spec fn stepped(self, next: i32, eos: i32) -> (Answer, Action) {
        if self.count >= self.max_tokens || next == eos {
            (self, Action::Stop)
        } else {
            (
                Answer {
                    in_think: self.thinks_after(next),
                    count: (self.count + 1) as usize,
                    max_tokens: self.max_tokens,
                },
                Action::Show { line_break: next == TOK_ETHINK, dim: self.thinks_after(next) },
            )
        }
    }

    /// Takes the token that comes next, and says what is done with it.
    pub fn step(&mut self, next: i32, eos: i32) -> (r: Action)
        ensures
            *final(self) == old(self).stepped(next, eos).0,
            r == old(self).stepped(next, eos).1,
    {
        if self.count >= self.max_tokens {
            return Action::Stop;
        }
        if next == eos {
            return Action::Stop;
        }
        if next == TOK_THINK {
            self.in_think = true;
        }
        if next == TOK_ETHINK {
            self.in_think = false;
        }
        self.count = self.count + 1;
        Action::Show { line_break: next == TOK_ETHINK, dim: self.in_think }
    }
}

/// The context is full at position `pos`.
pub open spec fn is_full(pos: int, ctx_size: int) -> bool {
    pos + 1 >= ctx_size
}

/// Whether the context is full at position `pos`, so that the answer ends.
pub fn context_full(pos: usize, ctx_size: usize) -> (r: bool)
    requires
        ctx_size > 0,
    ensures
        r == (pos + 1 >= ctx_size),
        r == is_full(pos as int, ctx_size as int),
{
    pos >= ctx_size - 1
}

/// Inside a stretch of thinking after the first `n` tokens.
pub open spec fn thinking(tokens: Seq<i32>, n: nat) -> bool
    decreases n,
{
    if n == 0 {
        false
    } else {
        (Answer { in_think: thinking(tokens, (n - 1) as nat), count: 0, max_tokens: 0 })
            .thinks_after(tokens[n - 1])
    }
}

/// An answer after the first `n` tokens.
pub open spec fn answered(max_tokens: usize, tokens: Seq<i32>, eos: i32, n: nat) -> Answer
    decreases n,
{
    if n == 0 {
        Answer { in_think: false, count: 0, max_tokens }
    } else {
        answered(max_tokens, tokens, eos, (n - 1) as nat).stepped(tokens[n - 1], eos).0
    }
}

proof fn thinking_goes_on(tokens: Seq<i32>, n: nat)
    ensures
        thinking(tokens, n + 1) == (Answer {
            in_think: thinking(tokens, n),
            count: 0,
            max_tokens: 0,
        }).thinks_after(tokens[n as int]),
{
    assert((n + 1 - 1) as nat == n);
}

/// Every token is shown up to the first that ends the sequence, and no more than the most; it is
/// dimmed in stretches of thinking, and a closing mark stands on a new line.
#[verifier::spinoff_prover]
#[verifier::rlimit(30)]
pub proof fn answers_show_tokens_to_the_end(
    max_tokens: usize,
    tokens: Seq<i32>,
    eos: i32,
    n: nat,
)
    requires
        n < tokens.len(),
        n <= max_tokens,
        forall|i: int| 0 <= i < n ==> #[trigger] tokens[i] != eos,
    ensures
        answered(max_tokens, tokens, eos, n).count == n,
        answered(max_tokens, tokens, eos, n).in_think == thinking(tokens, n),
        answered(max_tokens, tokens, eos, n).stepped(tokens[n as int], eos).1 == if n == max_tokens
            || tokens[n as int] == eos {
            Action::Stop
        } else {
            Action::Show {
                line_break: tokens[n as int] == TOK_ETHINK,
                dim: thinking(tokens, n + 1),
            }
        },
        answered(max_tokens, tokens, eos, n).max_tokens == max_tokens,
    decreases n,
{
    if n > 0 {
        let m = (n - 1) as nat;
        answers_show_tokens_to_the_end(max_tokens, tokens, eos, m);
        assert(tokens[m as int] != eos);
        let before = answered(max_tokens, tokens, eos, m);
        assert(answered(max_tokens, tokens, eos, n) == before.stepped(tokens[m as int], eos).0);
        assert(before.count == m && before.max_tokens == max_tokens);
        assert(before.in_think == thinking(tokens, m));
        thinking_goes_on(tokens, m);
        assert(thinking(tokens, n) == before.thinks_after(tokens[m as int]));
    }
    let now = answered(max_tokens, tokens, eos, n);
    assert(now.in_think == thinking(tokens, n));
    thinking_goes_on(tokens, n);
    assert(thinking(tokens, n + 1) == now.thinks_after(tokens[n as int]));
}

/// Thinking is what follows an opening mark with no closing mark behind it.
pub proof fn thinking_is_between_marks(tokens: Seq<i32>, n: nat)
    requires
        n <= tokens.len(),
    ensures
        thinking(tokens, n) <==> exists|i: int|
            0 <= i < n && #[trigger] tokens[i] == TOK_THINK && forall|j: int|
                i < j < n ==> #[trigger] tokens[j] != TOK_ETHINK,
    decreases n,
{
    if n > 0 {
        let m = (n - 1) as nat;
        thinking_is_between_marks(tokens, m);
        if thinking(tokens, n) {
            if tokens[m as int] == TOK_THINK {
                assert(forall|j: int| m < j < n ==> #[trigger] tokens[j] != TOK_ETHINK);
            } else {
                let i = choose|i: int|
                    0 <= i < m && #[trigger] tokens[i] == TOK_THINK && forall|j: int|
                        i < j < m ==> #[trigger] tokens[j] != TOK_ETHINK;
                assert(forall|j: int| i < j < n ==> #[trigger] tokens[j] != TOK_ETHINK);
            }
        } else {
            assert forall|i: int| 0 <= i < n && #[trigger] tokens[i] == TOK_THINK implies exists|
                j: int,
            | i < j < n && #[trigger] tokens[j] == TOK_ETHINK by {
                if tokens[m as int] == TOK_ETHINK {
                    assert(i < m);
                } else {
                    assert(i < m);
                    assert(!(forall|j: int| i < j < m ==> #[trigger] tokens[j] != TOK_ETHINK));
                }
            }
        }
    }
}

} // verus!
