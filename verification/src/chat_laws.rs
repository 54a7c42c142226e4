//! What a turn looks like, and which token is chosen.
use vstd::prelude::*;

use crate::chat::{is_full, is_last_highest, turn, Action, Answer};
use crate::kernels::float::key;

verus! {

/// A turn is one token longer at each end: 128803 stands in front of it and 128804 behind it. Each
/// token between has the number that was given, as far as there are such numbers.
pub proof fn turns_stand_between_marks(ids: Seq<u32>)
    ensures
        turn(ids).len() == ids.len() + 2,
        turn(ids)[0] == 128803,
        turn(ids).last() == 128804,
        forall|i: int|
            0 <= i < ids.len() ==> turn(ids)[i + 1] == if #[trigger] ids[i] <= i32::MAX {
                ids[i] as int
            } else {
                ids[i] - 0x1_0000_0000
            },
{
}

/// A score behind the others is chosen where none of them is higher, and else changes nothing.
pub proof fn one_more_score_wins_unless_lower(logits: Seq<u32>, x: u32, a: int, b: int)
    requires
        is_last_highest(logits, a),
        is_last_highest(logits.push(x), b),
    ensures
        b == if key(x) >= key(logits[a]) {
            logits.len() as int
        } else {
            a
        },
{
    let more = logits.push(x);
    let n = logits.len() as int;
    assert(more[n] == x && more[a] == logits[a]);
    if b != n {
        assert(more[b] == logits[b]);
        assert(key(logits[b]) <= key(logits[a]));
        assert(key(more[a]) <= key(more[b]));
        if b < a {
            assert(key(more[a]) < key(more[b]));
        } else if a < b {
            assert(key(logits[b]) < key(logits[a]));
        }
    }
}

/// The last position of a context is left free: it is full from there on, and not before.
pub proof fn the_last_position_is_left_free(pos: int, ctx_size: int)
    ensures
        is_full(ctx_size - 1, ctx_size),
        !is_full(ctx_size - 2, ctx_size),
        is_full(pos, ctx_size) ==> is_full(pos + 1, ctx_size),
{
}

/// One score is chosen.
pub proof fn a_single_score_is_chosen(x: u32)
    ensures
        is_last_highest(seq![x], 0),
{
}

/// The token 128821 opens a stretch of thinking, and is dimmed; 128822 closes it, and stands on a
/// new line. Any other token that does not end the sequence goes on as the answer was.
pub proof fn marks_open_and_close_thinking(a: Answer, next: i32, eos: i32)
    requires
        a.count < a.max_tokens,
        next != eos,
    ensures
        ({
            let (b, action) = a.stepped(next, eos);
            &&& b.count == a.count + 1
            &&& b.max_tokens == a.max_tokens
            &&& next == 128821 ==> b.in_think && action == (Action::Show {
                line_break: false,
                dim: true,
            })
            &&& next == 128822 ==> !b.in_think && action == (Action::Show {
                line_break: true,
                dim: false,
            })
            &&& next != 128821 && next != 128822 ==> b.in_think == a.in_think && action == (
            Action::Show { line_break: false, dim: a.in_think })
        }),
{
}

} // verus!
