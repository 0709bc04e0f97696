//! The visibility-stack discipline a pass's Filter actions follow, and the
//! laws that hold of it. A pass starts with one base frame (its default
//! visibility); every open of a matched element pushes an enabled frame, the
//! matching close pops one. The laws here are stated over the sequence of
//! such moves a well-paired document produces.

use vstd::prelude::*;

verus! {

/// Whether a visibility stack lets chunks through: its top entry; an empty
/// stack (more closes than opens, which correct pairing rules out) reads as
/// enabled.
pub open spec fn stack_enabled(stack: Seq<bool>) -> bool {
    stack.len() == 0 || stack.last()
}

/// A run of `n` enabled frames.
pub open spec fn trues(n: int) -> Seq<bool> {
    Seq::new(if n < 0 { 0nat } else { n as nat }, |i: int| true)
}

/// One visibility move a pass sees from a Filter action: `Open` when a
/// matched element's start tag arrives (an enabled frame is pushed), `Close`
/// when its end tag arrives (the top frame is popped).
pub enum StackMove {
    Open,
    Close,
}

/// How many moves of a sequence open an element.
pub open spec fn opens(moves: Seq<StackMove>) -> int
    decreases moves.len(),
{
    if moves.len() == 0 {
        0
    } else {
        opens(moves.drop_last()) + if moves.last() is Open {
            1int
        } else {
            0int
        }
    }
}

/// How many moves of a sequence close an element.
pub open spec fn closes(moves: Seq<StackMove>) -> int
    decreases moves.len(),
{
    if moves.len() == 0 {
        0
    } else {
        closes(moves.drop_last()) + if moves.last() is Close {
            1int
        } else {
            0int
        }
    }
}

/// The visibility stack after a sequence of moves: `Open` pushes an enabled
/// frame, `Close` pops the top frame and leaves an empty stack alone.
pub open spec fn stack_after(init: Seq<bool>, moves: Seq<StackMove>) -> Seq<bool>
    decreases moves.len(),
{
    if moves.len() == 0 {
        init
    } else {
        let prev = stack_after(init, moves.drop_last());
        if moves.last() is Open {
            prev.push(true)
        } else if prev.len() > 0 {
            prev.drop_last()
        } else {
            prev
        }
    }
}

/// Correct pairing, which the structural matcher guarantees: no prefix of
/// the moves closes more elements than it opened.
pub open spec fn well_nested(moves: Seq<StackMove>) -> bool {
    forall|k: int| 0 <= k <= moves.len() ==> closes(#[trigger] moves.take(k)) <= opens(moves.take(k))
}

/// After well-nested moves the stack is exactly the starting stack with one
/// enabled frame per element still open: the moves never reach below the
/// frames that were there when the pass started.
pub proof fn lemma_stack_shape(init: Seq<bool>, moves: Seq<StackMove>)
    requires
        well_nested(moves),
    ensures
        stack_after(init, moves) == init + trues(opens(moves) - closes(moves)),
    decreases moves.len(),
{
    if moves.len() == 0 {
        assert(init + trues(0) =~= init);
    } else {
        let m = moves.drop_last();
        assert(well_nested(m)) by {
            assert forall|k: int| 0 <= k <= m.len() implies closes(#[trigger] m.take(k)) <= opens(
                m.take(k),
            ) by {
                assert(m.take(k) =~= moves.take(k));
                assert(closes(moves.take(k)) <= opens(moves.take(k)));
            }
        }
        lemma_stack_shape(init, m);
        let d = opens(m) - closes(m);
        assert(moves.take(m.len() as int) =~= m);
        assert(d >= 0);
        if moves.last() is Open {
            assert((init + trues(d)).push(true) =~= init + trues(d + 1));
        } else {
            assert(moves.take(moves.len() as int) =~= moves);
            assert(closes(moves) <= opens(moves));
            assert(d >= 1);
            assert((init + trues(d)).len() == init.len() + d);
            assert((init + trues(d)).drop_last() =~= init + trues(d - 1));
        }
    }
}

/// Law: nested filters keep the stack discipline. After a balanced,
/// well-nested document the visibility stack is exactly what it was when
/// the pass started, and no prefix of the document ever cut into the frames
/// below the starting depth.
pub proof fn lemma_balanced_round_trip(init: Seq<bool>, moves: Seq<StackMove>)
    requires
        well_nested(moves),
        opens(moves) == closes(moves),
    ensures
        stack_after(init, moves) == init,
        forall|k: int| 0 <= k <= moves.len() ==> (#[trigger] stack_after(
            init,
            moves.take(k),
        )).len() >= init.len(),
{
    lemma_stack_shape(init, moves);
    assert(init + trues(0) =~= init);
    assert forall|k: int| 0 <= k <= moves.len() implies (#[trigger] stack_after(
        init,
        moves.take(k),
    )).len() >= init.len() by {
        let p = moves.take(k);
        assert(well_nested(p)) by {
            assert forall|j: int| 0 <= j <= p.len() implies closes(#[trigger] p.take(j)) <= opens(
                p.take(j),
            ) by {
                assert(p.take(j) =~= moves.take(j));
                assert(closes(moves.take(j)) <= opens(moves.take(j)));
            }
        }
        lemma_stack_shape(init, p);
        assert(p.take(p.len() as int) =~= p);
        assert(opens(p) - closes(p) >= 0);
    }
}

/// Law: a pass whose only selector actions are filters starts suppressed
/// (its base frame is its default visibility, false), and its sink lets a
/// chunk through exactly while at least one matched element is open.
pub proof fn lemma_filter_pass_visibility(moves: Seq<StackMove>)
    requires
        well_nested(moves),
    ensures
        stack_enabled(stack_after(seq![false], moves)) <==> opens(moves) > closes(moves),
{
    lemma_stack_shape(seq![false], moves);
    let d = opens(moves) - closes(moves);
    if d > 0 {
        assert((seq![false] + trues(d)).last() == true);
    } else {
        assert(seq![false] + trues(d) =~= seq![false]);
    }
}

} // verus!
