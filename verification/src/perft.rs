//! Perft: exhaustive move-generation node counts, the engine's ground truth.

use vstd::prelude::*;
use crate::movegen::{gen_ok, legal_moves, legal_moves_of};
use crate::moves::Move;
use crate::position::{apply_model, Model, Position};
use crate::uci::uci_text;

verus! {

/// Number of leaf nodes of the legal-move tree of depth `depth`.
pub open spec fn perft_count(m: Model, depth: nat) -> nat
    decreases depth, 1nat, 0nat,
{
    if depth == 0 {
        1
    } else {
        sum_counts(m, legal_moves_of(m), (depth - 1) as nat)
    }
}

/// Sum of the perft counts, at depth `d`, of the positions the moves lead to.
pub open spec fn sum_counts(m: Model, s: Seq<Move>, d: nat) -> nat
    decreases d + 1, 0nat, s.len(),
{
    if s.len() == 0 {
        0
    } else {
        sum_counts(m, s.drop_last(), d) + perft_count(apply_model(m, s.last()), d)
    }
}

/// Every position of the tree below depth `depth` can generate moves.
pub open spec fn perft_ok(m: Model, depth: nat) -> bool
    decreases depth,
{
    depth == 0 || {
        &&& gen_ok(m)
        &&& forall|i: int|
            0 <= i < legal_moves_of(m).len() ==> perft_ok(
                #[trigger] apply_model(m, legal_moves_of(m)[i]),
                (depth - 1) as nat,
            )
    }
}

proof fn lemma_sum_counts_take(m: Model, s: Seq<Move>, d: nat, i: int)
    requires
        0 <= i < s.len(),
    ensures
        sum_counts(m, s.take(i + 1), d) == sum_counts(m, s.take(i), d) + perft_count(
            apply_model(m, s[i]),
            d,
        ),
        sum_counts(m, s.take(i + 1), d) <= sum_counts(m, s, d),
    decreases s.len() - i,
{
    assert(s.take(i + 1).drop_last() =~= s.take(i));
    if i + 1 < s.len() {
        lemma_sum_counts_take(m, s, d, i + 1);
    } else {
        assert(s.take(i + 1) =~= s);
    }
}

proof fn lemma_sum_counts_ones(m: Model, s: Seq<Move>)
    ensures
        sum_counts(m, s, 0) == s.len(),
    decreases s.len(),
{
    if s.len() > 0 {
        lemma_sum_counts_ones(m, s.drop_last());
        assert(perft_count(apply_model(m, s.last()), 0) == 1);
    }
}

pub fn perft(pos: &Position, depth: u32) -> (nodes: u64)
    requires
        pos.wf(),
        perft_ok(pos@, depth as nat),
        perft_count(pos@, depth as nat) <= u64::MAX,
    ensures
        nodes == perft_count(pos@, depth as nat),
    decreases depth,
{
    if depth == 0 {
        return 1;
    }
    let ghost m = pos@;
    let ghost d = (depth - 1) as nat;
    let moves = legal_moves(pos);
    if depth == 1 {
        proof {
            lemma_sum_counts_ones(m, moves@);
        }
        return moves.len() as u64;
    }
    let mut total: u64 = 0;
    let mut i: usize = 0;
    let n = moves.len();
    proof {
        assert(moves@.take(0) =~= Seq::<Move>::empty());
    }
    while i < n
        invariant
            pos.wf(),
            m == pos@,
            depth >= 2,
            d == depth - 1,
            n == moves@.len(),
            moves@ == legal_moves_of(m),
            crate::movegen::all_gen_ok(m, moves@),
            gen_ok(m),
            perft_ok(m, depth as nat),
            perft_count(m, depth as nat) <= u64::MAX,
            perft_count(m, depth as nat) == sum_counts(m, moves@, d),
            i <= n,
            total == sum_counts(m, moves@.take(i as int), d),
        decreases n - i,
    {
        let mv = moves.get(i);
        proof {
            assert(crate::movegen::gen_move_ok(m, moves@[i as int]));
            assert(perft_ok(apply_model(m, moves@[i as int]), d));
            lemma_sum_counts_take(m, moves@, d, i as int);
        }
        let next = pos.apply(mv);
        let sub = perft(&next, depth - 1);
        total = total + sub;
        i = i + 1;
    }
    proof {
        assert(moves@.take(n as int) =~= moves@);
    }
    total
}

/// Sum of the counts of a breakdown.
pub open spec fn row_total(rows: Seq<(String, u64)>) -> int
    decreases rows.len(),
{
    if rows.len() == 0 {
        0
    } else {
        row_total(rows.drop_last()) + rows.last().1
    }
}

/// The depth below the root that `perft_divide` counts at.
pub open spec fn divide_depth(depth: nat) -> nat {
    if depth == 0 {
        0
    } else {
        (depth - 1) as nat
    }
}

/// Per-root-move breakdown of a perft count: each legal move in generation
/// order, by its long algebraic text, with the count below it.
pub fn perft_divide(pos: &Position, depth: u32) -> (rows: Vec<(String, u64)>)
    requires
        pos.wf(),
        perft_ok(pos@, if depth == 0 { 1 } else { depth as nat }),
        forall|i: int|
            0 <= i < legal_moves_of(pos@).len() ==> perft_count(
                #[trigger] apply_model(pos@, legal_moves_of(pos@)[i]),
                divide_depth(depth as nat),
            ) <= u64::MAX,
    ensures
        rows@.len() == legal_moves_of(pos@).len(),
        forall|i: int|
            0 <= i < rows@.len() ==> {
                &&& (#[trigger] rows@[i]).0@ == uci_text(legal_moves_of(pos@)[i])
                &&& rows@[i].1 == perft_count(
                    apply_model(pos@, legal_moves_of(pos@)[i]),
                    divide_depth(depth as nat),
                )
            },
        depth >= 1 ==> row_total(rows@) == perft_count(pos@, depth as nat),
{
    let ghost m = pos@;
    let sub: u32 = if depth == 0 {
        0
    } else {
        depth - 1
    };
    let moves = legal_moves(pos);
    let mut rows: Vec<(String, u64)> = Vec::new();
    assert(moves@.take(0) =~= Seq::<Move>::empty());
    let mut i: usize = 0;
    while i < moves.len()
        invariant
            pos.wf(),
            m == pos@,
            sub == divide_depth(depth as nat),
            gen_ok(m),
            moves@ == legal_moves_of(m),
            crate::movegen::all_gen_ok(m, moves@),
            perft_ok(m, if depth == 0 { 1 } else { depth as nat }),
            forall|k: int|
                0 <= k < moves@.len() ==> perft_count(
                    #[trigger] apply_model(m, moves@[k]),
                    sub as nat,
                ) <= u64::MAX,
            i <= moves@.len(),
            rows@.len() == i,
            row_total(rows@) == sum_counts(m, moves@.take(i as int), sub as nat),
            forall|k: int|
                0 <= k < i ==> {
                    &&& (#[trigger] rows@[k]).0@ == uci_text(moves@[k])
                    &&& rows@[k].1 == perft_count(apply_model(m, moves@[k]), sub as nat)
                },
        decreases moves@.len() - i,
    {
        let mv = moves.get(i);
        proof {
            assert(crate::movegen::gen_move_ok(m, moves@[i as int]));
            assert(perft_ok(apply_model(m, moves@[i as int]), sub as nat));
            assert(perft_count(apply_model(m, moves@[i as int]), sub as nat) <= u64::MAX);
            lemma_sum_counts_take(m, moves@, sub as nat, i as int);
        }
        let next = pos.apply(mv);
        let count = perft(&next, sub);
        let ghost old_rows = rows@;
        rows.push((crate::uci::format(mv), count));
        assert(rows@.drop_last() =~= old_rows);
        i = i + 1;
    }
    assert(moves@.take(moves@.len() as int) =~= moves@);
    rows
}

proof fn lemma_rows_sum(m: Model, s: Seq<Move>, rows: Seq<(String, u64)>, d: nat)
    requires
        rows.len() == s.len(),
        forall|i: int| 0 <= i < rows.len() ==> (#[trigger] rows[i]).1 == perft_count(apply_model(m, s[i]), d),
    ensures
        row_total(rows) == sum_counts(m, s, d),
    decreases s.len(),
{
    if s.len() > 0 {
        let (s2, r2) = (s.drop_last(), rows.drop_last());
        assert forall|i: int| 0 <= i < r2.len() implies (#[trigger] r2[i]).1 == perft_count(
            apply_model(m, s2[i]),
            d,
        ) by {
            assert(r2[i] == rows[i] && s2[i] == s[i]);
        }
        lemma_rows_sum(m, s2, r2, d);
        assert(rows.last() == rows[rows.len() - 1]);
    }
}

/// Rows that give each legal move, in order, the perft count one level
/// below it add up to the perft count of the position.
pub proof fn law_divide_sums_to_perft(m: Model, depth: nat, rows: Seq<(String, u64)>)
    requires
        depth >= 1,
        rows.len() == legal_moves_of(m).len(),
        forall|i: int|
            0 <= i < rows.len() ==> (#[trigger] rows[i]).1 == perft_count(
                apply_model(m, legal_moves_of(m)[i]),
                (depth - 1) as nat,
            ),
    ensures
        row_total(rows) == perft_count(m, depth),
{
    lemma_rows_sum(m, legal_moves_of(m), rows, (depth - 1) as nat);
}

} // verus!
