//! Exhaustive leaf counting ("perft"): a depth-first traversal of every
//! legal combination of simultaneous moves to a fixed depth.
//!
//! Each recursive level alternates two plies: one that fixes the
//! viewpoint agent's move without consuming depth, and one that expands
//! every other agent's combinations, applies one full turn transition,
//! and consumes one unit of depth.

use vstd::prelude::*;

use crate::board::Move;
use crate::board::Request;
use crate::board::RequestView;
use crate::board::lemma_step_preserves_wf;
use crate::board::move_set_valid;
use crate::board::stepped_request;
use crate::board::wf_request;
use crate::cartprod::seqs_view;
use crate::coordinate::Direction;
use crate::genmove::candidate_move_views;
use crate::genmove::generate_moves_all;
use crate::genmove::generate_moves_all_spec;
use crate::genmove::generate_moves_you;
use crate::genmove::generate_moves_you_spec;
use crate::genmove::lemma_move_sets_valid;

verus! {

/// A count clipped to what an unsigned 64-bit counter can hold.
pub open spec fn sat64(n: nat) -> u64 {
    if n > u64::MAX {
        u64::MAX
    } else {
        n as u64
    }
}

/// The recursion rank of a pending viewpoint move: the viewpoint ply
/// comes before the expansion ply at the same depth.
pub open spec fn pending_rank(pending: Option<Direction>) -> nat {
    match pending {
        Option::None => 2,
        Option::Some(_) => 1,
    }
}

/// The direction a pending viewpoint move fixes, if any.
pub open spec fn pending_dir(temp_move: Option<Move>) -> Option<Direction> {
    match temp_move {
        Option::None => Option::None,
        Option::Some(m) => Option::Some(m.direction),
    }
}

/// The number of reachable game continuations of length `depth` turns
/// from `r`, under full unpruned branching. A zero depth counts one
/// leaf. With no pending viewpoint move, the count sums over the
/// viewpoint candidates at the same depth; with a pending move, it sums
/// over every full move-set, each applied as one turn transition.
pub open spec fn perft_count(r: RequestView, depth: nat, pending: Option<Direction>) -> nat
    decreases depth, pending_rank(pending), 0nat,
{
    if depth == 0 {
        1
    } else {
        match pending {
            Option::None => {
                if r.terminal() {
                    0
                } else {
                    perft_ply_sum(r, depth, candidate_move_views(r.you))
                }
            },
            Option::Some(d) => perft_step_sum(
                r,
                depth,
                generate_moves_all_spec(r, Move { direction: d, id: r.you }),
            ),
        }
    }
}

/// The sum of the counts with each of `moves` fixed as the pending
/// viewpoint move, at the same depth.
pub open spec fn perft_ply_sum(r: RequestView, depth: nat, moves: Seq<Move>) -> nat
    decreases depth, 1nat, moves.len(),
{
    if moves.len() == 0 {
        0
    } else {
        perft_count(r, depth, Option::Some(moves.first().direction)) + perft_ply_sum(
            r,
            depth,
            moves.drop_first(),
        )
    }
}

/// The sum of the counts after applying each of `move_sets` as one full
/// turn transition, at one less depth.
pub open spec fn perft_step_sum(r: RequestView, depth: nat, move_sets: Seq<Seq<Move>>) -> nat
    decreases depth, 0nat, move_sets.len(),
{
    if move_sets.len() == 0 || depth == 0 {
        0
    } else {
        perft_count(stepped_request(r, move_sets.first()), (depth - 1) as nat, Option::None)
            + perft_step_sum(r, depth, move_sets.drop_first())
    }
}

/// A depth of zero counts exactly one leaf, whatever the request and
/// whatever move is pending.
pub proof fn lemma_perft_depth_zero(r: RequestView, pending: Option<Direction>)
    ensures
        perft_count(r, 0, pending) == 1,
{
}

/// Fixing one more viewpoint candidate adds its count to the ply sum.
proof fn lemma_perft_ply_sum_push(r: RequestView, depth: nat, moves: Seq<Move>, m: Move)
    ensures
        perft_ply_sum(r, depth, moves.push(m)) == perft_ply_sum(r, depth, moves) + perft_count(
            r,
            depth,
            Option::Some(m.direction),
        ),
    decreases moves.len(),
{
    if moves.len() == 0 {
        assert(moves.push(m).first() == m);
        assert(moves.push(m).drop_first() =~= moves);
    } else {
        assert(moves.push(m).first() == moves.first());
        assert(moves.push(m).drop_first() =~= moves.drop_first().push(m));
        lemma_perft_ply_sum_push(r, depth, moves.drop_first(), m);
    }
}

/// Expanding one more move-set adds its stepped count to the step sum.
proof fn lemma_perft_step_sum_push(r: RequestView, depth: nat, move_sets: Seq<Seq<Move>>, ms: Seq<Move>)
    requires
        depth >= 1,
    ensures
        perft_step_sum(r, depth, move_sets.push(ms)) == perft_step_sum(r, depth, move_sets)
            + perft_count(stepped_request(r, ms), (depth - 1) as nat, Option::None),
    decreases move_sets.len(),
{
    if move_sets.len() == 0 {
        assert(move_sets.push(ms).first() == ms);
        assert(move_sets.push(ms).drop_first() =~= move_sets);
    } else {
        assert(move_sets.push(ms).first() == move_sets.first());
        assert(move_sets.push(ms).drop_first() =~= move_sets.drop_first().push(ms));
        lemma_perft_step_sum_push(r, depth, move_sets.drop_first(), ms);
    }
}

/// Count the reachable game continuations of length `depth` turns from
/// `request`, clipped to the 64-bit maximum should the true count
/// exceed it. With no pending move the viewpoint candidates are fixed
/// in turn without consuming depth; with a pending move every full
/// move-set is applied as one turn transition and depth falls by one.
pub fn perft(request: &Request, depth: u8, temp_move: Option<Move>) -> (count: u64)
    requires
        wf_request(request@),
        request@.turn + depth <= u32::MAX,
        match temp_move {
            Option::Some(m) => m.id == request@.you,
            Option::None => true,
        },
    ensures
        count == sat64(perft_count(request@, depth as nat, pending_dir(temp_move))),
    decreases depth, pending_rank(pending_dir(temp_move)),
{
    if depth == 0 {
        return 1;
    }
    match temp_move {
        Option::None => {
            let moves = generate_moves_you(request);
            let mut sum: u64 = 0;
            let mut k: usize = 0;
            while k < moves.len()
                invariant
                    wf_request(request@),
                    request@.turn + depth <= u32::MAX,
                    1 <= depth,
                    temp_move is None,
                    moves@ == generate_moves_you_spec(request@),
                    0 <= k <= moves@.len(),
                    sum == sat64(
                        perft_ply_sum(request@, depth as nat, moves@.subrange(0, k as int)),
                    ),
                decreases moves@.len() - k,
            {
                proof {
                    assert(!request@.terminal());
                    assert(moves@[k as int] == candidate_move_views(request@.you)[k as int]);
                    assert(moves@[k as int].id == request@.you) by {
                        crate::genmove::lemma_candidate_ids(request@.you);
                    }
                }
                let c = perft(request, depth, Some(moves[k]));
                let ghost before = perft_ply_sum(request@, depth as nat, moves@.subrange(0, k as int));
                let ghost here = perft_count(
                    request@,
                    depth as nat,
                    Option::Some(moves@[k as int].direction),
                );
                sum = sum.saturating_add(c);
                proof {
                    lemma_perft_ply_sum_push(
                        request@,
                        depth as nat,
                        moves@.subrange(0, k as int),
                        moves@[k as int],
                    );
                    assert(moves@.subrange(0, k + 1 as int) =~= moves@.subrange(0, k as int).push(
                        moves@[k as int],
                    ));
                    assert(sum == sat64(before + here));
                }
                k = k + 1;
            }
            proof {
                assert(moves@.subrange(0, moves@.len() as int) =~= moves@);
                if request@.terminal() {
                    assert(perft_count(request@, depth as nat, pending_dir(temp_move)) == 0);
                }
            }
            sum
        },
        Some(mov) => {
            let move_sets = generate_moves_all(request, mov);
            let ghost sets = generate_moves_all_spec(request@, mov);
            let mut sum: u64 = 0;
            let mut k: usize = 0;
            while k < move_sets.len()
                invariant
                    wf_request(request@),
                    request@.turn + depth <= u32::MAX,
                    1 <= depth,
                    mov.id == request@.you,
                    sets == generate_moves_all_spec(request@, mov),
                    seqs_view(move_sets@) == sets,
                    0 <= k <= move_sets@.len(),
                    sum == sat64(
                        perft_step_sum(request@, depth as nat, sets.subrange(0, k as int)),
                    ),
                decreases move_sets@.len() - k,
            {
                proof {
                    assert(!request@.terminal()) by {
                        if request@.terminal() {
                            assert(seqs_view(move_sets@).len() == 0);
                            assert(move_sets@.len() == 0);
                        }
                    }
                    lemma_move_sets_valid(request@, mov);
                    assert(move_sets@[k as int]@ == sets[k as int]);
                    assert(move_set_valid(sets[k as int], request@.board.snakes));
                }
                let mut next = request.clone();
                let result = next.make_moves(&move_sets[k]);
                match result {
                    Ok(()) => {
                        proof {
                            lemma_step_preserves_wf(request@, sets[k as int]);
                        }
                        let c = perft(&next, depth - 1, None);
                        let ghost before = perft_step_sum(
                            request@,
                            depth as nat,
                            sets.subrange(0, k as int),
                        );
                        let ghost here = perft_count(
                            stepped_request(request@, sets[k as int]),
                            (depth - 1) as nat,
                            Option::None,
                        );
                        sum = sum.saturating_add(c);
                        proof {
                            lemma_perft_step_sum_push(
                                request@,
                                depth as nat,
                                sets.subrange(0, k as int),
                                sets[k as int],
                            );
                            assert(sets.subrange(0, k + 1 as int) =~= sets.subrange(
                                0,
                                k as int,
                            ).push(sets[k as int]));
                            assert(sum == sat64(before + here));
                        }
                    },
                    Err(_) => {
                        proof {
                            assert(false);
                        }
                    },
                }
                k = k + 1;
            }
            proof {
                assert(sets.subrange(0, sets.len() as int) =~= sets);
                assert(Move { direction: mov.direction, id: request@.you } == mov);
            }
            sum
        },
    }
}

} // verus!
