//! Move enumeration: the viewpoint agent's candidates, and the full
//! move-sets obtained by fixing the viewpoint move and combining every
//! other agent's candidates through the Cartesian product.

use vstd::prelude::*;

use crate::board::Move;
use crate::board::Request;
use crate::board::RequestView;
use crate::board::ids_unique;
use crate::board::lemma_count_matching_single;
use crate::board::lemma_filter_ids_unique;
use crate::board::lemma_filter_in_source;
use crate::board::lemma_filter_push;
use crate::board::move_set_valid;
use crate::board::snake_views;
use crate::cartprod::cartesian_product;
use crate::cartprod::cartesian_product_spec;
use crate::cartprod::lemma_cartesian_product_element;
use crate::cartprod::lemma_cartesian_product_len;
use crate::cartprod::seqs_view;
use crate::cartprod::sizes_product;
use crate::coordinate::Direction;
use crate::snake::SnakeView;

verus! {

/// Four to the `n`-th power: the number of move-sets that `n` agents
/// with four candidates each contribute.
pub open spec fn pow4(n: nat) -> nat
    decreases n,
{
    if n == 0 {
        1
    } else {
        4 * pow4((n - 1) as nat)
    }
}

/// The candidate moves of the agent `id`: always all four cardinal
/// directions, deliberately unfiltered.
pub open spec fn candidate_move_views(id: u32) -> Seq<Move> {
    seq![
        Move { direction: Direction::Up, id },
        Move { direction: Direction::Down, id },
        Move { direction: Direction::Left, id },
        Move { direction: Direction::Right, id },
    ]
}

/// Every candidate move of the agent `id` carries `id`.
pub proof fn lemma_candidate_ids(id: u32)
    ensures
        forall|k: int|
            0 <= k < candidate_move_views(id).len() ==> (#[trigger] candidate_move_views(
                id,
            )[k]).id == id,
{
    assert forall|k: int|
        0 <= k < candidate_move_views(id).len() implies (#[trigger] candidate_move_views(
        id,
    )[k]).id == id by {
        if k == 0 {
            assert(candidate_move_views(id)[0].id == id);
        } else if k == 1 {
            assert(candidate_move_views(id)[1].id == id);
        } else if k == 2 {
            assert(candidate_move_views(id)[2].id == id);
        } else {
            assert(candidate_move_views(id)[3].id == id);
        }
    }
}

/// The agents other than the viewpoint, in their original order.
pub open spec fn other_snakes(snakes: Seq<SnakeView>, you: u32) -> Seq<SnakeView> {
    snakes.filter(|s: SnakeView| s.id != you)
}

/// One candidate list per non-viewpoint agent, then the viewpoint's
/// single fixed move as its own one-entry list.
pub open spec fn per_snake_lists(snakes: Seq<SnakeView>, you: u32, you_move: Move) -> Seq<
    Seq<Move>,
> {
    other_snakes(snakes, you).map_values(|s: SnakeView| candidate_move_views(s.id)).push(
        seq![you_move],
    )
}

/// What `generate_moves_you` returns: nothing on a terminal request,
/// else the viewpoint agent's four candidates.
pub open spec fn generate_moves_you_spec(r: RequestView) -> Seq<Move> {
    if r.terminal() {
        Seq::empty()
    } else {
        candidate_move_views(r.you)
    }
}

/// What `generate_moves_all` returns: nothing on a terminal request,
/// else the Cartesian product of every other agent's candidates with the
/// fixed viewpoint move.
pub open spec fn generate_moves_all_spec(r: RequestView, you_move: Move) -> Seq<Seq<Move>> {
    if r.terminal() {
        Seq::empty()
    } else {
        cartesian_product_spec(per_snake_lists(r.board.snakes, r.you, you_move))
    }
}

/// The four candidate moves of the agent `id`.
fn candidate_moves(id: u32) -> (r: Vec<Move>)
    ensures
        r@ == candidate_move_views(id),
{
    let mut r: Vec<Move> = Vec::new();
    r.push(Move { direction: Direction::Up, id });
    r.push(Move { direction: Direction::Down, id });
    r.push(Move { direction: Direction::Left, id });
    r.push(Move { direction: Direction::Right, id });
    proof {
        assert(r@ =~= candidate_move_views(id));
    }
    r
}

/// The viewpoint agent's candidate moves: none when the request is
/// terminal, else exactly its four cardinal moves.
pub fn generate_moves_you(request: &Request) -> (r: Vec<Move>)
    ensures
        r@ == generate_moves_you_spec(request@),
        r@.len() == if request@.terminal() {
            0int
        } else {
            4int
        },
{
    if request.game_over() {
        let r: Vec<Move> = Vec::new();
        proof {
            assert(r@ =~= generate_moves_you_spec(request@));
        }
        return r;
    }
    candidate_moves(request.you)
}

/// All full move-sets with the viewpoint move fixed: one per way of
/// choosing a candidate for every other agent. On a terminal request
/// there are none; otherwise, with pairwise distinct ids, there are
/// exactly four to the power of the number of other agents.
pub fn generate_moves_all(request: &Request, you_move: Move) -> (r: Vec<Vec<Move>>)
    ensures
        seqs_view(r@) == generate_moves_all_spec(request@, you_move),
        request@.terminal() ==> r@.len() == 0,
        !request@.terminal() && ids_unique(request@.board.snakes) ==> r@.len() == pow4(
            (request@.board.snakes.len() - 1) as nat,
        ),
{
    if request.game_over() {
        let r: Vec<Vec<Move>> = Vec::new();
        proof {
            assert(seqs_view(r@) =~= generate_moves_all_spec(request@, you_move));
        }
        return r;
    }
    let ghost views = snake_views(request.board.snakes@);
    let ghost pred = |s: SnakeView| s.id != request.you;
    let ghost to_list = |s: SnakeView| candidate_move_views(s.id);
    let mut all_moves: Vec<Vec<Move>> = Vec::new();
    let mut i: usize = 0;
    while i < request.board.snakes.len()
        invariant
            views == snake_views(request.board.snakes@),
            pred == (|s: SnakeView| s.id != request.you),
            to_list == (|s: SnakeView| candidate_move_views(s.id)),
            0 <= i <= views.len(),
            seqs_view(all_moves@) == views.subrange(0, i as int).filter(pred).map_values(to_list),
        decreases views.len() - i,
    {
        proof {
            lemma_filter_push(views.subrange(0, i as int), views[i as int], pred);
            assert(views.subrange(0, i + 1 as int) =~= views.subrange(0, i as int).push(
                views[i as int],
            ));
        }
        if request.board.snakes[i].id != request.you {
            let ghost prev = all_moves@;
            all_moves.push(candidate_moves(request.board.snakes[i].id));
            proof {
                assert(views.subrange(0, i + 1 as int).filter(pred) =~= views.subrange(
                    0,
                    i as int,
                ).filter(pred).push(views[i as int]));
                assert(seqs_view(all_moves@) =~= seqs_view(prev).push(
                    candidate_move_views(views[i as int].id),
                ));
                assert(seqs_view(all_moves@) =~= views.subrange(0, i + 1 as int).filter(
                    pred,
                ).map_values(to_list));
            }
        } else {
            proof {
                assert(seqs_view(all_moves@) =~= views.subrange(0, i + 1 as int).filter(
                    pred,
                ).map_values(to_list));
            }
        }
        i = i + 1;
    }
    let mut you_list: Vec<Move> = Vec::new();
    you_list.push(you_move);
    let ghost prev = all_moves@;
    all_moves.push(you_list);
    proof {
        assert(views.subrange(0, views.len() as int) =~= views);
        assert(seqs_view(all_moves@) =~= seqs_view(prev).push(seq![you_move]));
        assert(seqs_view(all_moves@) =~= per_snake_lists(views, request.you, you_move));
    }
    let r = cartesian_product(all_moves);
    proof {
        if ids_unique(views) {
            lemma_per_snake_lists_len(views, request.you, you_move);
        }
    }
    r
}

/// With pairwise distinct ids and the viewpoint alive, the product of
/// the per-agent lists holds exactly `4^(N-1)` move-sets for `N` alive
/// agents.
proof fn lemma_per_snake_lists_len(snakes: Seq<SnakeView>, you: u32, you_move: Move)
    requires
        ids_unique(snakes),
        exists|i: int| 0 <= i < snakes.len() && snakes[i].id == you,
    ensures
        cartesian_product_spec(per_snake_lists(snakes, you, you_move)).len() == pow4(
            (snakes.len() - 1) as nat,
        ),
{
    let lists = per_snake_lists(snakes, you, you_move);
    lemma_cartesian_product_len(lists);
    lemma_other_snakes_len(snakes, you);
    lemma_sizes_product_candidates(other_snakes(snakes, you), you_move);
}

/// With pairwise distinct ids and the viewpoint alive, there are exactly
/// `N - 1` other agents.
proof fn lemma_other_snakes_len(snakes: Seq<SnakeView>, you: u32)
    requires
        ids_unique(snakes),
        exists|i: int| 0 <= i < snakes.len() && snakes[i].id == you,
    ensures
        other_snakes(snakes, you).len() == snakes.len() - 1,
    decreases snakes.len(),
{
    let pred = |s: SnakeView| s.id != you;
    let rest = snakes.drop_last();
    lemma_filter_push(rest, snakes.last(), pred);
    assert(rest.push(snakes.last()) =~= snakes);
    let k = choose|k: int| 0 <= k < snakes.len() && snakes[k].id == you;
    if snakes.last().id == you {
        lemma_other_snakes_none(rest, you);
    } else {
        assert(ids_unique(rest)) by {
            assert(forall|i: int| 0 <= i < rest.len() ==> rest[i] == snakes[i]);
        }
        assert(0 <= k < rest.len());
        assert(rest[k] == snakes[k]);
        lemma_other_snakes_len(rest, you);
    }
}

/// If no agent carries `you`, filtering for the other agents keeps them
/// all.
proof fn lemma_other_snakes_none(snakes: Seq<SnakeView>, you: u32)
    requires
        forall|i: int| 0 <= i < snakes.len() ==> snakes[i].id != you,
    ensures
        other_snakes(snakes, you) == snakes,
    decreases snakes.len(),
{
    let pred = |s: SnakeView| s.id != you;
    if snakes.len() == 0 {
        snakes.lemma_filter_len(pred);
        assert(other_snakes(snakes, you) =~= snakes);
    } else {
        let rest = snakes.drop_last();
        assert(forall|i: int| 0 <= i < rest.len() ==> rest[i] == snakes[i]);
        lemma_other_snakes_none(rest, you);
        lemma_filter_push(rest, snakes.last(), pred);
        assert(rest.push(snakes.last()) =~= snakes);
        assert(other_snakes(snakes, you) =~= snakes);
    }
}

/// The per-agent lists hold four candidates per other agent and one for
/// the viewpoint, so their sizes multiply to `4^(number of others)`.
proof fn lemma_sizes_product_candidates(others: Seq<SnakeView>, you_move: Move)
    ensures
        sizes_product(
            others.map_values(|s: SnakeView| candidate_move_views(s.id)).push(seq![you_move]),
        ) == pow4(others.len()),
    decreases others.len(),
{
    let to_list = |s: SnakeView| candidate_move_views(s.id);
    let lists = others.map_values(to_list).push(seq![you_move]);
    assert(lists.drop_last() =~= others.map_values(to_list));
    assert(lists.last() == seq![you_move]);
    lemma_sizes_product_all_four(others);
}

/// A sequence of four-candidate lists has sizes multiplying to four to
/// its length.
proof fn lemma_sizes_product_all_four(others: Seq<SnakeView>)
    ensures
        sizes_product(others.map_values(|s: SnakeView| candidate_move_views(s.id))) == pow4(
            others.len(),
        ),
    decreases others.len(),
{
    let to_list = |s: SnakeView| candidate_move_views(s.id);
    let lists = others.map_values(to_list);
    if others.len() == 0 {
        assert(lists.len() == 0);
    } else {
        assert(lists.drop_last() =~= others.drop_last().map_values(to_list));
        assert(lists.last() == candidate_move_views(others.last().id));
        assert(lists.last().len() == 4);
        lemma_sizes_product_all_four(others.drop_last());
    }
}

/// Every move-set that `generate_moves_all` yields is a full move-set:
/// it holds exactly one entry for every alive agent, provided the fixed
/// viewpoint move carries the viewpoint id.
pub proof fn lemma_move_sets_valid(r: RequestView, you_move: Move)
    requires
        !r.terminal(),
        ids_unique(r.board.snakes),
        you_move.id == r.you,
    ensures
        forall|k: int|
            0 <= k < generate_moves_all_spec(r, you_move).len() ==> move_set_valid(
                #[trigger] generate_moves_all_spec(r, you_move)[k],
                r.board.snakes,
            ),
{
    let snakes = r.board.snakes;
    let you = r.you;
    let os = other_snakes(snakes, you);
    let lists = per_snake_lists(snakes, you, you_move);
    let prod = cartesian_product_spec(lists);
    let pred = |s: SnakeView| s.id != you;
    let expected = |i: int, m: Move|
        m.id == (if i < os.len() {
            os[i].id
        } else {
            you
        });
    lemma_filter_ids_unique(snakes, pred);
    lemma_filter_in_source(snakes, pred);
    assert forall|i: int, x: Move|
        0 <= i < lists.len() && #[trigger] lists[i].contains(x) implies expected(i, x) by {
        if i < os.len() {
            assert(lists[i] == candidate_move_views(os[i].id));
            let j = choose|j: int| 0 <= j < lists[i].len() && lists[i][j] == x;
            assert(x.id == os[i].id);
        } else {
            assert(lists[i] == seq![you_move]);
            let j = choose|j: int| 0 <= j < lists[i].len() && lists[i][j] == x;
            assert(x == you_move);
        }
    }
    assert forall|k: int| 0 <= k < prod.len() implies move_set_valid(
        #[trigger] prod[k],
        snakes,
    ) by {
        lemma_cartesian_product_element(lists, expected, k);
        let elem = prod[k];
        assert(elem.len() == os.len() + 1);
        assert forall|si: int| 0 <= si < snakes.len() implies crate::board::count_matching(
            elem,
            snakes[si].id,
        ) == 1 by {
            let id = snakes[si].id;
            if id == you {
                assert forall|j: int| 0 <= j < elem.len() && j != os.len() implies elem[j].id
                    != id by {
                    assert(expected(j, elem[j]));
                    snakes.lemma_filter_pred(pred, j);
                }
                assert(expected(os.len() as int, elem[os.len() as int]));
                lemma_count_matching_single(elem, id, os.len() as int);
            } else {
                snakes.lemma_filter_contains(pred, si);
                assert(os.contains(snakes[si]));
                let oi = choose|oi: int| 0 <= oi < os.len() && os[oi] == snakes[si];
                assert forall|j: int| 0 <= j < elem.len() && j != oi implies elem[j].id != id by {
                    assert(expected(j, elem[j]));
                    if j < os.len() && os[j].id == id {
                        assert(ids_unique(os));
                        if oi < j {
                            assert(os[oi].id != os[j].id);
                        } else {
                            assert(os[j].id != os[oi].id);
                        }
                    }
                }
                assert(expected(oi, elem[oi]));
                lemma_count_matching_single(elem, id, oi);
            }
        }
    }
}

} // verus!
