use crate::engine::evaluation::{static_score, NOISE_SPAN, SCORE_LIMIT};
use crate::engine::ranking::{
    is_legal, lemma_rank_all_contains, lemma_ranked_moves_legal, rank_all, ranked_moves, Step,
};
use crate::engine::sampling::uniform_below;
use crate::game::board::{Board, Position};
use crate::game::piece::Color;
use crate::utils::{coordinate_text, coordinate_to_string};
use std::time::Instant;
use vstd::prelude::*;
use vstd::string::*;

verus! {

/// Number of plies that a playout runs before the position is scored.
pub const MAX_PLIES: i32 = 10;

/// Largest number of ranked moves that the ranker hands out.
pub const MAX_OPPONENT_MOVES: usize = 150;

/// Number of iterations between two updates of the running statistics.
pub const STATS_INTERVAL: u32 = 50;

/// Number of moves that the running statistics list.
pub const TOP_MOVES: usize = 3;

/// The time that a search takes by default, in milliseconds.
pub const SEARCH_BUDGET_MILLIS: u64 = 5000;

/// A node of the search tree. It owns its position, the children that have
/// been expanded, each with the move that leads to it, and the ranked moves
/// that have not been tried yet. Values are in thousandths of a point.
pub struct MCTSNode {
    pub board: Board,
    pub visits: u32,
    pub total_value: i64,
    pub children: Vec<(Step, MCTSNode)>,
    pub unexplored_moves: Vec<Step>,
    pub current_player: Color,
}

/// The moves that lead to the children.
pub open spec fn child_moves(children: Seq<(Step, MCTSNode)>) -> Seq<Step> {
    children.map_values(|c: (Step, MCTSNode)| c.0)
}

/// The accumulated value and the visit count of each child.
pub open spec fn child_tallies(children: Seq<(Step, MCTSNode)>) -> Seq<(i64, u32)> {
    children.map_values(|c: (Step, MCTSNode)| (c.1.total_value, c.1.visits))
}

/// What a playout of `depth` plies from a position may return to the side
/// to move: at depth zero, or when that side has no legal move, the
/// position's score within the noise band; else the negated result of a
/// playout of one ply less after one of the ranked moves.
pub open spec fn playout(pos: Position, player: Color, depth: int, value: int) -> bool
    decreases depth,
{
    if depth <= 0 || ranked_moves(pos, player).len() == 0 {
        static_score(pos, player) - NOISE_SPAN <= value < static_score(pos, player) + NOISE_SPAN
    } else {
        exists|k: int|
            0 <= k < ranked_moves(pos, player).len() && playout(
                pos.after(
                    (#[trigger] ranked_moves(pos, player)[k]).0,
                    ranked_moves(pos, player)[k].1,
                ),
                player.opposite(),
                depth - 1,
                -value,
            )
    }
}

impl MCTSNode {
    /// What holds of a node by itself. The accumulated value is within the
    /// score limit for each visit; the moves of the children and the
    /// unexplored moves together are the ranked moves of the node's
    /// position; each child was visited, no more often than the node, and
    /// holds the position after its move with the other side to move.
    pub open spec fn sound(&self) -> bool {
        &&& -self.visits * SCORE_LIMIT <= self.total_value <= self.visits * SCORE_LIMIT
        &&& child_moves(self.children@).to_multiset().add(self.unexplored_moves@.to_multiset())
            == ranked_moves(self.board@, self.current_player).to_multiset()
        &&& forall|i: int|
            0 <= i < self.children@.len() ==> {
                &&& 1 <= (#[trigger] self.children@[i]).1.visits <= self.visits
                &&& self.children@[i].1.board@ == self.board@.after(
                    self.children@[i].0.0,
                    self.children@[i].0.1,
                )
                &&& self.children@[i].1.current_player == self.current_player.opposite()
            }
    }

    /// The invariant of a tree below the root of a search. Such a tree
    /// begins with the visit of the playout that created it, so its root
    /// was visited, and more often than each of its children, which are
    /// trees of this kind themselves.
    pub open spec fn wf_child(&self) -> bool
        decreases self,
    {
        &&& self.sound()
        &&& self.visits >= 1
        &&& forall|i: int|
            0 <= i < self.children@.len() ==> (#[trigger] self.children@[i]).1.visits
                < self.visits && self.children@[i].1.wf_child()
    }

    /// The invariant of a search tree: the root is sound and each of its
    /// children is a well-formed tree below the root.
    pub open spec fn wf(&self) -> bool {
        &&& self.sound()
        &&& forall|i: int|
            0 <= i < self.children@.len() ==> (#[trigger] self.children@[i]).1.wf_child()
    }

    /// The longest path that an iteration can take from this node, counted
    /// in nodes.
    pub open spec fn reach(&self) -> int {
        if self.wf_child() {
            self.visits as int
        } else {
            self.visits + 1
        }
    }

    /// A fresh node: never visited, without children, with every ranked
    /// move of its position still unexplored.
    pub fn new(board: Board, current_player: Color, engine: &RLEngine) -> (node: MCTSNode)
        ensures
            node.board == board,
            node.current_player == current_player,
            node.visits == 0,
            node.total_value == 0,
            node.children@.len() == 0,
            node.unexplored_moves@ == ranked_moves(board@, current_player),
            node.wf(),
    {
        let moves = engine.generate_ranked_moves(&board, current_player);
        let node = MCTSNode {
            board,
            visits: 0,
            total_value: 0,
            children: Vec::new(),
            unexplored_moves: moves,
            current_player,
        };
        proof {
            assert(child_moves(node.children@) =~= Seq::<Step>::empty());
            broadcast use vstd::multiset::group_multiset_axioms;
            assert(Seq::<Step>::empty().to_multiset() =~= vstd::multiset::Multiset::<Step>::empty()) by {
                Seq::<Step>::empty().to_multiset_ensures();
            }
            assert(child_moves(node.children@).to_multiset().add(node.unexplored_moves@.to_multiset())
                =~= node.unexplored_moves@.to_multiset());
        }
        node
    }
}

/// The share of the root's child visits that went to the chosen child:
/// `visits` out of `total`. Both are zero when no move was chosen.
#[derive(Clone, Copy, Debug)]
pub struct Confidence {
    pub visits: u32,
    pub total: u64,
}

impl Confidence {
    /// The share is a number between 0 and 1.
    pub open spec fn in_unit_interval(&self) -> bool {
        0 <= self.visits <= self.total
    }
}

/// What a search reports about itself. Values are in thousandths of a
/// point.
#[derive(Clone)]
pub struct SimulationStats {
    pub total_simulations: u32,
    pub nodes_explored: u64,
    pub best_line: Vec<String>,
    pub best_move_confidence: Confidence,
    pub current_eval: i64,
    pub depth_reached: i32,
    pub top_moves: Vec<(String, i64, u32)>,
    pub thinking_line: String,
}

impl SimulationStats {
    /// Statistics of a search that has not run yet.
    pub fn new() -> (stats: SimulationStats)
        ensures
            stats.total_simulations == 0,
            stats.nodes_explored == 0,
            stats.best_line@.len() == 0,
            stats.best_move_confidence.visits == 0,
            stats.best_move_confidence.total == 0,
            stats.current_eval == 0,
            stats.depth_reached == 0,
            stats.top_moves@.len() == 0,
            stats.thinking_line@.len() == 0,
    {
        SimulationStats {
            total_simulations: 0,
            nodes_explored: 0,
            best_line: Vec::new(),
            best_move_confidence: Confidence { visits: 0, total: 0 },
            current_eval: 0,
            depth_reached: 0,
            top_moves: Vec::new(),
            thinking_line: String::new(),
        }
    }
}

impl Default for SimulationStats {
    fn default() -> (stats: SimulationStats)
        ensures
            stats.total_simulations == 0,
            stats.nodes_explored == 0,
            stats.best_line@.len() == 0,
            stats.best_move_confidence.visits == 0,
            stats.best_move_confidence.total == 0,
            stats.current_eval == 0,
            stats.depth_reached == 0,
            stats.top_moves@.len() == 0,
            stats.thinking_line@.len() == 0,
    {
        SimulationStats::new()
    }
}

/// The engine: the depth of its playouts and the statistics of its last
/// search.
pub struct RLEngine {
    pub simulation_depth: i32,
    pub current_stats: SimulationStats,
}

/// The child that a selection policy sends an iteration into: the policy
/// is given the tallies of the children and the visits of the node; the
/// index that it returns counts if it names a child, else the first child
/// is taken.
pub open spec fn descends_into<F: Fn(Vec<(i64, u32)>, u32) -> usize>(
    select: F,
    node: MCTSNode,
    k: int,
) -> bool {
    exists|tallies: Vec<(i64, u32)>, choice: usize|
        {
            &&& tallies@ == child_tallies(node.children@)
            &&& #[trigger] call_ensures(select, (tallies, node.visits), choice)
            &&& k == (if choice < node.children@.len() {
                choice as int
            } else {
                0
            })
        }
}

/// Expansion: the unexplored move at index `k` left the queue and a child
/// for it was attached behind the others. The child holds the position
/// after the move with the other side to move, all ranked moves of that
/// position unexplored, one visit, and as its value the negated result of
/// a playout from it. The node itself is credited with `value`, the
/// child's value negated once more.
pub open spec fn expanded(depth: int, pre: MCTSNode, post: MCTSNode, value: int, k: int) -> bool {
    let mv = pre.unexplored_moves@[k];
    let child = post.children@.last().1;
    &&& 0 <= k < pre.unexplored_moves@.len()
    &&& post.unexplored_moves@ == pre.unexplored_moves@.remove(k)
    &&& post.children@.len() == pre.children@.len() + 1
    &&& post.children@.drop_last() == pre.children@
    &&& post.children@.last().0 == mv
    &&& child.board@ == pre.board@.after(mv.0, mv.1)
    &&& child.current_player == pre.current_player.opposite()
    &&& child.visits == 1
    &&& child.total_value == -value
    &&& child.children@.len() == 0
    &&& child.unexplored_moves@ == ranked_moves(child.board@, child.current_player)
    &&& playout(child.board@, child.current_player, depth, value)
}

/// The effect of one search iteration on a node. The node gains a visit
/// and `value`; its parent will gain the negated value, so that the value
/// of an iteration changes sign at each level on its way to the root. A
/// node that has unexplored moves is expanded by one of them. A node
/// without moves is scored as it stands, for its side to move. Otherwise
/// the iteration goes on in the child that the selection policy names.
pub open spec fn grows_by<F: Fn(Vec<(i64, u32)>, u32) -> usize>(
    select: F,
    depth: int,
    pre: MCTSNode,
    post: MCTSNode,
    value: int,
) -> bool
    decreases pre,
{
    &&& post.board == pre.board
    &&& post.current_player == pre.current_player
    &&& post.visits == pre.visits + 1
    &&& post.total_value == pre.total_value + value
    &&& if pre.unexplored_moves@.len() > 0 {
        exists|k: int| #[trigger] expanded(depth, pre, post, value, k)
    } else if pre.children@.len() == 0 {
        &&& post.children@ == pre.children@
        &&& post.unexplored_moves@ == pre.unexplored_moves@
        &&& static_score(pre.board@, pre.current_player) - NOISE_SPAN <= value < static_score(
            pre.board@,
            pre.current_player,
        ) + NOISE_SPAN
    } else {
        &&& post.unexplored_moves@ == pre.unexplored_moves@
        &&& post.children@.len() == pre.children@.len()
        &&& exists|k: int|
            {
                &&& 0 <= k < pre.children@.len()
                &&& #[trigger] descends_into(select, pre, k)
                &&& forall|j: int|
                    0 <= j < pre.children@.len() && j != k ==> #[trigger] post.children@[j]
                        == pre.children@[j]
                &&& post.children@[k].0 == pre.children@[k].0
                &&& grows_by(select, depth, pre.children@[k].1, post.children@[k].1, -value)
            }
    }
}

impl RLEngine {
    /// Plays `depth` plies from a position, each a move drawn uniformly
    /// from the ranked moves of the side to move, and returns the score of
    /// the final position, negated at each ply, for `player`.
    pub fn simulate(&self, board: &Board, player: Color, depth: i32) -> (value: i64)
        ensures
            playout(board@, player, depth as int, value as int),
            -SCORE_LIMIT <= value <= SCORE_LIMIT,
        decreases depth,
    {
        if depth <= 0 {
            return self.evaluate_position(board, player);
        }
        let moves = self.generate_ranked_moves(board, player);
        if moves.len() == 0 {
            return self.evaluate_position(board, player);
        }
        let num_moves = if moves.len() < MAX_OPPONENT_MOVES {
            moves.len()
        } else {
            MAX_OPPONENT_MOVES
        };
        let move_index = uniform_below(num_moves);
        let (from, to) = moves[move_index];
        let mut new_board = *board;
        new_board.move_piece(from, to);
        let reply = self.simulate(&new_board, player.opposite(), depth - 1);
        assert(ranked_moves(board@, player)[move_index as int] == (from, to));
        -reply
    }
}

/// A well-formed tree below the root is a well-formed search tree in its
/// own right.
pub proof fn lemma_child_is_tree(node: MCTSNode)
    requires
        node.wf_child(),
    ensures
        node.wf(),
{
}

/// Every unexplored move of a well-formed node is a legal move in its
/// position.
pub proof fn lemma_unexplored_legal(node: MCTSNode, k: int)
    requires
        node.wf(),
        0 <= k < node.unexplored_moves@.len(),
    ensures
        is_legal(node.board@, node.current_player, node.unexplored_moves@[k]),
{
    broadcast use vstd::multiset::group_multiset_axioms;

    let mv = node.unexplored_moves@[k];
    let ranked = ranked_moves(node.board@, node.current_player);
    assert(node.unexplored_moves@.contains(mv));
    vstd::seq_lib::to_multiset_contains(node.unexplored_moves@, mv);
    vstd::seq_lib::to_multiset_contains(ranked, mv);
    let i = choose|i: int| 0 <= i < ranked.len() && ranked[i] == mv;
    lemma_ranked_moves_legal(node.board@, node.current_player, i);
}

/// Every move that leads to a child of a well-formed node is a legal move
/// in the node's position.
pub proof fn lemma_child_move_legal(node: MCTSNode, k: int)
    requires
        node.wf(),
        0 <= k < node.children@.len(),
    ensures
        is_legal(node.board@, node.current_player, node.children@[k].0),
{
    broadcast use vstd::multiset::group_multiset_axioms;

    let mv = node.children@[k].0;
    let ranked = ranked_moves(node.board@, node.current_player);
    assert(child_moves(node.children@)[k] == mv);
    assert(child_moves(node.children@).contains(mv));
    vstd::seq_lib::to_multiset_contains(child_moves(node.children@), mv);
    vstd::seq_lib::to_multiset_contains(ranked, mv);
    let i = choose|i: int| 0 <= i < ranked.len() && ranked[i] == mv;
    lemma_ranked_moves_legal(node.board@, node.current_player, i);
}

impl RLEngine {
    /// Expands a node by the unexplored move at `move_index`: the move
    /// leaves the queue, a child for it is attached with the negated result
    /// of one playout as its value, and the node is credited with the
    /// child's value negated, which is returned.
    pub fn expand(&self, node: &mut MCTSNode, move_index: usize) -> (value: i64)
        requires
            old(node).wf(),
            old(node).visits < u32::MAX,
            move_index < old(node).unexplored_moves@.len(),
        ensures
            final(node).wf(),
            old(node).wf_child() ==> final(node).wf_child(),
            final(node).board == old(node).board,
            final(node).current_player == old(node).current_player,
            final(node).visits == old(node).visits + 1,
            final(node).total_value == old(node).total_value + value,
            expanded(
                self.simulation_depth as int,
                *old(node),
                *final(node),
                value as int,
                move_index as int,
            ),
            -SCORE_LIMIT <= value <= SCORE_LIMIT,
    {
        proof {
            lemma_unexplored_legal(*node, move_index as int);
        }
        let next_move = node.unexplored_moves.remove(move_index);
        let mut new_board = node.board;
        new_board.move_piece(next_move.0, next_move.1);
        let mut child = MCTSNode::new(new_board, node.current_player.opposite(), self);
        let value = self.simulate(&child.board, child.current_player, self.simulation_depth);
        child.visits = 1;
        child.total_value = -value;
        node.children.push((next_move, child));
        node.visits += 1;
        node.total_value += value;
        proof {
            broadcast use vstd::multiset::group_multiset_axioms;

            let before = child_moves(old(node).children@);
            assert(child_moves(node.children@) =~= before.push(next_move));
            vstd::seq_lib::to_multiset_build(before, next_move);
            vstd::seq_lib::to_multiset_remove(old(node).unexplored_moves@, move_index as int);
            vstd::seq_lib::to_multiset_contains(old(node).unexplored_moves@, next_move);
            assert(old(node).unexplored_moves@.contains(next_move));
            assert(child_moves(node.children@).to_multiset().add(
                node.unexplored_moves@.to_multiset(),
            ) =~= before.to_multiset().add(old(node).unexplored_moves@.to_multiset()));
            assert(node.children@.drop_last() =~= old(node).children@);
            assert forall|i: int| 0 <= i < node.children@.len() implies {
                &&& 1 <= (#[trigger] node.children@[i]).1.visits <= node.visits
                &&& node.children@[i].1.board@ == node.board@.after(
                    node.children@[i].0.0,
                    node.children@[i].0.1,
                )
                &&& node.children@[i].1.current_player == node.current_player.opposite()
                &&& node.children@[i].1.wf_child()
                &&& old(node).wf_child() ==> node.children@[i].1.visits < node.visits
            } by {
                if i < old(node).children@.len() {
                    assert(node.children@[i] == old(node).children@[i]);
                }
            }
        }
        value
    }

    /// Credits a node with one visit and a value.
    pub fn record(&self, node: &mut MCTSNode, value: i64)
        requires
            old(node).wf(),
            old(node).visits < u32::MAX,
            -SCORE_LIMIT <= value <= SCORE_LIMIT,
        ensures
            final(node).wf(),
            old(node).wf_child() ==> final(node).wf_child(),
            final(node).visits == old(node).visits + 1,
            final(node).total_value == old(node).total_value + value,
            final(node).board == old(node).board,
            final(node).current_player == old(node).current_player,
            final(node).children == old(node).children,
            final(node).unexplored_moves == old(node).unexplored_moves,
    {
        node.visits += 1;
        node.total_value += value;
    }

    /// Asks the selection policy for the child in which an iteration goes
    /// on.
    pub fn select_child<F: Fn(Vec<(i64, u32)>, u32) -> usize>(
        &self,
        node: &MCTSNode,
        select: &F,
    ) -> (k: usize)
        requires
            node.children@.len() > 0,
            forall|tallies: Vec<(i64, u32)>, visits: u32|
                call_requires(*select, (tallies, visits)),
        ensures
            k < node.children@.len(),
            descends_into(*select, *node, k as int),
    {
        let mut tallies: Vec<(i64, u32)> = Vec::new();
        let mut i: usize = 0;
        while i < node.children.len()
            invariant
                i <= node.children.len(),
                tallies.len() == i,
                forall|j: int|
                    0 <= j < i ==> #[trigger] tallies[j] == (
                        node.children@[j].1.total_value,
                        node.children@[j].1.visits,
                    ),
            decreases node.children.len() - i,
        {
            tallies.push((node.children[i].1.total_value, node.children[i].1.visits));
            i += 1;
        }
        assert(tallies@ =~= child_tallies(node.children@));
        let ghost asked = tallies;
        let choice = select(tallies, node.visits);
        assert(call_ensures(*select, (asked, node.visits), choice));
        if choice < node.children.len() {
            choice
        } else {
            0
        }
    }

    /// One iteration of the search below a node: expansion with a playout,
    /// or the scoring of a node without moves, or a descent into the child
    /// that the selection policy names. Returns the value that the node
    /// gained.
    pub fn mcts_iteration<F: Fn(Vec<(i64, u32)>, u32) -> usize>(
        &mut self,
        node: &mut MCTSNode,
        select: &F,
    ) -> (value: i64)
        requires
            old(node).wf(),
            old(node).visits < u32::MAX,
            old(self).current_stats.nodes_explored + old(node).reach() <= u64::MAX,
            forall|tallies: Vec<(i64, u32)>, visits: u32|
                call_requires(*select, (tallies, visits)),
        ensures
            final(node).wf(),
            old(node).wf_child() ==> final(node).wf_child(),
            grows_by(
                *select,
                old(self).simulation_depth as int,
                *old(node),
                *final(node),
                value as int,
            ),
            -SCORE_LIMIT <= value <= SCORE_LIMIT,
            final(self).simulation_depth == old(self).simulation_depth,
            old(self).current_stats.nodes_explored < final(self).current_stats.nodes_explored
                <= old(self).current_stats.nodes_explored + old(node).reach(),
            final(self).current_stats.total_simulations == old(self).current_stats.total_simulations,
            final(self).current_stats.best_line == old(self).current_stats.best_line,
            final(self).current_stats.best_move_confidence == old(self).current_stats.best_move_confidence,
            final(self).current_stats.current_eval == old(self).current_stats.current_eval,
            final(self).current_stats.depth_reached == old(self).current_stats.depth_reached,
            final(self).current_stats.top_moves == old(self).current_stats.top_moves,
            final(self).current_stats.thinking_line == old(self).current_stats.thinking_line,
        decreases *old(node),
    {
        self.current_stats.nodes_explored += 1;
        if node.unexplored_moves.len() > 0 {
            let move_index = uniform_below(node.unexplored_moves.len());
            return self.expand(node, move_index);
        }
        if node.children.len() == 0 {
            let value = self.evaluate_position(&node.board, node.current_player);
            self.record(node, value);
            return value;
        }
        let k = self.select_child(node, select);
        let value = -self.mcts_iteration(&mut node.children[k].1, select);
        node.visits += 1;
        node.total_value += value;
        proof {
            assert(child_moves(node.children@) =~= child_moves(old(node).children@));
        }
        value
    }
}

/// In a well-formed node no move leads to two children, no move is queued
/// twice, and no move that leads to a child is still queued.
pub proof fn lemma_tree_moves_disjoint(node: MCTSNode)
    requires
        node.wf(),
    ensures
        child_moves(node.children@).no_duplicates(),
        node.unexplored_moves@.no_duplicates(),
        forall|i: int, j: int|
            0 <= i < node.children@.len() && 0 <= j < node.unexplored_moves@.len()
                ==> node.children@[i].0 != node.unexplored_moves@[j],
{
    broadcast use vstd::multiset::group_multiset_axioms;

    let ranked = ranked_moves(node.board@, node.current_player);
    let led = child_moves(node.children@);
    let queued = node.unexplored_moves@;
    crate::engine::ranking::lemma_ranked_moves_no_duplicates(node.board@, node.current_player);
    ranked.lemma_multiset_has_no_duplicates();
    assert forall|x: Step| led.to_multiset().contains(x) implies led.to_multiset().count(x)
        == 1 by {
        assert(ranked.to_multiset().count(x) == led.to_multiset().count(x)
            + queued.to_multiset().count(x));
    }
    assert forall|x: Step| queued.to_multiset().contains(x) implies queued.to_multiset().count(x)
        == 1 by {
        assert(ranked.to_multiset().count(x) == led.to_multiset().count(x)
            + queued.to_multiset().count(x));
    }
    led.lemma_multiset_has_no_duplicates_conv();
    queued.lemma_multiset_has_no_duplicates_conv();
    assert forall|i: int, j: int|
        0 <= i < node.children@.len() && 0 <= j < queued.len() implies node.children@[i].0
        != queued[j] by {
        let x = queued[j];
        if node.children@[i].0 == x {
            assert(led[i] == x);
            assert(led.contains(x));
            assert(queued.contains(x));
            vstd::seq_lib::to_multiset_contains(led, x);
            vstd::seq_lib::to_multiset_contains(queued, x);
            assert(ranked.to_multiset().count(x) == led.to_multiset().count(x)
                + queued.to_multiset().count(x));
            assert(ranked.to_multiset().contains(x));
        }
    }
}

/// The children and the unexplored moves of a node are as many as the
/// ranked moves of its position, so that a node has at most 150 children.
pub proof fn lemma_family_size(node: MCTSNode)
    requires
        node.wf(),
    ensures
        node.children@.len() + node.unexplored_moves@.len() == ranked_moves(
            node.board@,
            node.current_player,
        ).len(),
        node.children@.len() <= MAX_OPPONENT_MOVES,
{
    broadcast use vstd::multiset::group_multiset_axioms;

    vstd::seq_lib::to_multiset_len(child_moves(node.children@));
    vstd::seq_lib::to_multiset_len(node.unexplored_moves@);
    vstd::seq_lib::to_multiset_len(ranked_moves(node.board@, node.current_player));
}

/// The text of a move: the names of its two squares, such as `e2e4`.
pub open spec fn move_text(mv: Step) -> Seq<char> {
    coordinate_text(mv.0) + coordinate_text(mv.1)
}

/// The quotient of a total by a positive count, rounded toward zero.
pub open spec fn average(total: int, count: int) -> int {
    if total >= 0 {
        total / count
    } else {
        -((-total) / count)
    }
}

/// The robust child: the child with the highest visit count, the last of
/// them where several have it.
pub open spec fn is_robust_child(children: Seq<(Step, MCTSNode)>, k: int) -> bool {
    &&& 0 <= k < children.len()
    &&& forall|j: int| 0 <= j < children.len() ==> children[j].1.visits <= children[k].1.visits
    &&& forall|j: int| k < j < children.len() ==> children[j].1.visits < children[k].1.visits
}

/// Sum of the visit counts of the first `n` children.
pub open spec fn child_visits_among(children: Seq<(Step, MCTSNode)>, n: int) -> int
    decreases n,
{
    if n <= 0 {
        0
    } else {
        child_visits_among(children, n - 1) + children[n - 1].1.visits
    }
}

/// Sum of the visit counts of all children.
pub open spec fn child_visits(children: Seq<(Step, MCTSNode)>) -> int {
    child_visits_among(children, children.len() as int)
}

/// What a finished search answers from its tree: no move and an empty
/// confidence when the root has no child, else the move of the robust child
/// and that child's share of all child visits.
pub open spec fn robust_choice(root: MCTSNode, best: Option<Step>, confidence: Confidence) -> bool {
    if root.children@.len() == 0 {
        best is None && confidence.visits == 0 && confidence.total == 0
    } else {
        exists|k: int|
            {
                &&& #[trigger] is_robust_child(root.children@, k)
                &&& best == Some(root.children@[k].0)
                &&& confidence.visits == root.children@[k].1.visits
                &&& confidence.total == child_visits(root.children@)
            }
    }
}

/// Each child of the root with its index and its visit count.
pub open spec fn visit_keys(children: Seq<(Step, MCTSNode)>) -> Seq<(usize, i64)> {
    Seq::new(children.len(), |i: int| (i as usize, children[i].1.visits as i64))
}

/// The up to three most visited children, by falling visit count, children
/// of equal count in their order in the tree; each with its index.
pub open spec fn top_children(children: Seq<(Step, MCTSNode)>) -> Seq<(usize, i64)> {
    let ranked = rank_all(visit_keys(children));
    if ranked.len() <= TOP_MOVES {
        ranked
    } else {
        ranked.take(TOP_MOVES as int)
    }
}

/// An entry of the running statistics reports the child at index `k`: the
/// text of its move, its average value and its visit count.
pub open spec fn reports_child(
    children: Seq<(Step, MCTSNode)>,
    k: int,
    entry: (String, i64, u32),
) -> bool {
    &&& 0 <= k < children.len()
    &&& entry.0@ == move_text(children[k].0)
    &&& entry.1 == average(children[k].1.total_value as int, children[k].1.visits as int)
    &&& entry.2 == children[k].1.visits
}

/// The entries list the up to three most visited children, in their
/// order.
pub open spec fn lists_top_children(
    top: Seq<(String, i64, u32)>,
    children: Seq<(Step, MCTSNode)>,
) -> bool {
    &&& top.len() == top_children(children).len()
    &&& forall|i: int|
        0 <= i < top.len() ==> reports_child(
            children,
            top_children(children)[i].0 as int,
            #[trigger] top[i],
        )
}

/// A visit count never falls below any single child's and the sum of
/// `n` counts fits in 64 bits.
proof fn lemma_child_visits_among(children: Seq<(Step, MCTSNode)>, n: int, k: int)
    requires
        0 <= k < n <= children.len(),
    ensures
        children[k].1.visits <= child_visits_among(children, n) <= n * 0xffff_ffff,
        0 <= child_visits_among(children, k) <= k * 0xffff_ffff,
    decreases n,
{
    if k < n - 1 {
        lemma_child_visits_among(children, n - 1, k);
    } else if k > 0 {
        lemma_child_visits_among(children, k, k - 1);
    }
}

impl RLEngine {
    /// An engine that plays playouts of `MAX_PLIES` plies and has not
    /// searched yet.
    pub fn new() -> (engine: RLEngine)
        ensures
            engine.simulation_depth == MAX_PLIES,
            engine.current_stats.total_simulations == 0,
            engine.current_stats.nodes_explored == 0,
    {
        RLEngine { simulation_depth: MAX_PLIES, current_stats: SimulationStats::new() }
    }

    /// The index of the robust child of a node, if it has children.
    pub fn best_child(&self, root: &MCTSNode) -> (best: Option<usize>)
        ensures
            best is None <==> root.children@.len() == 0,
            best is Some ==> is_robust_child(root.children@, best->0 as int),
    {
        if root.children.len() == 0 {
            return None;
        }
        let mut best: usize = 0;
        let mut i: usize = 1;
        while i < root.children.len()
            invariant
                1 <= i <= root.children.len(),
                best < i,
                forall|j: int|
                    0 <= j < i ==> root.children@[j].1.visits <= root.children@[best as int].1.visits,
                forall|j: int|
                    best < j < i ==> root.children@[j].1.visits < root.children@[best as int].1.visits,
            decreases root.children.len() - i,
        {
            if root.children[i].1.visits >= root.children[best].1.visits {
                best = i;
            }
            i += 1;
        }
        Some(best)
    }

    /// Sum of the visit counts of the children of a node.
    pub fn child_visit_total(&self, root: &MCTSNode) -> (total: u64)
        requires
            root.children@.len() <= MAX_OPPONENT_MOVES,
        ensures
            total == child_visits(root.children@),
    {
        let mut total: u64 = 0;
        let mut i: usize = 0;
        while i < root.children.len()
            invariant
                i <= root.children.len(),
                root.children@.len() <= MAX_OPPONENT_MOVES,
                total == child_visits_among(root.children@, i as int),
                total <= i * 0xffff_ffff,
            decreases root.children.len() - i,
        {
            total += root.children[i].1.visits as u64;
            i += 1;
        }
        total
    }

    /// The text of a move: the names of its two squares.
    pub fn move_to_string(&self, mv: Step) -> (text: String)
        requires
            crate::game::board::on_board(mv.0),
            crate::game::board::on_board(mv.1),
        ensures
            text@ == move_text(mv),
    {
        let to = coordinate_to_string(mv.1);
        coordinate_to_string(mv.0).concat(to.as_str())
    }

    /// The up to three most visited children of a node, each with the text
    /// of its move, its average value and its visit count.
    pub fn top_moves(&self, root: &MCTSNode) -> (top: Vec<(String, i64, u32)>)
        requires
            root.wf(),
        ensures
            lists_top_children(top@, root.children@),
    {
        let mut keys: Vec<(usize, i64)> = Vec::new();
        let mut i: usize = 0;
        while i < root.children.len()
            invariant
                i <= root.children.len(),
                keys.len() == i,
                forall|j: int|
                    0 <= j < i ==> #[trigger] keys[j] == (
                        j as usize,
                        root.children@[j].1.visits as i64,
                    ),
            decreases root.children.len() - i,
        {
            keys.push((i, root.children[i].1.visits as i64));
            i += 1;
        }
        assert(keys@ =~= visit_keys(root.children@));
        let mut ranked = self.rank_candidates(&keys);
        ranked.truncate(TOP_MOVES);
        assert(ranked@ =~= top_children(root.children@));
        let mut top: Vec<(String, i64, u32)> = Vec::new();
        let mut t: usize = 0;
        while t < ranked.len()
            invariant
                t <= ranked.len(),
                root.wf(),
                ranked@ == top_children(root.children@),
                top.len() == t,
                forall|i: int|
                    0 <= i < t ==> reports_child(
                        root.children@,
                        ranked@[i].0 as int,
                        #[trigger] top@[i],
                    ),
            decreases ranked.len() - t,
        {
            let k = ranked[t].0;
            proof {
                let all = rank_all(visit_keys(root.children@));
                assert(all[t as int] == ranked@[t as int]);
                assert(all.contains(ranked@[t as int]));
                lemma_rank_all_contains(visit_keys(root.children@), ranked@[t as int]);
                lemma_child_move_legal(*root, k as int);
                assert(root.children@[k as int].1.wf_child());
            }
            let child = &root.children[k].1;
            let mv = root.children[k].0;
            let count = child.visits as i64;
            let score = if child.total_value >= 0 {
                child.total_value / count
            } else {
                -((-child.total_value) / count)
            };
            let text = self.move_to_string(mv);
            let ghost before = top@;
            top.push((text, score, child.visits));
            proof {
                assert forall|i: int| 0 <= i < t + 1 implies reports_child(
                    root.children@,
                    ranked@[i].0 as int,
                    #[trigger] top@[i],
                ) by {
                    if i < t {
                        assert(top@[i] == before[i]);
                    }
                }
            }
            t += 1;
        }
        top
    }
}

/// The confidence of a robust choice from a well-formed tree is the chosen
/// child's share of the visits of all children, a number between 0 and 1;
/// the chosen move is legal in the root's position.
pub proof fn lemma_confidence_is_a_share(root: MCTSNode, best: Option<Step>, confidence: Confidence)
    requires
        root.wf(),
        robust_choice(root, best, confidence),
    ensures
        confidence.in_unit_interval(),
        best is Some ==> 1 <= confidence.visits && confidence.total == child_visits(
            root.children@,
        ),
        best is Some ==> is_legal(root.board@, root.current_player, best->0),
        best is None <==> root.children@.len() == 0,
{
    if root.children@.len() > 0 {
        let k = choose|k: int|
            {
                &&& #[trigger] is_robust_child(root.children@, k)
                &&& best == Some(root.children@[k].0)
                &&& confidence.visits == root.children@[k].1.visits
                &&& confidence.total == child_visits(root.children@)
            };
        lemma_child_visits_among(root.children@, root.children@.len() as int, k);
        lemma_child_move_legal(root, k);
    }
}

/// The root of a search of a position before its first iteration: never
/// visited, without children, every ranked move unexplored.
pub open spec fn is_fresh_root(pos: Position, color: Color, root: MCTSNode) -> bool {
    &&& root.board@ == pos
    &&& root.current_player == color
    &&& root.visits == 0
    &&& root.total_value == 0
    &&& root.children@.len() == 0
    &&& root.unexplored_moves@ == ranked_moves(pos, color)
}

/// The trees that `iterations` iterations of the search can grow from the
/// fresh root of a position, with playouts of `depth` plies and `select` as
/// the selection policy.
pub open spec fn searched<F: Fn(Vec<(i64, u32)>, u32) -> usize>(
    select: F,
    depth: int,
    pos: Position,
    color: Color,
    iterations: nat,
    root: MCTSNode,
) -> bool
    decreases iterations,
{
    if iterations == 0 {
        is_fresh_root(pos, color, root)
    } else {
        exists|before: MCTSNode, value: int|
            {
                &&& #[trigger] grows_by(select, depth, before, root, value)
                &&& searched(select, depth, pos, color, (iterations - 1) as nat, before)
            }
    }
}

/// Whether a time budget allows another iteration once `passed`
/// milliseconds have gone by: always when no budget is set, else as long as
/// fewer milliseconds than the budget have passed.
pub open spec fn time_allows(passed: int, budget_millis: Option<u64>) -> bool {
    match budget_millis {
        Some(budget) => passed < budget,
        None => true,
    }
}

/// What the running statistics show after `iterations` iterations. They
/// are renewed after every 50th iteration, with the value of that iteration
/// and the most visited children of the root at that time; before the 50th
/// iteration they are empty.
pub open spec fn progress_report<F: Fn(Vec<(i64, u32)>, u32) -> usize>(
    select: F,
    depth: int,
    pos: Position,
    color: Color,
    iterations: nat,
    eval: int,
    top: Seq<(String, i64, u32)>,
) -> bool {
    let shown = iterations - iterations % (STATS_INTERVAL as nat);
    if shown == 0 {
        eval == 0 && top.len() == 0
    } else {
        exists|before: MCTSNode, tree: MCTSNode|
            {
                &&& #[trigger] grows_by(select, depth, before, tree, eval)
                &&& searched(select, depth, pos, color, (shown - 1) as nat, before)
                &&& lists_top_children(top, tree.children@)
            }
    }
}

/// What a search may answer for a position: the robust choice of a
/// well-formed tree that `iterations` iterations have grown over it.
pub open spec fn search_answer<F: Fn(Vec<(i64, u32)>, u32) -> usize>(
    select: F,
    depth: int,
    pos: Position,
    color: Color,
    iterations: nat,
    best: Option<Step>,
    confidence: Confidence,
) -> bool {
    exists|root: MCTSNode|
        {
            &&& #[trigger] searched(select, depth, pos, color, iterations, root)
            &&& root.wf()
            &&& root.board@ == pos
            &&& root.current_player == color
            &&& root.visits == iterations
            &&& robust_choice(root, best, confidence)
        }
}

impl RLEngine {
    /// The answer of a finished search, read from its tree: the move of
    /// the robust child of the root with its share of the visits, or no
    /// move when the root has no child.
    pub fn robust_move(&self, root: &MCTSNode) -> (choice: (Option<Step>, Confidence))
        requires
            root.wf(),
        ensures
            robust_choice(*root, choice.0, choice.1),
    {
        proof {
            lemma_family_size(*root);
        }
        match self.best_child(root) {
            Some(k) => {
                let total = self.child_visit_total(root);
                let confidence = Confidence { visits: root.children[k].1.visits, total };
                (Some(root.children[k].0), confidence)
            },
            None => (None, Confidence { visits: 0, total: 0 }),
        }
    }

    /// Searches the position until `max_iterations` iterations are done
    /// or, where a time budget is given, until the time is up, whichever
    /// comes first, and returns the move of the robust child of the root,
    /// or `None` when the root gained no child. Without a time budget the
    /// search runs exactly `max_iterations` iterations, but never more than
    /// a visit counter can hold.
    ///
    /// `select` is the selection policy: it is given the accumulated value
    /// and the visit count of each child of a node, and the node's visit
    /// count, and names the child to descend into. `on_progress` is called
    /// with the running statistics after every 50th iteration.
    pub fn search<F: Fn(Vec<(i64, u32)>, u32) -> usize, P: Fn(&SimulationStats)>(
        &mut self,
        board: &Board,
        color: Color,
        max_iterations: u32,
        budget_millis: Option<u64>,
        select: &F,
        on_progress: &P,
    ) -> (best: Option<Step>)
        requires
            forall|tallies: Vec<(i64, u32)>, visits: u32|
                call_requires(*select, (tallies, visits)),
            forall|stats: &SimulationStats| call_requires(*on_progress, (stats,)),
        ensures
            final(self).simulation_depth == old(self).simulation_depth,
            final(self).current_stats.total_simulations <= max_iterations,
            budget_millis is None ==> final(self).current_stats.total_simulations == (
            if max_iterations < u32::MAX {
                max_iterations
            } else {
                (u32::MAX - 1) as u32
            }),
            search_answer(
                *select,
                old(self).simulation_depth as int,
                board@,
                color,
                final(self).current_stats.total_simulations as nat,
                best,
                final(self).current_stats.best_move_confidence,
            ),
            progress_report(
                *select,
                old(self).simulation_depth as int,
                board@,
                color,
                final(self).current_stats.total_simulations as nat,
                final(self).current_stats.current_eval as int,
                final(self).current_stats.top_moves@,
            ),
            final(self).current_stats.total_simulations <= final(self).current_stats.nodes_explored,
            best is Some ==> is_legal(board@, color, best->0),
            best is Some <==> ranked_moves(board@, color).len() > 0
                && final(self).current_stats.total_simulations >= 1,
            final(self).current_stats.best_move_confidence.in_unit_interval(),
            best is Some ==> final(self).current_stats.best_move_confidence.visits >= 1,
            match best {
                Some(mv) => final(self).current_stats.best_line@.len() == 1
                    && final(self).current_stats.best_line@[0]@ == move_text(mv),
                None => final(self).current_stats.best_line@.len() == 0,
            },
            final(self).current_stats.depth_reached == 0,
            final(self).current_stats.thinking_line@.len() == 0,
    {
        self.current_stats = SimulationStats::new();
        let mut root = MCTSNode::new(*board, color, self);
        let start = Instant::now();
        while self.current_stats.total_simulations < max_iterations
            && self.current_stats.total_simulations < u32::MAX - 1 && self.has_time(
            &start,
            budget_millis,
        )
            invariant
                root.wf(),
                root.board == *board,
                root.current_player == color,
                root.visits == self.current_stats.total_simulations,
                self.current_stats.total_simulations <= max_iterations,
                self.current_stats.total_simulations <= u32::MAX - 1,
                self.current_stats.nodes_explored <= self.current_stats.total_simulations
                    * 0x1_0000_0000,
                self.simulation_depth == old(self).simulation_depth,
                self.current_stats.best_line@.len() == 0,
                self.current_stats.best_move_confidence.visits == 0,
                self.current_stats.best_move_confidence.total == 0,
                self.current_stats.depth_reached == 0,
                self.current_stats.thinking_line@.len() == 0,
                root.children@.len() > 0 <==> root.visits >= 1 && ranked_moves(board@, color).len()
                    > 0,
                searched(
                    *select,
                    self.simulation_depth as int,
                    board@,
                    color,
                    self.current_stats.total_simulations as nat,
                    root,
                ),
                progress_report(
                    *select,
                    self.simulation_depth as int,
                    board@,
                    color,
                    self.current_stats.total_simulations as nat,
                    self.current_stats.current_eval as int,
                    self.current_stats.top_moves@,
                ),
                self.current_stats.total_simulations <= self.current_stats.nodes_explored,
                forall|tallies: Vec<(i64, u32)>, visits: u32|
                    call_requires(*select, (tallies, visits)),
                forall|stats: &SimulationStats| call_requires(*on_progress, (stats,)),
            ensures
                budget_millis is None ==> self.current_stats.total_simulations == max_iterations
                    || self.current_stats.total_simulations == u32::MAX - 1,
            decreases u32::MAX - self.current_stats.total_simulations,
        {
            let ghost before = root;
            proof {
                lemma_family_size(root);
            }
            self.current_stats.total_simulations += 1;
            let eval = self.mcts_iteration(&mut root, select);
            proof {
                assert(grows_by(
                    *select,
                    self.simulation_depth as int,
                    before,
                    root,
                    eval as int,
                ));
                lemma_family_size(root);
            }
            if self.current_stats.total_simulations % STATS_INTERVAL == 0 {
                self.current_stats.current_eval = eval;
                self.current_stats.top_moves = self.top_moves(&root);
                on_progress(&self.current_stats);
            }
            proof {
                let n = self.current_stats.total_simulations as nat;
                if n % (STATS_INTERVAL as nat) == 0 {
                    assert(n - n % (STATS_INTERVAL as nat) == n);
                } else {
                    assert(n - n % (STATS_INTERVAL as nat) == (n - 1) as nat - ((n - 1) as nat) % (
                    STATS_INTERVAL as nat));
                }
            }
        }
        let (best, confidence) = self.robust_move(&root);
        self.current_stats.best_move_confidence = confidence;
        proof {
            lemma_confidence_is_a_share(root, best, confidence);
        }
        if let Some(best_move) = best {
            let mut best_line: Vec<String> = Vec::new();
            best_line.push(self.move_to_string(best_move));
            self.current_stats.best_line = best_line;
        }
        best
    }

    /// Whether a search that began at `start` has time left: always when
    /// no budget is set, else as long as fewer milliseconds than the budget
    /// have passed.
    fn has_time(&self, start: &Instant, budget_millis: Option<u64>) -> (go_on: bool)
        ensures
            exists|passed: u128| go_on == #[trigger] time_allows(passed as int, budget_millis),
            budget_millis is None ==> go_on,
    {
        match budget_millis {
            Some(budget) => {
                let passed = start.elapsed().as_millis();
                assert(time_allows(passed as int, budget_millis) == (passed < budget));
                passed < budget as u128
            },
            None => {
                assert(time_allows(0u128 as int, budget_millis));
                true
            },
        }
    }

    /// Searches the position for the given time and returns the move of the
    /// robust child of the root, or `None` when the root gained no child,
    /// which is the case when there is no legal move or when the time did
    /// not allow an iteration.
    ///
    /// `select` is the selection policy: it is given the accumulated value
    /// and the visit count of each child of a node, and the node's visit
    /// count, and names the child to descend into. `on_progress` is called
    /// with the running statistics after every 50th iteration.
    pub fn get_best_move<F: Fn(Vec<(i64, u32)>, u32) -> usize, P: Fn(&SimulationStats)>(
        &mut self,
        board: &Board,
        color: Color,
        budget_millis: u64,
        select: &F,
        on_progress: &P,
    ) -> (best: Option<Step>)
        requires
            forall|tallies: Vec<(i64, u32)>, visits: u32|
                call_requires(*select, (tallies, visits)),
            forall|stats: &SimulationStats| call_requires(*on_progress, (stats,)),
        ensures
            final(self).simulation_depth == old(self).simulation_depth,
            search_answer(
                *select,
                old(self).simulation_depth as int,
                board@,
                color,
                final(self).current_stats.total_simulations as nat,
                best,
                final(self).current_stats.best_move_confidence,
            ),
            progress_report(
                *select,
                old(self).simulation_depth as int,
                board@,
                color,
                final(self).current_stats.total_simulations as nat,
                final(self).current_stats.current_eval as int,
                final(self).current_stats.top_moves@,
            ),
            final(self).current_stats.total_simulations <= final(self).current_stats.nodes_explored,
            best is Some ==> is_legal(board@, color, best->0),
            best is Some <==> ranked_moves(board@, color).len() > 0
                && final(self).current_stats.total_simulations >= 1,
            final(self).current_stats.best_move_confidence.in_unit_interval(),
            best is Some ==> final(self).current_stats.best_move_confidence.visits >= 1,
            match best {
                Some(mv) => final(self).current_stats.best_line@.len() == 1
                    && final(self).current_stats.best_line@[0]@ == move_text(mv),
                None => final(self).current_stats.best_line@.len() == 0,
            },
            final(self).current_stats.depth_reached == 0,
            final(self).current_stats.thinking_line@.len() == 0,
    {
        self.search(board, color, u32::MAX, Some(budget_millis), select, on_progress)
    }
}

} // verus!
