//! The tree of a Monte-Carlo search, kept in one growing store of nodes.
//!
//! A node is grown by giving it one child for each continuation of its game
//! and playing a batch of random playouts from the first of them. What the
//! playouts credit to each side is then added, along the path that led to the
//! node, to the value of every node for the side to move there.

use vstd::prelude::*;
use crate::history::{lemma_slot_is_unique, lemma_swapped_is_permutation, History, HistoryView};
use crate::pcg::{state_after_uniform_draw, uniform_draw, Pcg, PcgView};
use crate::piece::{Move, Piece, Spot};
use crate::playout::{random_playout, PlayoutState, LAST_TURN};

verus! {

/// What a node holds.
pub struct NodeView {
    pub value: nat,
    pub count: nat,
    pub child_count: nat,
    pub first_child: nat,
    pub history: HistoryView,
}

impl NodeView {
    /// A node that was never visited and has no children.
    pub open spec fn fresh(history: HistoryView) -> NodeView {
        NodeView { value: 0, count: 0, child_count: 0, first_child: 0, history }
    }
}

/// One game state of the tree: its score, its visits, where its children
/// stand in the store, and the history that leads to it.
pub struct Node {
    value: u32,
    count: u32,
    child_count: usize,
    first_child: usize,
    history: History,
}

impl View for Node {
    type V = NodeView;

    closed spec fn view(&self) -> NodeView {
        NodeView {
            value: self.value as nat,
            count: self.count as nat,
            child_count: self.child_count as nat,
            first_child: self.first_child as nat,
            history: self.history@,
        }
    }
}

/// How many continuations a game has at `turn`: a piece alone at turn 0, a
/// free piece and a free spot afterwards.
pub open spec fn continuation_count(turn: int) -> int {
    if turn >= 1 {
        (16 - turn) * (17 - turn)
    } else {
        16
    }
}

impl HistoryView {
    /// The `j`-th continuation of the game at `turn`: the history with one of
    /// the free pieces and one of the free spots committed.
    pub open spec fn continuation(self, turn: int, j: int) -> HistoryView {
        if turn >= 1 {
            self.swap_pieces(turn, turn + j / (17 - turn)).swap_spots(
                turn - 1,
                turn - 1 + j % (17 - turn),
            )
        } else {
            self.swap_pieces(0, j)
        }
    }
}

/// A game at one of the turns `0..=15` has at least two continuations, and
/// the first of them leaves the history as it is.
pub proof fn lemma_continuations(history: HistoryView, turn: int)
    requires
        history.wf(),
        0 <= turn <= 15,
    ensures
        continuation_count(turn) >= 2,
        history.continuation(turn, 0) == history,
{
    if turn >= 1 {
        assert((16 - turn) * (17 - turn) >= 2) by (nonlinear_arith)
            requires
                1 <= turn <= 15,
        ;
    }
    assert(history.continuation(turn, 0).pieces =~= history.pieces);
    assert(history.continuation(turn, 0).spots =~= history.spots);
}

/// The piece slot and the spot slot that the `j`-th continuation commits.
proof fn lemma_continuation_slots(turn: int, j: int)
    requires
        1 <= turn <= 15,
        0 <= j < continuation_count(turn),
    ensures
        0 <= j / (17 - turn) < 16 - turn,
        0 <= j % (17 - turn) < 17 - turn,
        j == (j / (17 - turn)) * (17 - turn) + j % (17 - turn),
{
    let m = 17 - turn;
    vstd::arithmetic::div_mod::lemma_fundamental_div_mod(j, m);
    vstd::arithmetic::div_mod::lemma_mod_bound(j, m);
    let q = j / m;
    assert(q * m == m * q) by (nonlinear_arith);
    assert(0 <= q < 16 - turn) by (nonlinear_arith)
        requires
            j == q * m + j % m,
            0 <= j % m < m,
            0 <= j < (16 - turn) * m,
            m > 0,
    ;
}

impl HistoryView {
    /// Every continuation is the history after a legal move that gives both a
    /// piece and, from turn 1 on, a spot: the move that it records for the turn.
    pub proof fn lemma_continuation_is_legal(self, turn: int, j: int)
        requires
            self.wf(),
            0 <= turn <= 15,
            0 <= j < continuation_count(turn),
        ensures
            self.continuation(turn, j).wf(),
            self.accepts(turn, self.continuation(turn, j).move_at(turn)),
            self.commit(turn, self.continuation(turn, j).move_at(turn)) == self.continuation(
                turn,
                j,
            ),
    {
        let next = self.continuation(turn, j);
        let mv = next.move_at(turn);
        if turn >= 1 {
            lemma_continuation_slots(turn, j);
            let p = turn + j / (17 - turn);
            let s = turn - 1 + j % (17 - turn);
            lemma_swapped_is_permutation(self.pieces, turn, p);
            lemma_swapped_is_permutation(self.spots, turn - 1, s);
            lemma_slot_is_unique(self.pieces, p);
            lemma_slot_is_unique(self.spots, s);
            assert(mv.spot == Some(Spot(self.spots[s])));
            assert(mv.piece == Some(Piece(self.pieces[p])));
            assert(self.spot_is_free(turn, Spot(self.spots[s])));
            assert(self.piece_is_free(turn, Piece(self.pieces[p])));
        } else {
            lemma_swapped_is_permutation(self.pieces, 0, j);
            lemma_slot_is_unique(self.pieces, j);
            assert(mv.piece == Some(Piece(self.pieces[j])));
            assert(self.piece_is_free(turn, Piece(self.pieces[j])));
        }
    }

    /// Every legal move that hands over a piece leads to one of the
    /// continuations.
    pub proof fn lemma_legal_move_is_a_continuation(self, turn: int, mv: Move)
        requires
            self.wf(),
            0 <= turn <= 15,
            self.accepts(turn, mv),
            mv.piece is Some,
        ensures
            exists|j: int|
                0 <= j < continuation_count(turn) && #[trigger] self.continuation(turn, j)
                    == self.commit(turn, mv),
    {
        let piece = mv.piece->0;
        let p = choose|k: int| turn <= k < 16 && 0 <= k && #[trigger] self.pieces[k] == piece.0;
        lemma_slot_is_unique(self.pieces, p);
        if turn >= 1 {
            let spot = mv.spot->0;
            let s = choose|k: int| turn - 1 <= k < 16 && 0 <= k && #[trigger] self.spots[k] == spot.0;
            lemma_slot_is_unique(self.spots, s);
            let m = 17 - turn;
            let j = (p - turn) * m + (s - (turn - 1));
            assert(0 <= j < continuation_count(turn)) by (nonlinear_arith)
                requires
                    j == (p - turn) * m + (s - (turn - 1)),
                    0 <= p - turn < 16 - turn,
                    0 <= s - (turn - 1) < m,
                    m == 17 - turn,
                    continuation_count(turn) == (16 - turn) * (17 - turn),
            ;
            vstd::arithmetic::div_mod::lemma_fundamental_div_mod_converse(
                j,
                m,
                p - turn,
                s - (turn - 1),
            );
            assert(self.continuation(turn, j) == self.commit(turn, mv));
        } else {
            assert(self.continuation(turn, p) == self.commit(turn, mv));
        }
    }

    /// Two continuations differ in the move that leads to them.
    pub proof fn lemma_continuations_differ(self, turn: int, i: int, j: int)
        requires
            self.wf(),
            0 <= turn <= 15,
            0 <= i < j < continuation_count(turn),
        ensures
            self.continuation(turn, i).move_at(turn) != self.continuation(turn, j).move_at(turn),
    {
        if turn >= 1 {
            lemma_continuation_slots(turn, i);
            lemma_continuation_slots(turn, j);
            let m = 17 - turn;
            if i / m != j / m {
                let a = turn + i / m;
                let b = turn + j / m;
                if a < b {
                    assert(self.pieces[a] != self.pieces[b]);
                } else {
                    assert(self.pieces[b] != self.pieces[a]);
                }
            } else {
                let a = turn - 1 + i % m;
                let b = turn - 1 + j % m;
                if a < b {
                    assert(self.spots[a] != self.spots[b]);
                } else {
                    assert(self.spots[b] != self.spots[a]);
                }
            }
        } else {
            assert(self.pieces[i] != self.pieces[j]);
        }
    }
}

/// What one playout credits to the side that moves at turns of parity `side`:
/// two units for a win, one for a draw.
pub open spec fn credit(stop: int, side: int) -> nat {
    if stop > LAST_TURN {
        1
    } else if stop % 2 == side {
        2
    } else {
        0
    }
}

/// A batch of playouts under way: the history that the playouts shuffle, the
/// state of the generator, and the credit of the two sides so far.
pub struct BatchState {
    pub history: HistoryView,
    pub pcg: u64,
    pub even: nat,
    pub odd: nat,
}

impl BatchState {
    /// A batch about to start.
    pub open spec fn begin(history: HistoryView, pcg: u64) -> BatchState {
        BatchState { history, pcg, even: 0, odd: 0 }
    }

    /// The batch after one more playout from `turn`: two uniform draws, the
    /// first for the pieces and the second for the spots, then the playout.
    pub open spec fn step(self, turn: int, inc: u64) -> BatchState {
        let piece_source = uniform_draw(self.pcg, inc);
        let drawn = state_after_uniform_draw(self.pcg, inc);
        let spot_source = uniform_draw(drawn, inc);
        let start = PlayoutState::begin(self.history, piece_source, spot_source);
        let stop = start.stop(turn, turn);
        BatchState {
            history: start.end(turn),
            pcg: state_after_uniform_draw(drawn, inc),
            even: self.even + credit(stop, 0),
            odd: self.odd + credit(stop, 1),
        }
    }

    /// The batch after `k` more playouts from `turn`.
    pub open spec fn run(self, turn: int, inc: u64, k: nat) -> BatchState
        decreases k,
    {
        if k == 0 {
            self
        } else {
            self.run(turn, inc, (k - 1) as nat).step(turn, inc)
        }
    }

    /// Every playout credits two units in all, and keeps the permutations.
    pub proof fn lemma_run(self, turn: int, inc: u64, k: nat)
        requires
            self.history.wf(),
        ensures
            self.run(turn, inc, k).history.wf(),
            self.run(turn, inc, k).even + self.run(turn, inc, k).odd == self.even + self.odd + 2
                * k,
        decreases k,
    {
        if k > 0 {
            let before = self.run(turn, inc, (k - 1) as nat);
            self.lemma_run(turn, inc, (k - 1) as nat);
            let piece_source = uniform_draw(before.pcg, inc);
            let drawn = state_after_uniform_draw(before.pcg, inc);
            let spot_source = uniform_draw(drawn, inc);
            let start = PlayoutState::begin(before.history, piece_source, spot_source);
            start.lemma_run(turn, start.stop(turn, turn));
        }
    }
}

/// What a search holds.
pub struct BrutoView {
    pub pcg: PcgView,
    pub nodes: Seq<NodeView>,
    pub batch: nat,
}

impl BrutoView {
    /// The children of every node stand in the store, after the node itself,
    /// and the credit of a batch fits in 32 bits.
    pub open spec fn wf(self) -> bool {
        &&& 2 * self.batch <= u32::MAX
        &&& forall|k: int|
            0 <= k < self.nodes.len() ==> {
                &&& (#[trigger] self.nodes[k]).first_child + self.nodes[k].child_count
                    <= self.nodes.len()
                &&& self.nodes[k].child_count > 0 ==> self.nodes[k].first_child > k
                &&& self.nodes[k].history.wf()
            }
    }

    /// The most visited of the `count` nodes from `first` on, the first of
    /// them where several are visited as often.
    pub open spec fn most_visited(self, first: int, count: int) -> int
        decreases count,
    {
        if count <= 1 {
            first
        } else {
            let best = self.most_visited(first, count - 1);
            if self.nodes[first + count - 1].count > self.nodes[best].count {
                first + count - 1
            } else {
                best
            }
        }
    }

    /// `most_visited` names a node of the range that no node of the range
    /// beats and that no earlier one equals.
    pub proof fn lemma_most_visited(self, first: int, count: int)
        requires
            count >= 1,
        ensures
            first <= self.most_visited(first, count) < first + count,
            forall|k: int|
                first <= k < first + count ==> (#[trigger] self.nodes[k]).count
                    <= self.nodes[self.most_visited(first, count)].count,
            forall|k: int|
                first <= k < self.most_visited(first, count) ==> (#[trigger] self.nodes[k]).count
                    < self.nodes[self.most_visited(first, count)].count,
        decreases count,
    {
        if count > 1 {
            self.lemma_most_visited(first, count - 1);
        }
    }

    /// `path` is a walk down the tree: it starts at a node of the store, every
    /// further node is a child of the one before, and the last has no children.
    pub open spec fn is_walk(self, path: Seq<usize>) -> bool {
        &&& path.len() >= 1
        &&& path[0] < self.nodes.len()
        &&& forall|i: int|
            0 <= i < path.len() - 1 ==> self.nodes[path[i] as int].first_child <= #[trigger] path[i
                + 1] < self.nodes[path[i] as int].first_child + self.nodes[path[i] as int].child_count
        &&& self.nodes[path[path.len() - 1] as int].child_count == 0
    }

    /// A walk stays in the store and goes to ever later nodes.
    pub proof fn lemma_walk(self, path: Seq<usize>, i: int, j: int)
        requires
            self.wf(),
            self.is_walk(path),
            0 <= i <= j < path.len(),
        ensures
            path[j] < self.nodes.len(),
            path[i] <= path[j],
            i < j ==> path[i] < path[j],
        decreases j,
    {
        if j > 0 {
            if i < j {
                self.lemma_walk(path, i, j - 1);
            }
            self.lemma_walk(path, j - 1, j - 1);
            assert(self.nodes[path[j - 1] as int].first_child <= path[j - 1 + 1]);
        }
    }

    /// Fresh nodes for the first `count` continuations of a game.
    pub open spec fn offspring(history: HistoryView, turn: int, count: int) -> Seq<NodeView> {
        Seq::new(count as nat, |j: int| NodeView::fresh(history.continuation(turn, j)))
    }

    /// The nodes that growing a node adds: a fresh one for each continuation,
    /// the first of them with the history that the playouts left.
    pub open spec fn grown(history: HistoryView, turn: int, shuffled: HistoryView) -> Seq<NodeView> {
        Self::offspring(history, turn, continuation_count(turn)).update(
            0,
            NodeView::fresh(shuffled),
        )
    }
}

impl NodeView {
    /// The node after a batch that credits `counters` was played below it,
    /// seen from the side that moves at `turn`.
    pub open spec fn credited(self, turn: int, counters: [u32; 2], batch: nat) -> NodeView {
        NodeView {
            value: self.value + counters[turn % 2] as nat,
            count: self.count + batch,
            ..self
        }
    }
}

/// The tree search: a generator for its playouts, the store of its nodes, and
/// the number of playouts run at each new leaf.
pub struct Bruto {
    pcg: Pcg,
    nodes: Vec<Node>,
    playout_batch_size: u32,
}

impl View for Bruto {
    type V = BrutoView;

    closed spec fn view(&self) -> BrutoView {
        BrutoView {
            pcg: self.pcg@,
            nodes: Seq::new(self.nodes@.len(), |k: int| self.nodes@[k]@),
            batch: self.playout_batch_size as nat,
        }
    }
}

impl Bruto {
    /// A search with a new generator, no nodes, and batches of 1000 playouts.
    pub fn new() -> (bruto: Bruto)
        ensures
            bruto@.wf(),
            bruto@.pcg == Pcg::new_view(),
            bruto@.nodes.len() == 0,
            bruto@.batch == 1000,
    {
        Self { pcg: Pcg::new(), nodes: vec![], playout_batch_size: 1000 }
    }

    /// Forgets the tree and starts a new one whose root is the game `history`.
    pub fn set_root(&mut self, history: &History)
        requires
            old(self)@.wf(),
        ensures
            final(self)@.wf(),
            final(self)@.pcg == old(self)@.pcg,
            final(self)@.batch == old(self)@.batch,
            final(self)@.nodes == seq![NodeView::fresh(history@)],
    {
        proof {
            use_type_invariant(history);
        }
        self.nodes.clear();
        self.nodes.push(
            Node { value: 0, count: 0, child_count: 0, first_child: 0, history: history.clone() },
        );
        assert(self@.nodes =~= seq![NodeView::fresh(history@)]);
    }

    /// The number of nodes in the store.
    pub fn len(&self) -> (len: usize)
        ensures
            len == self@.nodes.len(),
    {
        self.nodes.len()
    }

    /// The score of node `n`.
    pub fn value(&self, n: usize) -> (value: u32)
        requires
            n < self@.nodes.len(),
        ensures
            value == self@.nodes[n as int].value,
    {
        self.nodes[n].value
    }

    /// The visits of node `n`.
    pub fn count(&self, n: usize) -> (count: u32)
        requires
            n < self@.nodes.len(),
        ensures
            count == self@.nodes[n as int].count,
    {
        self.nodes[n].count
    }

    /// The place of the first child of node `n` in the store.
    pub fn first_child(&self, n: usize) -> (first_child: usize)
        requires
            n < self@.nodes.len(),
        ensures
            first_child == self@.nodes[n as int].first_child,
    {
        self.nodes[n].first_child
    }

    /// The number of children of node `n`.
    pub fn child_count(&self, n: usize) -> (child_count: usize)
        requires
            n < self@.nodes.len(),
        ensures
            child_count == self@.nodes[n as int].child_count,
    {
        self.nodes[n].child_count
    }

    /// The history of node `n`.
    pub fn history(&self, n: usize) -> (history: &History)
        requires
            n < self@.nodes.len(),
        ensures
            history@ == self@.nodes[n as int].history,
    {
        &self.nodes[n].history
    }

    /// The number of playouts in a batch.
    pub fn batch_size(&self) -> (batch: u32)
        ensures
            batch == self@.batch,
    {
        self.playout_batch_size
    }

    /// The move that leads to the most visited child of node `n`, a game at
    /// `turn`; nothing if the node has no children.
    pub fn best_move(&self, n: usize, turn: i8) -> (mv: Option<Move>)
        requires
            self@.wf(),
            n < self@.nodes.len(),
        ensures
            mv == if self@.nodes[n as int].child_count == 0 {
                None
            } else {
                Some(
                    self@.nodes[self@.most_visited(
                        self@.nodes[n as int].first_child as int,
                        self@.nodes[n as int].child_count as int,
                    )].history.move_at(turn as int),
                )
            },
    {
        let first = self.nodes[n].first_child;
        let count = self.nodes[n].child_count;
        if count == 0 {
            return None;
        }
        let len = self.nodes.len();
        assert(first + count <= len) by {
            assert(self@.nodes[n as int].first_child + self@.nodes[n as int].child_count
                <= self@.nodes.len());
        }
        let end = first + count;
        let mut best = first;
        let mut k = first + 1;
        while k < end
            invariant
                end <= self@.nodes.len(),
                first < k <= end,
                best == self@.most_visited(first as int, k - first),
                first <= best < k,
            decreases end - k,
        {
            if self.nodes[k].count > self.nodes[best].count {
                best = k;
            }
            k += 1;
        }
        let history = &self.nodes[best].history;
        Some(Move { spot: history.get_spot(turn), piece: history.get_piece(turn) })
    }

    /// Appends a fresh node for each continuation of the game of node `n`.
    fn add_children(&mut self, n: usize, turn: i8)
        requires
            old(self)@.wf(),
            n < old(self)@.nodes.len(),
            0 <= turn <= 15,
        ensures
            final(self)@.wf(),
            final(self)@.pcg == old(self)@.pcg,
            final(self)@.batch == old(self)@.batch,
            final(self)@.nodes == old(self)@.nodes + BrutoView::offspring(
                old(self)@.nodes[n as int].history,
                turn as int,
                continuation_count(turn as int),
            ),
    {
        let ghost before = self@;
        let ghost history = self@.nodes[n as int].history;
        if turn >= 1 {
            let ghost m = 17 - turn;
            let mut piece_index: i8 = turn;
            while piece_index < 16
                invariant
                    1 <= turn <= piece_index <= 16,
                    m == 17 - turn,
                    n < before.nodes.len(),
                    history == before.nodes[n as int].history,
                    before.wf(),
                    self@.wf(),
                    self@.pcg == before.pcg,
                    self@.batch == before.batch,
                    self@.nodes == before.nodes + BrutoView::offspring(
                        history,
                        turn as int,
                        (piece_index - turn) * m,
                    ),
                decreases 16 - piece_index,
            {
                let mut spot_index: i8 = turn - 1;
                while spot_index < 16
                    invariant
                        1 <= turn <= piece_index < 16,
                        turn - 1 <= spot_index <= 16,
                        m == 17 - turn,
                        n < before.nodes.len(),
                        history == before.nodes[n as int].history,
                        before.wf(),
                        self@.wf(),
                        self@.pcg == before.pcg,
                        self@.batch == before.batch,
                        self@.nodes == before.nodes + BrutoView::offspring(
                            history,
                            turn as int,
                            (piece_index - turn) * m + (spot_index - (turn - 1)),
                        ),
                    decreases 16 - spot_index,
                {
                    let ghost j = (piece_index - turn) * m + (spot_index - (turn - 1));
                    let ghost store = self@.nodes;
                    assert(self@.nodes.len() >= before.nodes.len());
                    let mut descendant = self.nodes[n].history.clone();
                    assert(descendant@ == history) by {
                        assert(self@.nodes[n as int] == before.nodes[n as int]);
                    }
                    descendant.swap_pieces(turn, piece_index);
                    descendant.swap_spots(turn - 1, spot_index);
                    proof {
                        assert(0 <= (piece_index - turn) * m) by (nonlinear_arith)
                            requires
                                0 <= piece_index - turn,
                                0 <= m,
                        ;
                        vstd::arithmetic::div_mod::lemma_fundamental_div_mod_converse(
                            j,
                            m,
                            piece_index - turn,
                            spot_index - (turn - 1),
                        );
                        assert(descendant@ == history.continuation(turn as int, j));
                    }
                    self.nodes.push(
                        Node { value: 0, count: 0, child_count: 0, first_child: 0, history: descendant },
                    );
                    assert(self@.nodes =~= store.push(
                        NodeView::fresh(history.continuation(turn as int, j)),
                    ));
                    assert(self@.nodes =~= before.nodes + BrutoView::offspring(
                        history,
                        turn as int,
                        j + 1,
                    ));
                    spot_index += 1;
                }
                assert((piece_index - turn) * m + m == (piece_index + 1 - turn) * m)
                    by (nonlinear_arith);
                piece_index += 1;
            }
            assert((16 - turn) * m == continuation_count(turn as int));
        } else {
            let mut piece_index: i8 = 0;
            while piece_index < 16
                invariant
                    turn == 0,
                    0 <= piece_index <= 16,
                    n < before.nodes.len(),
                    history == before.nodes[n as int].history,
                    before.wf(),
                    self@.wf(),
                    self@.pcg == before.pcg,
                    self@.batch == before.batch,
                    self@.nodes == before.nodes + BrutoView::offspring(
                        history,
                        0,
                        piece_index as int,
                    ),
                decreases 16 - piece_index,
            {
                let ghost store = self@.nodes;
                assert(self@.nodes.len() >= before.nodes.len());
                let mut descendant = self.nodes[n].history.clone();
                assert(descendant@ == history) by {
                    assert(self@.nodes[n as int] == before.nodes[n as int]);
                }
                descendant.swap_pieces(0, piece_index);
                self.nodes.push(
                    Node { value: 0, count: 0, child_count: 0, first_child: 0, history: descendant },
                );
                assert(self@.nodes =~= store.push(
                    NodeView::fresh(history.continuation(0, piece_index as int)),
                ));
                assert(self@.nodes =~= before.nodes + BrutoView::offspring(
                    history,
                    0,
                    piece_index + 1,
                ));
                piece_index += 1;
            }
        }
    }

    /// Plays one playout from `turn` on the history of node `child`, with two
    /// uniform draws: the first for the pieces, the second for the spots.
    fn play_out(&mut self, child: usize, turn: i8) -> (result: Option<i8>)
        requires
            old(self)@.wf(),
            child < old(self)@.nodes.len(),
            0 <= turn,
        ensures
            final(self)@.wf(),
            final(self)@.batch == old(self)@.batch,
            ({
                let before = old(self)@;
                let inc = before.pcg.inc;
                let drawn = state_after_uniform_draw(before.pcg.state, inc);
                let start = PlayoutState::begin(
                    before.nodes[child as int].history,
                    uniform_draw(before.pcg.state, inc),
                    uniform_draw(drawn, inc),
                );
                &&& result == start.outcome(turn as int)
                &&& final(self)@.pcg.state == state_after_uniform_draw(drawn, inc)
                &&& final(self)@.pcg.inc == inc
                &&& final(self)@.nodes == before.nodes.update(
                    child as int,
                    (NodeView { history: start.end(turn as int), ..before.nodes[child as int] }),
                )
            }),
    {
        let ghost before = self@;
        let piece_random_source = self.pcg.rand_16_fact();
        let spot_random_source = self.pcg.rand_16_fact();
        assert(child < self.nodes.len());
        let result = random_playout(
            &mut self.nodes[child].history,
            turn,
            piece_random_source,
            spot_random_source,
        );
        assert(self@.nodes =~= before.nodes.update(
            child as int,
            (NodeView { history: self@.nodes[child as int].history, ..before.nodes[child as int] }),
        ));
        result
    }

    /// Plays one batch of playouts from `turn` on the history of node `child`
    /// and returns what they credit to the two sides.
    fn run_batch(&mut self, child: usize, turn: i8) -> (counters: [u32; 2])
        requires
            old(self)@.wf(),
            child < old(self)@.nodes.len(),
            0 <= turn,
        ensures
            final(self)@.wf(),
            final(self)@.batch == old(self)@.batch,
            ({
                let before = old(self)@;
                let outcome = BatchState::begin(
                    before.nodes[child as int].history,
                    before.pcg.state,
                ).run(turn as int, before.pcg.inc, before.batch);
                &&& counters[0] == outcome.even
                &&& counters[1] == outcome.odd
                &&& final(self)@.pcg.state == outcome.pcg
                &&& final(self)@.pcg.inc == before.pcg.inc
                &&& final(self)@.nodes == before.nodes.update(
                    child as int,
                    (NodeView { history: outcome.history, ..before.nodes[child as int] }),
                )
            }),
    {
        let ghost before = self@;
        let ghost start = BatchState::begin(before.nodes[child as int].history, before.pcg.state);
        let ghost inc = before.pcg.inc;
        let mut counters: [u32; 2] = [0; 2];
        let mut i: u32 = 0;
        assert(self@.nodes =~= before.nodes.update(
            child as int,
            (NodeView { history: start.history, ..before.nodes[child as int] }),
        ));
        while i < self.playout_batch_size
            invariant
                0 <= turn,
                before.wf(),
                child < before.nodes.len(),
                start == BatchState::begin(before.nodes[child as int].history, before.pcg.state),
                inc == before.pcg.inc,
                self@.wf(),
                self@.batch == before.batch,
                i <= self@.batch,
                counters[0] == start.run(turn as int, inc, i as nat).even,
                counters[1] == start.run(turn as int, inc, i as nat).odd,
                self@.pcg.state == start.run(turn as int, inc, i as nat).pcg,
                self@.pcg.inc == inc,
                self@.nodes == before.nodes.update(
                    child as int,
                    (NodeView {
                        history: start.run(turn as int, inc, i as nat).history,
                        ..before.nodes[child as int]
                    }),
                ),
            decreases self@.batch - i,
        {
            let ghost reached = start.run(turn as int, inc, i as nat);
            let ghost store = self@.nodes;
            proof {
                start.lemma_run(turn as int, inc, i as nat);
                start.lemma_run(turn as int, inc, (i + 1) as nat);
                assert(start.run(turn as int, inc, (i + 1) as nat) == reached.step(turn as int, inc));
            }
            let result = self.play_out(child, turn);
            let ghost playout = PlayoutState::begin(
                reached.history,
                uniform_draw(reached.pcg, inc),
                uniform_draw(state_after_uniform_draw(reached.pcg, inc), inc),
            );
            proof {
                playout.lemma_stop(turn as int, turn as int);
            }
            match result {
                Some(final_turn) => {
                    let side = final_turn as usize & 1;
                    assert(side == final_turn as int % 2) by (bit_vector)
                        requires
                            side == final_turn as usize & 1,
                            0 <= final_turn,
                    ;
                    counters[side] += 2;
                },
                None => {
                    counters[0] += 1;
                    counters[1] += 1;
                },
            }
            i += 1;
            assert(self@.nodes =~= before.nodes.update(
                child as int,
                (NodeView {
                    history: start.run(turn as int, inc, i as nat).history,
                    ..before.nodes[child as int]
                }),
            ));
        }
        counters
    }

    /// Grows node `n`, which stands for a game at `turn`: gives it a child for
    /// each continuation, plays a batch of playouts from the first child, and
    /// counts the batch as a visit of `n`. Returns what the batch credits to
    /// the side that moves at even turns and to the side that moves at odd ones.
    pub fn expand(&mut self, n: usize, turn: i8) -> (counters: [u32; 2])
        requires
            old(self)@.wf(),
            n < old(self)@.nodes.len(),
            0 <= turn <= 15,
            old(self)@.nodes[n as int].value + 2 * old(self)@.batch <= u32::MAX,
            old(self)@.nodes[n as int].count + old(self)@.batch <= u32::MAX,
        ensures
            final(self)@.wf(),
            final(self)@.batch == old(self)@.batch,
            counters[0] + counters[1] == 2 * old(self)@.batch,
            ({
                let before = old(self)@;
                let parent = before.nodes[n as int];
                let outcome = BatchState::begin(parent.history, before.pcg.state).run(
                    turn + 1,
                    before.pcg.inc,
                    before.batch,
                );
                &&& counters[0] == outcome.even
                &&& counters[1] == outcome.odd
                &&& final(self)@.pcg.state == outcome.pcg
                &&& final(self)@.pcg.inc == before.pcg.inc
                &&& final(self)@.nodes == before.nodes.update(
                    n as int,
                    (NodeView {
                        value: parent.value + counters[turn as int % 2] as nat,
                        count: parent.count + before.batch,
                        first_child: before.nodes.len(),
                        child_count: continuation_count(turn as int) as nat,
                        history: parent.history,
                    }),
                ) + BrutoView::grown(parent.history, turn as int, outcome.history)
            }),
    {
        let ghost before = self@;
        let ghost parent = before.nodes[n as int];
        let first_child = self.nodes.len();
        self.add_children(n, turn);
        let ghost children = BrutoView::offspring(
            parent.history,
            turn as int,
            continuation_count(turn as int),
        );
        proof {
            lemma_continuations(parent.history, turn as int);
            assert(self@.nodes.len() == before.nodes.len() + children.len());
        }
        let child_count = self.nodes.len() - first_child;
        self.adopt(n, first_child, child_count);
        let ghost linked = self@.nodes[n as int];
        let counters = self.run_batch(first_child, turn + 1);
        let ghost shuffled = self@.nodes[first_child as int].history;
        proof {
            BatchState::begin(parent.history, before.pcg.state).lemma_run(
                turn + 1,
                before.pcg.inc,
                before.batch,
            );
        }
        self.backup(n, turn, counters);
        proof {
            let grown = BrutoView::grown(parent.history, turn as int, shuffled);
            let updated = before.nodes.update(n as int, self@.nodes[n as int]);
            assert(self@.nodes.len() == (updated + grown).len());
            assert forall|k: int| 0 <= k < self@.nodes.len() implies self@.nodes[k] == (updated
                + grown)[k] by {
                if k >= before.nodes.len() && k != first_child {
                    assert(self@.nodes[k] == children[k - before.nodes.len()]);
                }
            }
            assert(self@.nodes =~= updated + grown);
        }
        counters
    }

    /// Records the children of node `n`.
    fn adopt(&mut self, n: usize, first_child: usize, child_count: usize)
        requires
            old(self)@.wf(),
            n < old(self)@.nodes.len(),
            n < first_child,
            first_child + child_count == old(self)@.nodes.len(),
        ensures
            final(self)@.wf(),
            final(self)@.pcg == old(self)@.pcg,
            final(self)@.batch == old(self)@.batch,
            final(self)@.nodes == old(self)@.nodes.update(
                n as int,
                (NodeView {
                    first_child: first_child as nat,
                    child_count: child_count as nat,
                    ..old(self)@.nodes[n as int]
                }),
            ),
    {
        self.nodes[n].first_child = first_child;
        self.nodes[n].child_count = child_count;
        assert(self@.nodes =~= old(self)@.nodes.update(
            n as int,
            (NodeView {
                first_child: first_child as nat,
                child_count: child_count as nat,
                ..old(self)@.nodes[n as int]
            }),
        ));
    }

    /// Adds `counters[turn & 1]`, the credit of the side to move at `turn`, to
    /// the value of node `n`, and one batch to its visits.
    pub fn backup(&mut self, n: usize, turn: i8, counters: [u32; 2])
        requires
            old(self)@.wf(),
            n < old(self)@.nodes.len(),
            0 <= turn,
            old(self)@.nodes[n as int].value + counters[turn as int % 2] <= u32::MAX,
            old(self)@.nodes[n as int].count + old(self)@.batch <= u32::MAX,
        ensures
            final(self)@.wf(),
            final(self)@.pcg == old(self)@.pcg,
            final(self)@.batch == old(self)@.batch,
            final(self)@.nodes == old(self)@.nodes.update(
                n as int,
                old(self)@.nodes[n as int].credited(turn as int, counters, old(self)@.batch),
            ),
    {
        let side = turn as usize & 1;
        assert(side == turn as int % 2) by (bit_vector)
            requires
                side == turn as usize & 1,
                0 <= turn,
        ;
        self.nodes[n].value += counters[side];
        self.nodes[n].count += self.playout_batch_size;
        assert(self@.nodes =~= old(self)@.nodes.update(
            n as int,
            old(self)@.nodes[n as int].credited(turn as int, counters, old(self)@.batch),
        ));
    }

    /// Grows the tree at the end of a walk that starts at a game at `turn`:
    /// the leaf is expanded, and the batch played there is backed up to every
    /// node of the walk, each credited for the side that moves at its own
    /// turn. Which child the walk takes at each node is the caller's choice.
    pub fn descend(&mut self, path: &[usize], turn: i8) -> (counters: [u32; 2])
        requires
            old(self)@.wf(),
            old(self)@.is_walk(path@),
            0 <= turn,
            turn + path@.len() <= 16,
            forall|i: int|
                0 <= i < path@.len() ==> {
                    &&& (#[trigger] old(self)@.nodes[path@[i] as int]).value + 2 * old(self)@.batch
                        <= u32::MAX
                    &&& old(self)@.nodes[path@[i] as int].count + old(self)@.batch <= u32::MAX
                },
        ensures
            final(self)@.wf(),
            final(self)@.batch == old(self)@.batch,
            counters[0] + counters[1] == 2 * old(self)@.batch,
            ({
                let before = old(self)@;
                let depth = path@.len() - 1;
                let leaf = path@[depth] as int;
                let outcome = BatchState::begin(before.nodes[leaf].history, before.pcg.state).run(
                    turn + depth + 1,
                    before.pcg.inc,
                    before.batch,
                );
                &&& counters[0] == outcome.even
                &&& counters[1] == outcome.odd
                &&& final(self)@.pcg.state == outcome.pcg
                &&& final(self)@.pcg.inc == before.pcg.inc
                &&& final(self)@.nodes.len() == before.nodes.len() + continuation_count(turn + depth)
                &&& final(self)@.nodes.subrange(
                    before.nodes.len() as int,
                    final(self)@.nodes.len() as int,
                ) == BrutoView::grown(before.nodes[leaf].history, turn + depth, outcome.history)
                &&& final(self)@.nodes[leaf] == (NodeView {
                    first_child: before.nodes.len(),
                    child_count: continuation_count(turn + depth) as nat,
                    ..before.nodes[leaf].credited(turn + depth, counters, before.batch)
                })
                &&& forall|i: int|
                    0 <= i < depth ==> #[trigger] final(self)@.nodes[path@[i] as int]
                        == before.nodes[path@[i] as int].credited(turn + i, counters, before.batch)
                &&& forall|k: int|
                    0 <= k < before.nodes.len() && (forall|i: int|
                        0 <= i < path@.len() ==> path@[i] != k) ==> #[trigger] final(self)@.nodes[k]
                        == before.nodes[k]
            }),
    {
        let ghost before = self@;
        let depth = path.len() - 1;
        let leaf = path[depth];
        proof {
            assert forall|i: int, j: int| 0 <= i <= j < path@.len() implies path@[j]
                < before.nodes.len() && (i < j ==> path@[i] < path@[j]) by {
                before.lemma_walk(path@, i, j);
            }
        }
        let counters = self.expand(leaf, turn + depth as i8);
        let ghost grown = self@;
        let above = &path[0..depth];
        proof {
            lemma_continuations(before.nodes[leaf as int].history, turn + depth);
            assert(grown.nodes.len() == before.nodes.len() + continuation_count(turn + depth));
            assert forall|i: int| 0 <= i < above@.len() implies above@[i] == path@[i] by {}
            assert forall|i: int| 0 <= i < above@.len() implies grown.nodes[above@[i] as int]
                == before.nodes[above@[i] as int] by {
                assert(path@[i] < path@[depth as int]);
            }
        }
        self.backup_path(above, turn, counters);
        proof {
            assert forall|k: int|
                before.nodes.len() <= k < grown.nodes.len() implies #[trigger] self@.nodes[k]
                == grown.nodes[k] by {
                assert forall|i: int| 0 <= i < above@.len() implies above@[i] != k by {
                    assert(path@[i] < before.nodes.len());
                }
            }
            assert(self@.nodes[leaf as int] == grown.nodes[leaf as int]) by {
                assert forall|i: int| 0 <= i < above@.len() implies above@[i] != leaf by {
                    assert(path@[i] < path@[depth as int]);
                }
            }
            assert(self@.nodes.subrange(before.nodes.len() as int, self@.nodes.len() as int)
                =~= grown.nodes.subrange(before.nodes.len() as int, grown.nodes.len() as int));
            assert(grown.nodes.subrange(before.nodes.len() as int, grown.nodes.len() as int)
                =~= BrutoView::grown(
                before.nodes[leaf as int].history,
                turn + depth,
                BatchState::begin(before.nodes[leaf as int].history, before.pcg.state).run(
                    turn + depth + 1,
                    before.pcg.inc,
                    before.batch,
                ).history,
            ));
            assert forall|k: int|
                0 <= k < before.nodes.len() && (forall|i: int|
                    0 <= i < path@.len() ==> path@[i] != k) implies #[trigger] self@.nodes[k]
                == before.nodes[k] by {
                assert(path@[depth as int] != k);
                assert forall|i: int| 0 <= i < above@.len() implies above@[i] != k by {
                    assert(path@[i] != k);
                }
                assert(self@.nodes[k] == grown.nodes[k]);
            }
        }
        counters
    }

    /// Backs a batch up along a path that leads down the tree from a game at
    /// `turn`: every node of the path is credited for the side that moves at
    /// its own turn, so the credit changes sides from one node to the next.
    fn backup_path(&mut self, path: &[usize], turn: i8, counters: [u32; 2])
        requires
            old(self)@.wf(),
            0 <= turn,
            turn + path@.len() <= i8::MAX + 1,
            forall|i: int| 0 <= i < path@.len() ==> path@[i] < old(self)@.nodes.len(),
            forall|i: int, j: int| 0 <= i < j < path@.len() ==> path@[i] < path@[j],
            forall|i: int|
                0 <= i < path@.len() ==> {
                    &&& (#[trigger] old(self)@.nodes[path@[i] as int]).value + counters[(turn + i)
                        % 2] <= u32::MAX
                    &&& old(self)@.nodes[path@[i] as int].count + old(self)@.batch <= u32::MAX
                },
        ensures
            final(self)@.wf(),
            final(self)@.pcg == old(self)@.pcg,
            final(self)@.batch == old(self)@.batch,
            final(self)@.nodes.len() == old(self)@.nodes.len(),
            forall|i: int|
                0 <= i < path@.len() ==> #[trigger] final(self)@.nodes[path@[i] as int] == old(
                    self,
                )@.nodes[path@[i] as int].credited(turn + i, counters, old(self)@.batch),
            forall|k: int|
                0 <= k < old(self)@.nodes.len() && (forall|i: int|
                    0 <= i < path@.len() ==> path@[i] != k) ==> #[trigger] final(self)@.nodes[k]
                    == old(self)@.nodes[k],
    {
        let ghost before = self@;
        let mut depth: usize = 0;
        while depth < path.len()
            invariant
                depth <= path@.len(),
                before == old(self)@,
                before.wf(),
                0 <= turn,
                turn + path@.len() <= i8::MAX + 1,
                forall|i: int| 0 <= i < path@.len() ==> path@[i] < before.nodes.len(),
                forall|i: int, j: int| 0 <= i < j < path@.len() ==> path@[i] < path@[j],
                forall|i: int|
                    0 <= i < path@.len() ==> {
                        &&& (#[trigger] before.nodes[path@[i] as int]).value + counters[(turn + i)
                            % 2] <= u32::MAX
                        &&& before.nodes[path@[i] as int].count + before.batch <= u32::MAX
                    },
                self@.wf(),
                self@.pcg == before.pcg,
                self@.batch == before.batch,
                self@.nodes.len() == before.nodes.len(),
                forall|i: int|
                    0 <= i < depth ==> #[trigger] self@.nodes[path@[i] as int]
                        == before.nodes[path@[i] as int].credited(turn + i, counters, before.batch),
                forall|k: int|
                    0 <= k < before.nodes.len() && (forall|i: int|
                        0 <= i < depth ==> path@[i] != k) ==> #[trigger] self@.nodes[k]
                        == before.nodes[k],
            decreases path@.len() - depth,
        {
            let n = path[depth];
            let ghost store = self@.nodes;
            assert(store[n as int] == before.nodes[n as int]) by {
                assert forall|i: int| 0 <= i < depth implies path@[i] != n by {
                    assert(path@[i] < path@[depth as int]);
                }
            }
            self.backup(n, turn + depth as i8, counters);
            assert forall|i: int| 0 <= i < depth + 1 implies #[trigger] self@.nodes[path@[i] as int]
                == before.nodes[path@[i] as int].credited(turn + i, counters, before.batch) by {
                if i < depth {
                    assert(path@[i] < path@[depth as int]);
                    assert(self@.nodes[path@[i] as int] == store[path@[i] as int]);
                }
            }
            depth += 1;
        }
    }
}

} // verus!
