use vstd::prelude::*;
use crate::game::{is_playout_result, uniform_rollout, GameRules, GameStateTrait, PlayerIndex, Rewards};
use crate::ai::GameAi;
use crate::clock::{clock_now, elapsed_since, shorter_than};
use crate::random::random_below;
use std::time::Duration;

verus! {

/// What a tree policy sees of one child of a node: the child's summed reward
/// for the player to move at the node, and the child's visit count.
#[derive(Clone, Copy, Debug, PartialEq, Eq, Structural)]
pub struct ChildScore {
    pub reward: u64,
    pub visits: u64,
}

/// Most iterations one tree takes; keeps every counter in range.
pub const MAX_VISITS: u64 = 0x1000_0000_0000_0000;

/// One node of a search tree. Node 0 is the root, whose state the caller
/// keeps; every other node holds its own state.
pub struct Node<R: GameRules> {
    state: Option<R::State>,
    rewards: Rewards,
    visits: u64,
    parent: Option<usize>,
    actions: Vec<R::Action>,
    children: Vec<usize>,
    child_actions: Vec<usize>,
    untried: Vec<usize>,
    is_final: bool,
    next_player: PlayerIndex,
}

/// A Monte Carlo search tree, stored as an arena of nodes indexed by id.
pub struct Tree<R: GameRules> {
    nodes: Vec<Node<R>>,
    root: Ghost<<R::State as View>::V>,
}

impl<R: GameRules> Tree<R> {
    /// The model of the state at node `i`.
    pub closed spec fn state_of(&self, i: int) -> <R::State as View>::V {
        if i == 0 {
            self.root@
        } else {
            self.nodes@[i].state->0@
        }
    }

    /// The number of nodes; their ids are `0..len`, the root is 0.
    pub closed spec fn len(&self) -> nat {
        self.nodes@.len()
    }

    /// The model of the root's state, which the caller keeps.
    pub closed spec fn root_view(&self) -> <R::State as View>::V {
        self.root@
    }

    /// How many iterations passed through node `i`.
    pub closed spec fn visits(&self, i: int) -> u64 {
        self.nodes@[i].visits
    }

    /// The rewards summed over the iterations through node `i`.
    pub closed spec fn rewards(&self, i: int) -> Rewards {
        self.nodes@[i].rewards
    }

    /// The parent of node `i`; `None` for the root.
    pub closed spec fn parent(&self, i: int) -> Option<usize> {
        self.nodes@[i].parent
    }

    /// The ids of the children of node `i`, in the order they were made.
    pub closed spec fn children(&self, i: int) -> Seq<usize> {
        self.nodes@[i].children@
    }

    /// The index, into the actions of node `i`, that led to its `k`-th child.
    pub closed spec fn child_action(&self, i: int, k: int) -> usize {
        self.nodes@[i].child_actions@[k]
    }

    /// The actions of node `i`'s state, as `get_actions` lists them.
    pub closed spec fn actions(&self, i: int) -> Seq<R::Action> {
        self.nodes@[i].actions@
    }

    /// The indices into `actions(i)` that have no child yet.
    pub closed spec fn untried(&self, i: int) -> Seq<usize> {
        self.nodes@[i].untried@
    }

    /// Every action of node `i` has a child.
    pub open spec fn fully_expanded(&self, i: int) -> bool {
        self.untried(i).len() == 0
    }

    pub closed spec fn node_wf(&self, i: int) -> bool {
        let n = self.nodes@[i];
        &&& (i == 0) == n.state.is_none()
        &&& i == 0 <==> n.parent.is_none()
        &&& i > 0 ==> n.parent->0 < i
        &&& n.actions@ == R::State::spec_actions(self.state_of(i))
        &&& n.is_final == R::State::spec_is_final(self.state_of(i))
        &&& n.next_player == R::State::spec_next_player(self.state_of(i))
        &&& !n.is_final ==> n.actions@.len() > 0
        &&& n.children@.len() == n.child_actions@.len()
        &&& n.children@.len() + n.untried@.len() == n.actions@.len()
        &&& forall|k: int|
            0 <= k < n.children@.len() ==> {
                let c = #[trigger] n.children@[k];
                &&& i < c < self.nodes@.len()
                &&& self.nodes@[c as int].parent == Some(i as usize)
                &&& n.child_actions@[k] < n.actions@.len()
                &&& self.state_of(c as int) == R::spec_play(
                    self.state_of(i),
                    n.actions@[n.child_actions@[k] as int],
                )
            }
        &&& forall|j: int| 0 <= j < n.untried@.len() ==> #[trigger] n.untried@[j] < n.actions@.len()
        &&& forall|k1: int, k2: int|
            0 <= k1 < k2 < n.children@.len() ==> #[trigger] n.children@[k1] != #[trigger] n.children@[k2]
        &&& i > 0 ==> self.nodes@[n.parent->0 as int].children@.contains(i as usize)
        &&& forall|k1: int, k2: int|
            0 <= k1 < k2 < n.child_actions@.len() ==> #[trigger] n.child_actions@[k1]
                != #[trigger] n.child_actions@[k2]
        &&& forall|j1: int, j2: int|
            0 <= j1 < j2 < n.untried@.len() ==> #[trigger] n.untried@[j1] != #[trigger] n.untried@[j2]
        &&& forall|k: int, j: int|
            0 <= k < n.child_actions@.len() && 0 <= j < n.untried@.len() ==> #[trigger] n.child_actions@[k]
                != #[trigger] n.untried@[j]
        &&& self.counters_ok(i)
    }

    pub closed spec fn counters_ok(&self, i: int) -> bool {
        let n = self.nodes@[i];
        &&& n.visits <= self.nodes@[0].visits
        &&& n.rewards.player_0 + n.rewards.player_1 == 2 * n.visits
        &&& i > 0 ==> n.visits >= 1
        &&& self.child_visit_sum(i, n.children@.len()) <= n.visits
    }

    /// The visit counts of a well-formed tree: no node has more visits than
    /// the root, every node but the root has at least one, and the visits of
    /// a node's children add up to at most its own; the rewards of a node
    /// hand out one game's worth (2 half points) per visit.
    pub proof fn lemma_visit_counts(&self, i: int)
        requires
            self.wf(),
            0 <= i < self.len(),
        ensures
            self.visits(i) <= self.visits(0),
            i > 0 ==> self.visits(i) >= 1,
            self.child_visit_sum(i, self.children(i).len()) <= self.visits(i),
            self.rewards(i).player_0 + self.rewards(i).player_1 == 2 * self.visits(i),
    {
        assert(self.node_wf(i));
    }

    /// The root's state is the root's model.
    pub proof fn lemma_root_state(&self)
        ensures
            self.state_of(0) == self.root_view(),
    {
    }

    /// The visits of the first `n` children of node `i`, summed.
    pub open spec fn child_visit_sum(&self, i: int, n: nat) -> int
        decreases n,
    {
        if n == 0 {
            0
        } else {
            self.child_visit_sum(i, (n - 1) as nat) + self.visits(self.children(i)[n - 1] as int)
        }
    }

    /// Raising the visits of node `x` alone by one raises the child-visit sum
    /// of each node that lists `x` among its first `n` children by one, and
    /// leaves the others.
    proof fn lemma_sum_bump(&self, before: &Self, x: int, i: int, n: nat)
        requires
            self.nodes@.len() == before.nodes@.len(),
            0 <= x < self.nodes@.len(),
            0 <= i < self.nodes@.len(),
            self.nodes@[i].children == before.nodes@[i].children,
            n <= self.nodes@[i].children@.len(),
            forall|k: int| 0 <= k < n ==> #[trigger] self.nodes@[i].children@[k] < self.nodes@.len(),
            forall|k1: int, k2: int|
                0 <= k1 < k2 < n ==> #[trigger] self.nodes@[i].children@[k1]
                    != #[trigger] self.nodes@[i].children@[k2],
            forall|j: int|
                0 <= j < self.nodes@.len() && j != x ==> #[trigger] self.nodes@[j].visits
                    == before.nodes@[j].visits,
            self.nodes@[x].visits == before.nodes@[x].visits + 1,
        ensures
            (exists|k: int| 0 <= k < n && self.nodes@[i].children@[k] == x) ==> self.child_visit_sum(i, n)
                == before.child_visit_sum(i, n) + 1,
            (forall|k: int| 0 <= k < n ==> self.nodes@[i].children@[k] != x) ==> self.child_visit_sum(
                i,
                n,
            ) == before.child_visit_sum(i, n),
        decreases n,
    {
        if n > 0 {
            self.lemma_sum_bump(before, x, i, (n - 1) as nat);
            let last = self.nodes@[i].children@[n - 1];
            if last == x {
                assert forall|k: int| 0 <= k < n - 1 implies self.nodes@[i].children@[k] != x by {
                    assert(self.nodes@[i].children@[k] != self.nodes@[i].children@[n - 1]);
                }
            }
        }
    }

    /// The child-visit sum of node `i` depends only on its children's visits.
    proof fn lemma_sum_frame(&self, other: &Self, i: int, n: nat)
        requires
            0 <= i < self.nodes@.len(),
            0 <= i < other.nodes@.len(),
            n <= self.nodes@[i].children@.len(),
            n <= other.nodes@[i].children@.len(),
            forall|k: int| 0 <= k < n ==> #[trigger] self.nodes@[i].children@[k] == other.nodes@[i].children@[k],
            forall|k: int|
                0 <= k < n ==> #[trigger] self.nodes@[self.nodes@[i].children@[k] as int].visits
                    == other.nodes@[self.nodes@[i].children@[k] as int].visits,
        ensures
            self.child_visit_sum(i, n) == other.child_visit_sum(i, n),
        decreases n,
    {
        if n > 0 {
            self.lemma_sum_frame(other, i, (n - 1) as nat);
        }
    }

    /// Well-formedness: the tree's structure, each node's cached facts about
    /// its state, and the counters' bounds.
    pub closed spec fn wf(&self) -> bool {
        &&& self.nodes@.len() >= 1
        &&& self.nodes@[0].visits <= MAX_VISITS
        &&& forall|i: int| 0 <= i < self.nodes@.len() ==> #[trigger] self.node_wf(i)
    }

    /// A fresh tree whose root is `root`, with no visits and no children.
    pub fn new(root: &R::State) -> (t: Self)
        ensures
            t.wf(),
            t.root_view() == root@,
            t.len() == 1,
            t.visits(0) == 0,
            t.rewards(0) == Rewards::zero_spec(),
            t.children(0).len() == 0,
    {
        let actions = root.get_actions();
        let untried = all_indices(actions.len());
        let node = Node {
            state: None,
            rewards: Rewards::zero(),
            visits: 0,
            parent: None,
            actions,
            children: Vec::new(),
            child_actions: Vec::new(),
            untried,
            is_final: root.is_final(),
            next_player: root.next_player(),
        };
        let mut nodes: Vec<Node<R>> = Vec::new();
        nodes.push(node);
        let t = Tree { nodes, root: Ghost(root@) };
        assert(t.node_wf(0));
        t
    }
}


/// The choices of a search among the children of a node. Each is given the
/// node's visit count and one score per child, and returns the index of a
/// child; an index out of range is read as the first child.
pub trait TreePolicy {
    /// The child to descend to during selection.
    fn pick_child(&mut self, parent_visits: u64, children: &Vec<ChildScore>) -> usize;

    /// The child of the root whose action the search finally plays.
    fn pick_move(&mut self, parent_visits: u64, children: &Vec<ChildScore>) -> usize;
}

impl<R: GameRules> Tree<R> {
    /// The score that the policy sees of child `c` of a node whose player to
    /// move is `p`.
    pub closed spec fn score_of(&self, c: int, p: PlayerIndex) -> ChildScore {
        ChildScore { reward: self.rewards(c).spec_for_player(p), visits: self.visits(c) }
    }

    pub closed spec fn scores(&self, i: int) -> Seq<ChildScore> {
        Seq::new(
            self.children(i).len(),
            |k: int|
                self.score_of(
                    self.children(i)[k] as int,
                    R::State::spec_next_player(self.state_of(i)),
                ),
        )
    }

    /// Node `i` has the counters it had in `before`.
    pub open spec fn kept(&self, before: &Self, i: int) -> bool {
        &&& self.visits(i) == before.visits(i)
        &&& self.rewards(i) == before.rewards(i)
    }

    /// Node `i` has one more visit and `r` more reward than in `before`.
    pub open spec fn bumped(&self, before: &Self, i: int, r: Rewards) -> bool {
        &&& self.visits(i) == before.visits(i) + 1
        &&& self.rewards(i).player_0 == before.rewards(i).player_0 + r.player_0
        &&& self.rewards(i).player_1 == before.rewards(i).player_1 + r.player_1
    }

    /// Node `i` is bumped by `r` from `before` when `hit`, else kept.
    pub open spec fn updated(&self, before: &Self, i: int, r: Rewards, hit: bool) -> bool {
        if hit {
            self.bumped(before, i, r)
        } else {
            self.kept(before, i)
        }
    }

    /// Node `i` is as in `before`, or has one more visit and `r` more reward.
    pub open spec fn backed_up(&self, before: &Self, i: int, r: Rewards) -> bool {
        self.kept(before, i) || self.bumped(before, i, r)
    }

    /// Node `i` lies on the path from node `leaf` up to the root.
    pub open spec fn on_path(&self, leaf: int, i: int) -> bool
        decreases leaf,
    {
        if i == leaf {
            true
        } else if 0 < leaf < self.len() && self.parent(leaf) is Some && (self.parent(leaf)->0 as int)
            < leaf {
            self.on_path(self.parent(leaf)->0 as int, i)
        } else {
            false
        }
    }

    /// The facts about the `k`-th child `c` of node `i`: `c` comes after `i`
    /// and names it as parent; the action that led to it is one of `i`'s
    /// actions, those of `i`'s state, and `c`'s state is that action played
    /// from `i`'s; no other child and no untried index holds that action.
    pub proof fn lemma_child(&self, i: int, k: int)
        requires
            self.wf(),
            0 <= i < self.len(),
            0 <= k < self.children(i).len(),
        ensures
            i < self.children(i)[k] < self.len(),
            self.parent(self.children(i)[k] as int) == Some(i as usize),
            self.actions(i) == R::State::spec_actions(self.state_of(i)),
            self.child_action(i, k) < self.actions(i).len(),
            self.state_of(self.children(i)[k] as int) == R::spec_play(
                self.state_of(i),
                self.actions(i)[self.child_action(i, k) as int],
            ),
            forall|k2: int|
                0 <= k2 < self.children(i).len() && k2 != k ==> self.child_action(i, k2)
                    != self.child_action(i, k),
            forall|j: int| 0 <= j < self.untried(i).len() ==> self.untried(i)[j] != self.child_action(i, k),
    {
        assert(self.node_wf(i));
        let n = self.nodes@[i];
        let c = n.children@[k];
        assert forall|k2: int|
            0 <= k2 < self.children(i).len() && k2 != k implies self.child_action(i, k2)
                != self.child_action(i, k) by {
            if k2 < k {
                assert(n.child_actions@[k2] != n.child_actions@[k]);
            } else {
                assert(n.child_actions@[k] != n.child_actions@[k2]);
            }
        }
        assert forall|j: int| 0 <= j < self.untried(i).len() implies self.untried(i)[j]
            != self.child_action(i, k) by {
            assert(n.child_actions@[k] != n.untried@[j]);
        }
    }

    /// `after` is this tree after one iteration that selected node `l`, final
    /// or not fully expanded, and backed up the outcome `r`: exactly the
    /// nodes from `l` up to the root gained one visit and `r`; a final `l`
    /// adds no node, any other is expanded.
    pub open spec fn iteration_of(&self, after: &Self, l: int, r: Rewards) -> bool {
        &&& 0 <= l < self.len()
        &&& r.is_outcome()
        &&& R::State::spec_is_final(self.state_of(l)) || !self.fully_expanded(l)
        &&& forall|i: int|
            #![trigger self.on_path(l, i)]
            0 <= i < self.len() ==> after.updated(self, i, r, self.on_path(l, i))
        &&& R::State::spec_is_final(self.state_of(l)) ==> after.len() == self.len()
        &&& !R::State::spec_is_final(self.state_of(l)) ==> self.expansion_of(after, l, r)
    }

    /// `after` is this tree with node `l` expanded: one new node at the end,
    /// a child of `l` reached by an action of `l` that had no child yet,
    /// holding that action's state, one visit and the rewards `r` of a
    /// playout from that state.
    pub open spec fn expansion_of(&self, after: &Self, l: int, r: Rewards) -> bool {
        let c = self.len() as int;
        let k = self.children(l).len() as int;
        &&& after.len() == self.len() + 1
        &&& after.parent(c) == Some(l as usize)
        &&& after.children(l) == self.children(l).push(c as usize)
        &&& after.actions(l) == self.actions(l)
        &&& exists|j: int| 0 <= j < self.untried(l).len() && after.child_action(l, k) == self.untried(l)[j]
        &&& after.state_of(c) == R::spec_play(self.state_of(l), self.actions(l)[after.child_action(l, k) as int])
        &&& after.visits(c) == 1
        &&& after.rewards(c) == r
        &&& is_playout_result::<R>(after.state_of(c), r)
    }

    /// Counters may change, nothing else.
    pub closed spec fn same_shape(&self, other: &Self) -> bool {
        &&& self.nodes@.len() == other.nodes@.len()
        &&& self.root@ == other.root@
        &&& forall|i: int|
            0 <= i < self.nodes@.len() ==> {
                let a = #[trigger] self.nodes@[i];
                let b = other.nodes@[i];
                &&& a.state == b.state
                &&& a.parent == b.parent
                &&& a.actions == b.actions
                &&& a.children == b.children
                &&& a.child_actions == b.child_actions
                &&& a.untried == b.untried
                &&& a.is_final == b.is_final
                &&& a.next_player == b.next_player
            }
    }

    /// A tree of a well-formed shape whose counters are in bounds is
    /// well-formed.
    proof fn lemma_counters_wf(&self, other: &Self)
        requires
            other.wf(),
            self.same_shape(other),
            self.nodes@[0].visits <= MAX_VISITS,
            forall|i: int| 0 <= i < self.nodes@.len() ==> #[trigger] self.counters_ok(i),
        ensures
            self.wf(),
    {
        assert forall|i: int| 0 <= i < self.nodes@.len() implies #[trigger] self.node_wf(i) by {
            assert(other.node_wf(i));
            assert(self.state_of(i) == other.state_of(i));
            let n = self.nodes@[i];
            assert forall|k: int| 0 <= k < n.children@.len() implies {
                let c = #[trigger] n.children@[k];
                &&& i < c < self.nodes@.len()
                &&& self.nodes@[c as int].parent == Some(i as usize)
                &&& n.child_actions@[k] < n.actions@.len()
                &&& self.state_of(c as int) == R::spec_play(
                    self.state_of(i),
                    n.actions@[n.child_actions@[k] as int],
                )
            } by {
                let c = n.children@[k];
                assert(other.nodes@[i].children@[k] == c);
                assert(self.nodes@[c as int].parent == other.nodes@[c as int].parent);
                assert(self.state_of(c as int) == other.state_of(c as int));
            }
        }
    }

    /// The state at node `i`: `root` for the root, the node's own otherwise.
    fn state_ref<'a>(&'a self, root: &'a R::State, i: usize) -> (r: &'a R::State)
        requires
            self.wf(),
            root@ == self.root_view(),
            i < self.len(),
        ensures
            r@ == self.state_of(i as int),
    {
        assert(self.node_wf(i as int));
        match &self.nodes[i].state {
            Some(s) => s,
            None => root,
        }
    }

    /// What the tree policy sees of the children of node `i`.
    pub fn child_scores(&self, i: usize) -> (r: Vec<ChildScore>)
        requires
            self.wf(),
            i < self.len(),
        ensures
            r@ == self.scores(i as int),
    {
        assert(self.node_wf(i as int));
        let node = &self.nodes[i];
        let mut r: Vec<ChildScore> = Vec::new();
        let mut k: usize = 0;
        while k < node.children.len()
            invariant
                self.wf(),
                i < self.len(),
                node == self.nodes@[i as int],
                self.node_wf(i as int),
                k <= node.children@.len(),
                r@.len() == k,
                forall|m: int| 0 <= m < k ==> r@[m] == self.scores(i as int)[m],
            decreases node.children@.len() - k,
        {
            let c = node.children[k];
            let child = &self.nodes[c];
            r.push(
                ChildScore { reward: child.rewards.for_player(&node.next_player), visits: child.visits },
            );
            k = k + 1;
        }
        assert(r@ =~= self.scores(i as int));
        r
    }

    /// The child of node `i` that the policy picks.
    fn choose_child<P: TreePolicy>(&self, i: usize, policy: &mut P, final_choice: bool) -> (k: usize)
        requires
            self.wf(),
            i < self.len(),
            self.children(i as int).len() > 0,
        ensures
            k < self.children(i as int).len(),
    {
        let scores = self.child_scores(i);
        let k = if final_choice {
            policy.pick_move(self.nodes[i].visits, &scores)
        } else {
            policy.pick_child(self.nodes[i].visits, &scores)
        };
        if k < scores.len() {
            k
        } else {
            0
        }
    }

    /// Descends from the root along the policy's choices while the node is
    /// not final and fully expanded.
    fn selection<P: TreePolicy>(&self, policy: &mut P) -> (leaf: usize)
        requires
            self.wf(),
        ensures
            leaf < self.len(),
            R::State::spec_is_final(self.state_of(leaf as int)) || !self.fully_expanded(leaf as int),
            R::State::spec_is_final(self.state_of(0)) || !self.fully_expanded(0) ==> leaf == 0,
    {
        let mut node: usize = 0;
        loop
            invariant
                self.wf(),
                node < self.len(),
                R::State::spec_is_final(self.state_of(0)) || !self.fully_expanded(0) ==> node == 0,
            decreases self.len() - node,
        {
            assert(self.node_wf(node as int));
            if self.nodes[node].is_final || self.nodes[node].untried.len() > 0 {
                return node;
            }
            let k = self.choose_child(node, policy, false);
            let next = self.nodes[node].children[k];
            node = next;
        }
    }

    /// A suffix of `path` from `t` holds `j` exactly when `path[t]` is `j` or
    /// the suffix from `t + 1` holds it.
    proof fn lemma_suffix_step(path: Seq<usize>, t: int, j: usize)
        requires
            0 <= t < path.len(),
        ensures
            path.subrange(t, path.len() as int).contains(j) <==> (path[t] == j || path.subrange(
                t + 1,
                path.len() as int,
            ).contains(j)),
    {
        let long = path.subrange(t, path.len() as int);
        let short = path.subrange(t + 1, path.len() as int);
        if long.contains(j) {
            let m = choose|m: int| 0 <= m < long.len() && long[m] == j;
            if m > 0 {
                assert(short[m - 1] == j);
            }
        }
        if short.contains(j) {
            let m = choose|m: int| 0 <= m < short.len() && short[m] == j;
            assert(long[m + 1] == j);
        }
        if path[t] == j {
            assert(long[0] == j);
        }
    }

    /// Adds one visit and the rewards `r` to node `leaf` and to each of its
    /// ancestors. Afterwards the visits of `leaf`'s children fall short of
    /// its own.
    fn backup(&mut self, leaf: usize, r: &Rewards)
        requires
            old(self).wf(),
            leaf < old(self).len(),
            r.is_outcome(),
            old(self).visits(0) < MAX_VISITS,
        ensures
            final(self).wf(),
            final(self).same_shape(old(self)),
            final(self).visits(0) == old(self).visits(0) + 1,
            final(self).visits(leaf as int) == old(self).visits(leaf as int) + 1,
            forall|i: int|
                0 <= i < final(self).len() ==> #[trigger] final(self).visits(i) <= old(self).visits(i) + 1,
            forall|i: int| 0 <= i < final(self).len() ==> #[trigger] final(self).backed_up(old(self), i, *r),
            forall|i: int|
                #![trigger old(self).on_path(leaf as int, i)]
                0 <= i < final(self).len() ==> final(self).updated(
                    old(self),
                    i,
                    *r,
                    old(self).on_path(leaf as int, i),
                ),
            final(self).child_visit_sum(leaf as int, final(self).children(leaf as int).len())
                < final(self).visits(leaf as int),
    {
        // The ancestors of `leaf` below the root, nearest first.
        let mut path: Vec<usize> = Vec::new();
        let mut cur = leaf;
        while cur > 0
            invariant
                self.wf(),
                *self == *old(self),
                forall|i: int|
                    0 <= i < self.len() ==> (#[trigger] self.on_path(leaf as int, i) <==> (path@.contains(
                        i as usize,
                    ) || self.on_path(cur as int, i))),
                cur < self.len(),
                leaf < self.len(),
                path@.len() == 0 ==> cur == leaf,
                path@.len() > 0 ==> path@[0] == leaf,
                forall|u: int| 0 <= u < path@.len() ==> cur < #[trigger] path@[u] < self.len(),
                forall|u: int|
                    0 <= u < path@.len() - 1 ==> self.parent(#[trigger] path@[u] as int) == Some(
                        path@[u + 1],
                    ),
                path@.len() > 0 ==> self.parent(path@[path@.len() - 1] as int) == Some(cur),
                forall|u1: int, u2: int|
                    0 <= u1 < u2 < path@.len() ==> #[trigger] path@[u1] > #[trigger] path@[u2],
            decreases cur,
        {
            assert(self.node_wf(cur as int));
            let ghost before_path = path@;
            path.push(cur);
            proof {
                assert forall|i: int| 0 <= i < self.len() implies (#[trigger] self.on_path(leaf as int, i) <==> (path@.contains(
                    i as usize,
                ) || self.on_path(self.nodes@[cur as int].parent->0 as int, i))) by {
                    assert(path@ == before_path.push(cur));
                    if before_path.contains(i as usize) {
                        let u = choose|u: int| 0 <= u < before_path.len() && before_path[u] == i as usize;
                        assert(path@[u] == i as usize);
                    }
                    if i == cur {
                        assert(path@[before_path.len() as int] == cur);
                    }
                    if path@.contains(i as usize) {
                        let u = choose|u: int| 0 <= u < path@.len() && path@[u] == i as usize;
                        if u < before_path.len() {
                            assert(before_path[u] == i as usize);
                            assert(before_path.contains(i as usize));
                        } else {
                            assert(path@[u] == cur);
                            assert(self.nodes@.len() == self.nodes.len());
                            assert((i as usize) as int == i);
                        }
                    }
                    assert(path@.contains(i as usize) <==> (before_path.contains(i as usize) || i == cur));
                    assert(self.on_path(cur as int, i) == (i == cur || self.on_path(
                        self.nodes@[cur as int].parent->0 as int,
                        i,
                    )));
                }
            }
            let parent = self.nodes[cur].parent;
            match parent {
                Some(p) => {
                    cur = p;
                },
                None => {
                    cur = 0;
                },
            }
        }
        assert(self.node_wf(0));
        assert(forall|i: int|
            0 <= i < self.len() ==> (#[trigger] old(self).on_path(leaf as int, i) <==> (path@.contains(
                i as usize,
            ) || i == 0)));
        let ghost before_root = *self;
        self.nodes[0].visits = self.nodes[0].visits + 1;
        self.nodes[0].rewards.add_assign(r);
        proof {
            assert forall|i: int| 0 <= i < self.nodes@.len() implies #[trigger] self.counters_ok(i) by {
                assert(old(self).node_wf(i));
                self.lemma_sum_bump(&before_root, 0, i, self.nodes@[i].children@.len());
                assert forall|k: int| 0 <= k < self.nodes@[i].children@.len() implies self.nodes@[i].children@[k]
                    != 0 by {
                    let c = before_root.nodes@[i].children@[k];
                }
            }
            self.lemma_counters_wf(old(self));
            assert forall|i: int| 0 <= i < self.len() implies #[trigger] self.backed_up(old(self), i, *r) by {
                if i != 0 {
                    assert(self.nodes@[i] == before_root.nodes@[i]);
                }
            }
            assert forall|j: int|
                #![trigger self.nodes@[j]]
                0 <= j < self.len() implies self.updated(
                old(self),
                j,
                *r,
                j == 0 || path@.subrange(path@.len() as int, path@.len() as int).contains(j as usize),
            ) by {
                if j != 0 {
                    assert(self.nodes@[j] == before_root.nodes@[j]);
                    assert(path@.subrange(path@.len() as int, path@.len() as int).len() == 0);
                }
            }
            assert(before_root.node_wf(0));
            self.lemma_sum_bump(&before_root, 0, 0, self.nodes@[0].children@.len());
            assert forall|k: int| 0 <= k < self.nodes@[0].children@.len() implies self.nodes@[0].children@[k]
                != 0 by {
                let c = before_root.nodes@[0].children@[k];
            }
            assert(self.child_visit_sum(0, self.children(0).len()) == before_root.child_visit_sum(
                0,
                before_root.children(0).len(),
            ));
        }
        let mut t = path.len();
        while t > 0
            invariant
                old(self).wf(),
                self.wf(),
                self.same_shape(old(self)),
                leaf < self.len(),
                t <= path@.len(),
                path@.len() == 0 ==> leaf == 0,
                path@.len() > 0 ==> path@[0] == leaf,
                forall|u: int| 0 <= u < path@.len() ==> 0 < #[trigger] path@[u] < self.len(),
                forall|u: int|
                    0 <= u < path@.len() - 1 ==> self.parent(#[trigger] path@[u] as int) == Some(
                        path@[u + 1],
                    ),
                path@.len() > 0 ==> self.parent(path@[path@.len() - 1] as int) == Some(0usize),
                forall|u1: int, u2: int|
                    0 <= u1 < u2 < path@.len() ==> #[trigger] path@[u1] > #[trigger] path@[u2],
                self.visits(0) == old(self).visits(0) + 1,
                forall|u: int| 0 <= u < t ==> #[trigger] self.nodes@[path@[u] as int] == old(self).nodes@[path@[u] as int],
                forall|j: int|
                    0 <= j < self.len() ==> #[trigger] self.visits(j) <= old(self).visits(j) + 1,
                forall|j: int| 0 <= j < self.len() ==> #[trigger] self.backed_up(old(self), j, *r),
                forall|i: int|
                    0 <= i < self.len() ==> (#[trigger] old(self).on_path(leaf as int, i) <==> (path@.contains(
                        i as usize,
                    ) || i == 0)),
                forall|j: int|
                    #![trigger self.nodes@[j]]
                    0 <= j < self.len() ==> self.updated(
                        old(self),
                        j,
                        *r,
                        j == 0 || path@.subrange(t as int, path@.len() as int).contains(j as usize),
                    ),
                t < path@.len() ==> self.child_visit_sum(path@[t as int] as int, self.children(path@[t as int] as int).len())
                    < self.visits(path@[t as int] as int),
                t == path@.len() ==> self.child_visit_sum(0, self.children(0).len()) < self.visits(0),
                t == 0 && path@.len() > 0 ==> self.visits(leaf as int) == old(self).visits(leaf as int) + 1,
                r.is_outcome(),
            decreases t,
        {
            t = t - 1;
            let x = path[t];
            let ghost p: int = if t + 1 < path@.len() {
                path@[t + 1] as int
            } else {
                0
            };
            assert(self.node_wf(x as int));
            assert(old(self).node_wf(x as int));
            assert(self.parent(x as int) == Some(p as usize));
            let ghost before = *self;
            self.nodes[x].visits = self.nodes[x].visits + 1;
            self.nodes[x].rewards.add_assign(r);
            proof {
                assert forall|i: int| 0 <= i < self.nodes@.len() implies #[trigger] self.counters_ok(i) by {
                    assert(before.node_wf(i));
                    assert(old(self).node_wf(i));
                    self.lemma_sum_bump(&before, x as int, i, self.nodes@[i].children@.len());
                    if i != p {
                        assert forall|k: int| 0 <= k < self.nodes@[i].children@.len() implies self.nodes@[i].children@[k]
                            != x by {
                            let c = before.nodes@[i].children@[k];
                            assert(before.nodes@[c as int].parent == Some(i as usize));
                        }
                    }
                }
                self.lemma_counters_wf(&before);
                assert forall|j: int| 0 <= j < self.len() implies #[trigger] self.visits(j)
                    <= old(self).visits(j) + 1 by {
                    if j != x {
                        assert(self.nodes@[j] == before.nodes@[j]);
                        assert(before.visits(j) <= old(self).visits(j) + 1);
                    }
                }
                assert forall|j: int| 0 <= j < self.len() implies #[trigger] self.backed_up(old(self), j, *r) by {
                    if j != x {
                        assert(self.nodes@[j] == before.nodes@[j]);
                        assert(before.backed_up(old(self), j, *r));
                    } else {
                        assert(before.nodes@[j] == old(self).nodes@[j]);
                    }
                }
                assert forall|j: int|
                    #![trigger self.nodes@[j]]
                    0 <= j < self.len() implies self.updated(
                    old(self),
                    j,
                    *r,
                    j == 0 || path@.subrange(t as int, path@.len() as int).contains(j as usize),
                ) by {
                    Self::lemma_suffix_step(path@, t as int, j as usize);
                    let rest = path@.subrange(t + 1, path@.len() as int);
                    if rest.contains(x) {
                        let m = choose|m: int| 0 <= m < rest.len() && rest[m] == x;
                        assert(path@[t + 1 + m] == x);
                        assert(path@[t as int] > path@[t + 1 + m]);
                    }
                    assert(before.updated(
                        old(self),
                        j,
                        *r,
                        j == 0 || path@.subrange(t + 1, path@.len() as int).contains(j as usize),
                    ));
                    let hit_before = j == 0 || rest.contains(j as usize);
                    let hit = j == 0 || path@.subrange(t as int, path@.len() as int).contains(j as usize);
                    if j != x {
                        assert(self.nodes@[j] == before.nodes@[j]);
                        assert(self.nodes@.len() == self.nodes.len());
                        assert((j as usize) as int == j);
                        assert(hit == hit_before);
                        assert(self.kept(&before, j));
                    } else {
                        assert(before.nodes@[j] == old(self).nodes@[j]);
                        assert(!hit_before);
                        assert(hit);
                        assert(before.kept(old(self), j));
                        assert(self.bumped(old(self), j, *r));
                    }
                }
                assert forall|u: int| 0 <= u < t implies #[trigger] self.nodes@[path@[u] as int] == old(self).nodes@[path@[u] as int] by {
                    assert(path@[u] > path@[t as int]);
                }
                self.lemma_sum_bump(&before, x as int, x as int, self.nodes@[x as int].children@.len());
                assert forall|k: int| 0 <= k < self.nodes@[x as int].children@.len() implies self.nodes@[x as int].children@[k]
                    != x by {
                    let c = before.nodes@[x as int].children@[k];
                }
            }
        }
        assert(path@.subrange(0, path@.len() as int) =~= path@);
        assert forall|i: int|
            #![trigger self.visits(i)]
            0 <= i < self.len() implies self.updated(old(self), i, *r, old(self).on_path(leaf as int, i)) by {
            assert(self.nodes@[i] == self.nodes@[i]);
        }
    }

    /// One iteration of the search: selection, expansion of one untried
    /// action, a random rollout from the new node, and backup. A final node
    /// is not expanded: its own rewards are backed up.
    pub fn iterate<P: TreePolicy>(&mut self, root: &R::State, policy: &mut P)
        requires
            old(self).wf(),
            root@ == old(self).root_view(),
            old(self).visits(0) < MAX_VISITS,
        ensures
            final(self).wf(),
            final(self).root_view() == old(self).root_view(),
            final(self).visits(0) == old(self).visits(0) + 1,
            final(self).len() == old(self).len() || final(self).len() == old(self).len() + 1,
            exists|l: int, r: Rewards| #[trigger] old(self).iteration_of(final(self), l, r),
            !old(self).fully_expanded(0) && !R::State::spec_is_final(root@) ==> final(self).len() == old(
                self,
            ).len() + 1 && final(self).parent(old(self).len() as int) == Some(0usize),
            final(self).children(0).len() >= old(self).children(0).len(),
            old(self).children(0).len() == 0 && !R::State::spec_is_final(root@) ==> {
                &&& final(self).children(0).len() == 1
                &&& final(self).visits(final(self).children(0)[0] as int) == 1
            },
    {
        let leaf = self.selection(policy);
        assert(self.node_wf(leaf as int));
        assert(self.node_wf(0));
        if self.nodes[leaf].is_final {
            let r = self.state_ref(root, leaf).reward();
            self.backup(leaf, &r);
            assert(R::State::spec_is_final(old(self).state_of(leaf as int)));
            assert forall|i: int|
                #![trigger self.visits(i)]
                0 <= i < old(self).len() implies self.updated(
                old(self),
                i,
                r,
                old(self).on_path(leaf as int, i),
            ) by {
                assert(self.len() == old(self).len());
            }
            assert(old(self).iteration_of(self, leaf as int, r));
            return;
        }
        let j = random_below(self.nodes[leaf].untried.len());
        let a = self.nodes[leaf].untried[j];
        let new_state = R::play(self.state_ref(root, leaf), &self.nodes[leaf].actions[a]);
        let r = uniform_rollout::<R>(&new_state);
        self.backup(leaf, &r);
        let ghost mid = *self;
        assert(forall|i: int| 0 <= i < old(self).len() ==> #[trigger] mid.backed_up(old(self), i, r));
        assert(mid.node_wf(leaf as int));
        let child_actions = new_state.get_actions();
        let untried = all_indices(child_actions.len());
        let is_final = new_state.is_final();
        let next_player = new_state.next_player();
        let id = self.nodes.len();
        let child = Node {
            state: Some(new_state),
            rewards: r,
            visits: 1,
            parent: Some(leaf),
            actions: child_actions,
            children: Vec::new(),
            child_actions: Vec::new(),
            untried,
            is_final,
            next_player,
        };
        self.nodes.push(child);
        let _ = self.nodes[leaf].untried.swap_remove(j);
        self.nodes[leaf].children.push(id);
        self.nodes[leaf].child_actions.push(a);
        proof {
            let old_leaf = mid.nodes@[leaf as int];
            let new_leaf = self.nodes@[leaf as int];
            assert forall|i: int|
                #![trigger self.visits(i)]
                0 <= i < old(self).len() implies self.updated(
                old(self),
                i,
                r,
                old(self).on_path(leaf as int, i),
            ) by {
                assert(mid.len() == old(self).len());
                assert(mid.updated(old(self), i, r, old(self).on_path(leaf as int, i)));
                assert(self.nodes@[i].visits == mid.nodes@[i].visits);
                assert(self.nodes@[i].rewards == mid.nodes@[i].rewards);
            }
            assert(old(self).node_wf(leaf as int));
            assert(self.nodes@[id as int].state->0@ == new_state@);
            assert(self.child_action(leaf as int, old_leaf.children@.len() as int) == old_leaf.untried@[j as int]);
            assert(old(self).expansion_of(self, leaf as int, r));
            assert(old(self).iteration_of(self, leaf as int, r));
            assert(self.state_of(id as int) == R::spec_play(
                mid.state_of(leaf as int),
                old_leaf.actions@[a as int],
            ));
            assert(new_leaf.children@ == old_leaf.children@.push(id));
            assert(new_leaf.children@[old_leaf.children@.len() as int] == id);
            assert forall|i: int| 0 <= i < self.nodes@.len() implies #[trigger] self.node_wf(i) by {
                if i == id {
                    assert(self.child_visit_sum(i, 0) == 0);
                    assert(self.counters_ok(i));
                    assert(self.nodes@[leaf as int].children@.contains(id));
                } else {
                    assert(mid.node_wf(i));
                    assert(self.state_of(i) == mid.state_of(i));
                    let n = self.nodes@[i];
                    assert forall|k: int| 0 <= k < n.children@.len() implies {
                        let c = #[trigger] n.children@[k];
                        &&& i < c < self.nodes@.len()
                        &&& self.nodes@[c as int].parent == Some(i as usize)
                        &&& n.child_actions@[k] < n.actions@.len()
                        &&& self.state_of(c as int) == R::spec_play(
                            self.state_of(i),
                            n.actions@[n.child_actions@[k] as int],
                        )
                    } by {
                        if i != leaf || k < old_leaf.children@.len() {
                            let c = n.children@[k];
                            assert(c == mid.nodes@[i].children@[k]);
                            assert(self.nodes@[c as int].parent == mid.nodes@[c as int].parent);
                            assert(self.nodes@[c as int].state == mid.nodes@[c as int].state);
                            assert(self.state_of(c as int) == mid.state_of(c as int));
                        }
                    }
                    if i == leaf {
                        let last = old_leaf.untried@.len() - 1;
                        assert forall|m: int| 0 <= m < new_leaf.untried@.len() implies
                            #[trigger] new_leaf.untried@[m] == old_leaf.untried@[if m == j {
                                last
                            } else {
                                m
                            }] by {}
                        assert forall|m1: int, m2: int|
                            0 <= m1 < m2 < new_leaf.untried@.len() implies #[trigger] new_leaf.untried@[m1]
                            != #[trigger] new_leaf.untried@[m2] by {
                            assert(new_leaf.untried@[m1] == old_leaf.untried@[if m1 == j {
                                last
                            } else {
                                m1
                            }]);
                            assert(new_leaf.untried@[m2] == old_leaf.untried@[if m2 == j {
                                last
                            } else {
                                m2
                            }]);
                        }
                        assert forall|k: int, m: int|
                            0 <= k < new_leaf.child_actions@.len() && 0 <= m < new_leaf.untried@.len()
                            implies #[trigger] new_leaf.child_actions@[k]
                            != #[trigger] new_leaf.untried@[m] by {
                            assert(new_leaf.untried@[m] == old_leaf.untried@[if m == j {
                                last
                            } else {
                                m
                            }]);
                            if k < old_leaf.child_actions@.len() {
                                assert(new_leaf.child_actions@[k] == old_leaf.child_actions@[k]);
                            }
                        }
                        assert forall|k1: int, k2: int|
                            0 <= k1 < k2 < new_leaf.child_actions@.len() implies #[trigger] new_leaf.child_actions@[k1]
                            != #[trigger] new_leaf.child_actions@[k2] by {
                            assert(new_leaf.child_actions@[k1] == old_leaf.child_actions@[k1]);
                            if k2 < old_leaf.child_actions@.len() {
                                assert(new_leaf.child_actions@[k2] == old_leaf.child_actions@[k2]);
                            }
                        }
                        assert forall|m: int| 0 <= m < new_leaf.untried@.len() implies #[trigger] new_leaf.untried@[m]
                            < new_leaf.actions@.len() by {
                            assert(new_leaf.untried@[m] == old_leaf.untried@[if m == j {
                                last
                            } else {
                                m
                            }]);
                        }
                    }
                    let m = mid.nodes@[i].children@.len();
                    self.lemma_sum_frame(&mid, i, m);
                    if i == leaf {
                        assert(self.child_visit_sum(i, (m + 1) as nat) == self.child_visit_sum(i, m) + 1);
                        assert forall|k1: int, k2: int|
                            0 <= k1 < k2 < new_leaf.children@.len() implies #[trigger] new_leaf.children@[k1]
                            != #[trigger] new_leaf.children@[k2] by {
                            assert(new_leaf.children@[k1] == old_leaf.children@[k1]);
                            if k2 < old_leaf.children@.len() {
                                assert(new_leaf.children@[k2] == old_leaf.children@[k2]);
                            }
                        }
                    }
                    if i > 0 {
                        let q = self.nodes@[i].parent->0 as int;
                        assert(mid.nodes@[q].children@.contains(i as usize));
                        if q == leaf {
                            let k = choose|k: int| 0 <= k < old_leaf.children@.len() && old_leaf.children@[k] == i;
                            assert(new_leaf.children@[k] == i);
                        }
                    }
                    assert(self.counters_ok(i));
                }
            }
        }
    }
}

/// The indices `0..n` in order.
fn all_indices(n: usize) -> (r: Vec<usize>)
    ensures
        r@.len() == n,
        forall|j: int| 0 <= j < n ==> #[trigger] r@[j] == j,
{
    let mut r: Vec<usize> = Vec::new();
    let mut a: usize = 0;
    while a < n
        invariant
            a <= n,
            r@.len() == a,
            forall|j: int| 0 <= j < a ==> #[trigger] r@[j] == j,
        decreases n - a,
    {
        r.push(a);
        a = a + 1;
    }
    r
}


impl<R: GameRules> Tree<R> {
    pub open spec fn root_children_actions(&self) -> Seq<R::Action> {
        Seq::new(
            self.children(0).len(),
            |k: int| self.actions(0)[self.child_action(0, k) as int],
        )
    }

    /// How many nodes the tree holds; node 0 is the root.
    pub fn node_count(&self) -> (r: usize)
        ensures
            r == self.len(),
    {
        self.nodes.len()
    }

    /// The visit count of node `i`.
    pub fn visit_count(&self, i: usize) -> (r: u64)
        requires
            i < self.len(),
        ensures
            r == self.visits(i as int),
    {
        self.nodes[i].visits
    }

    /// The rewards summed over the playouts through node `i`.
    pub fn reward_sums(&self, i: usize) -> (r: Rewards)
        requires
            i < self.len(),
        ensures
            r == self.rewards(i as int),
    {
        self.nodes[i].rewards
    }

    /// The ids of the children of node `i`, in the order they were made.
    pub fn children_of(&self, i: usize) -> (r: Vec<usize>)
        requires
            i < self.len(),
        ensures
            r@ == self.children(i as int),
    {
        let node = &self.nodes[i];
        let mut r: Vec<usize> = Vec::new();
        let mut k: usize = 0;
        while k < node.children.len()
            invariant
                node == self.nodes@[i as int],
                k <= node.children@.len(),
                r@ == node.children@.take(k as int),
            decreases node.children@.len() - k,
        {
            r.push(node.children[k]);
            k = k + 1;
            assert(r@ =~= node.children@.take(k as int));
        }
        assert(r@ =~= node.children@);
        r
    }

    /// The action that led from node `i` to its `k`-th child.
    pub fn child_action_of(&self, i: usize, k: usize) -> (r: &R::Action)
        requires
            self.wf(),
            i < self.len(),
            k < self.children(i as int).len(),
        ensures
            *r == self.actions(i as int)[self.child_action(i as int, k as int) as int],
    {
        assert(self.node_wf(i as int));
        assert(self.nodes@[i as int].children@[k as int] == self.children(i as int)[k as int]);
        &self.nodes[i].actions[self.nodes[i].child_actions[k]]
    }

    /// The state at node `i`, or `None` for the root, whose state the caller
    /// keeps.
    pub fn node_state(&self, i: usize) -> (r: Option<&R::State>)
        requires
            self.wf(),
            i < self.len(),
        ensures
            i == 0 <==> r.is_none(),
            r matches Some(s) ==> s@ == self.state_of(i as int),
    {
        assert(self.node_wf(i as int));
        match &self.nodes[i].state {
            Some(s) => Some(s),
            None => None,
        }
    }

    /// Whether node `i` has a child for each of its actions.
    pub fn is_fully_expanded(&self, i: usize) -> (r: bool)
        requires
            i < self.len(),
        ensures
            r == self.fully_expanded(i as int),
    {
        self.nodes[i].untried.len() == 0
    }

    /// Whether the state at node `i` is final.
    pub fn node_is_final(&self, i: usize) -> (r: bool)
        requires
            self.wf(),
            i < self.len(),
        ensures
            r == R::State::spec_is_final(self.state_of(i as int)),
    {
        assert(self.node_wf(i as int));
        self.nodes[i].is_final
    }

    /// The visit count of the root.
    pub fn root_visits(&self) -> (r: u64)
        requires
            self.wf(),
        ensures
            r == self.visits(0),
    {
        self.nodes[0].visits
    }

    /// The action leading from the root to the child that the policy picks
    /// as the final move.
    pub fn best_action<P: TreePolicy>(&self, policy: &mut P) -> (a: R::Action)
        requires
            self.wf(),
            self.children(0).len() > 0,
        ensures
            exists|k: int|
                0 <= k < self.children(0).len() && a == self.actions(0)[self.child_action(0, k) as int],
            self.root_children_actions().contains(a),
            R::State::spec_actions(self.root_view()).contains(a),
    {
        assert(self.node_wf(0));
        let k = self.choose_child(0, policy, true);
        let idx = self.nodes[0].child_actions[k];
        let ghost c = self.nodes@[0].children@[k as int];
        let ghost acts = self.root_children_actions();
        assert(idx < self.actions(0).len());
        assert(acts[k as int] == self.actions(0)[idx as int]);
        let a = self.nodes[0].actions[idx];
        assert(R::State::spec_actions(self.root_view())[idx as int] == a);
        a
    }
}

/// When a search stops.
#[derive(Clone, Copy, Debug)]
pub enum StopCondition {
    /// After this many iterations (at least one).
    Iterations(usize),
    /// Once this much time has passed; the iteration under way completes, and
    /// at least one is made.
    Time(Duration),
}

/// Builds a search tree for `root`, iterating until `stop` fires.
pub fn search_tree<R: GameRules, P: TreePolicy>(
    root: &R::State,
    stop: &StopCondition,
    policy: &mut P,
) -> (t: Tree<R>)
    ensures
        t.wf(),
        t.root_view() == root@,
        t.visits(0) >= 1,
        !R::State::spec_is_final(root@) ==> t.children(0).len() > 0,
        stop matches StopCondition::Iterations(n) ==> t.visits(0) == if n == 0 {
            1
        } else if n > MAX_VISITS {
            MAX_VISITS as int
        } else {
            n as int
        },
        stop matches StopCondition::Iterations(n) && n <= 1 && !R::State::spec_is_final(root@) ==> {
            &&& t.children(0).len() == 1
            &&& t.visits(t.children(0)[0] as int) == 1
        },
{
    let mut tree = Tree::<R>::new(root);
    tree.iterate(root, policy);
    match stop {
        StopCondition::Iterations(n) => {
            let mut i: usize = 1;
            while i < *n && tree.root_visits() < MAX_VISITS
                invariant
                    tree.wf(),
                    tree.root_view() == root@,
                    tree.visits(0) == i,
                    1 <= i,
                    i <= MAX_VISITS,
                    *n >= 1 ==> i <= *n,
                    *n == 0 ==> i == 1,
                    i == 1 && !R::State::spec_is_final(root@) ==> tree.children(0).len() == 1
                        && tree.visits(tree.children(0)[0] as int) == 1,
                    !R::State::spec_is_final(root@) ==> tree.children(0).len() > 0,
                decreases *n - i,
            {
                tree.iterate(root, policy);
                i = i + 1;
            }
        },
        StopCondition::Time(budget) => {
            let start = clock_now();
            while tree.root_visits() < MAX_VISITS && shorter_than(&elapsed_since(&start), budget)
                invariant
                    tree.wf(),
                    tree.root_view() == root@,
                    tree.visits(0) >= 1,
                    !R::State::spec_is_final(root@) ==> tree.children(0).len() > 0,
                decreases MAX_VISITS - tree.visits(0),
            {
                tree.iterate(root, policy);
            }
        },
    }
    tree
}

/// A Monte Carlo tree search agent: UCB-style descent given by the tree
/// policy `P`, random rollouts, and a fresh tree for every decision.
pub struct GenericMonteCarloTreeSearchAi<R: GameRules, P: TreePolicy> {
    stop_condition: StopCondition,
    policy: P,
    last_tree: Option<Tree<R>>,
}

impl<R: GameRules, P: TreePolicy> GenericMonteCarloTreeSearchAi<R, P> {
    pub fn new(stop_condition: StopCondition, policy: P) -> (r: Self)
        ensures
            r.stop_condition() == stop_condition,
            r.spec_last_tree() is None,
    {
        GenericMonteCarloTreeSearchAi { stop_condition, policy, last_tree: None }
    }

    pub closed spec fn stop_condition(&self) -> StopCondition {
        self.stop_condition
    }

    /// The tree of the last decision, if there was one.
    pub closed spec fn spec_last_tree(&self) -> Option<Tree<R>> {
        self.last_tree
    }

    /// The tree of the last decision, if there was one.
    pub fn last_tree(&self) -> (r: Option<&Tree<R>>)
        ensures
            r is Some <==> self.spec_last_tree() is Some,
            r matches Some(t) ==> *t == self.spec_last_tree()->0,
    {
        match &self.last_tree {
            Some(t) => Some(t),
            None => None,
        }
    }

    /// The tree that a decision for `state` is taken from.
    pub fn build_tree(&mut self, state: &R::State) -> (t: Tree<R>)
        ensures
            t.wf(),
            t.root_view() == state@,
            t.visits(0) >= 1,
            !R::State::spec_is_final(state@) ==> t.children(0).len() > 0,
            old(self).stop_condition() matches StopCondition::Iterations(n) ==> t.visits(0) == if n == 0 {
                1
            } else if n > MAX_VISITS {
                MAX_VISITS as int
            } else {
                n as int
            },
            old(self).stop_condition() matches StopCondition::Iterations(n) && n <= 1
                && !R::State::spec_is_final(state@) ==> {
                &&& t.children(0).len() == 1
                &&& t.visits(t.children(0)[0] as int) == 1
            },
            final(self).stop_condition() == old(self).stop_condition(),
    {
        search_tree(state, &self.stop_condition, &mut self.policy)
    }
}

impl<R: GameRules, P: TreePolicy> GameAi<R> for GenericMonteCarloTreeSearchAi<R, P> {
    /// The action of the root child that the policy picks as the final move,
    /// after a fresh search; the search's tree is kept as the last tree.
    fn determine_next_move(&mut self, gamestate: &R::State) -> (r: R::Action)
        ensures
            final(self).stop_condition() == old(self).stop_condition(),
            final(self).spec_last_tree() is Some,
            final(self).spec_last_tree()->0.wf(),
            final(self).spec_last_tree()->0.root_view() == gamestate@,
            exists|k: int|
                0 <= k < final(self).spec_last_tree()->0.children(0).len()
                    && r == final(self).spec_last_tree()->0.actions(0)[final(self).spec_last_tree()->0.child_action(0, k) as int],
            old(self).stop_condition() matches StopCondition::Iterations(n)
                ==> final(self).spec_last_tree()->0.visits(0) == if n == 0 {
                1
            } else if n > MAX_VISITS {
                MAX_VISITS as int
            } else {
                n as int
            },
            old(self).stop_condition() matches StopCondition::Iterations(n) && n <= 1
                ==> final(self).spec_last_tree()->0.children(0).len() == 1,
            old(self).stop_condition() matches StopCondition::Iterations(n) && n <= 1
                ==> final(self).spec_last_tree()->0.visits(final(self).spec_last_tree()->0.children(0)[0] as int) == 1,
    {
        let tree = self.build_tree(gamestate);
        let r = tree.best_action(&mut self.policy);
        self.last_tree = Some(tree);
        r
    }

    fn name(&self) -> String {
        "Generic Monte Carlo tree search".to_owned()
    }
}

} // verus!
