//! Practical Byzantine fault tolerance, reduced to its bookkeeping: a view
//! number, a primary chosen round-robin by view, a quorum check of
//! `2f + 1` nodes, and blocks numbered by sequence.
use vstd::prelude::*;
use vstd::string::{StringExecFns, StrSliceExecFns};
use crate::text::{decimal, push_decimal};

verus! {

/// A replica with its name and whether it leads the current view.
#[derive(Debug)]
pub struct Node {
    pub id: String,
    pub is_primary: bool,
}

/// A block proposed by the primary.
#[derive(Debug)]
pub struct Block {
    pub previous_hash: String,
    pub transactions: Vec<String>,
    pub timestamp: u64,
    pub sequence_number: u64,
}

/// The replicas, the current view, and the number of faults tolerated.
#[derive(Debug)]
pub struct PbftSystem {
    pub nodes: Vec<Node>,
    pub current_view: u64,
    pub f: usize,
}

/// The name of replica `i`.
pub open spec fn node_name(i: int) -> Seq<char> {
    "Node"@ + decimal(i as nat)
}

/// Replica `i` is named `Node{i}`.
pub open spec fn named_in_order(nodes: Seq<Node>) -> bool {
    forall|i: int| 0 <= i < nodes.len() ==> (#[trigger] nodes[i]).id@ == node_name(i)
}

/// The replica that leads view `view` among `n` replicas.
pub open spec fn leader_of(view: u64, n: nat) -> int {
    ((view as usize) as int) % (n as int)
}

/// Exactly the leader of the current view is marked primary.
pub open spec fn primary_matches_view(s: PbftSystem) -> bool {
    &&& s.nodes@.len() > 0
    &&& forall|i: int| 0 <= i < s.nodes@.len() ==> (#[trigger] s.nodes@[i]).is_primary == (i == leader_of(
        s.current_view,
        s.nodes@.len(),
    ))
}

/// `i` is the first replica marked primary.
pub open spec fn first_primary(nodes: Seq<Node>, i: int) -> bool {
    &&& 0 <= i < nodes.len()
    &&& nodes[i].is_primary
    &&& forall|j: int| 0 <= j < i ==> !(#[trigger] nodes[j]).is_primary
}

/// The names and order of the replicas are the same.
pub open spec fn same_names(a: Seq<Node>, b: Seq<Node>) -> bool {
    &&& a.len() == b.len()
    &&& forall|i: int| 0 <= i < a.len() ==> (#[trigger] a[i]).id@ == b[i].id@
}

impl PbftSystem {
    /// `node_count` replicas named `Node0`, `Node1`, ..., the first one
    /// primary, in view 0.
    pub fn new(node_count: usize, f: usize) -> (s: PbftSystem)
        ensures
            s.nodes@.len() == node_count,
            named_in_order(s.nodes@),
            forall|i: int| 0 <= i < node_count ==> (#[trigger] s.nodes@[i]).is_primary == (i == 0),
            s.current_view == 0,
            s.f == f,
            node_count > 0 ==> primary_matches_view(s),
    {
        let mut nodes: Vec<Node> = Vec::new();
        let mut i: usize = 0;
        while i < node_count
            invariant
                i <= node_count,
                nodes@.len() == i,
                named_in_order(nodes@),
                forall|j: int| 0 <= j < i ==> (#[trigger] nodes@[j]).is_primary == (j == 0),
            decreases node_count - i,
        {
            let mut id = String::from_str("Node");
            push_decimal(&mut id, i as u64);
            proof {
                reveal_strlit("Node");
            }
            nodes.push(Node { id, is_primary: i == 0 });
            i = i + 1;
        }
        let s = PbftSystem { nodes, current_view: 0, f };
        assert(node_count > 0 ==> leader_of(0, node_count as nat) == 0);
        s
    }

    /// Index of the first replica marked primary; one must be.
    fn primary_index(&self) -> (i: usize)
        requires
            exists|j: int| 0 <= j < self.nodes@.len() && #[trigger] self.nodes@[j].is_primary,
        ensures
            first_primary(self.nodes@, i as int),
    {
        let mut i: usize = 0;
        while i < self.nodes.len()
            invariant
                exists|j: int| 0 <= j < self.nodes@.len() && #[trigger] self.nodes@[j].is_primary,
                i <= self.nodes@.len(),
                forall|j: int| 0 <= j < i ==> !(#[trigger] self.nodes@[j]).is_primary,
            decreases self.nodes@.len() - i,
        {
            if self.nodes[i].is_primary {
                return i;
            }
            i = i + 1;
        }
        assert(false);
        0
    }

    /// The first replica marked primary; one must be.
    pub fn get_primary(&self) -> (p: &Node)
        requires
            exists|j: int| 0 <= j < self.nodes@.len() && #[trigger] self.nodes@[j].is_primary,
        ensures
            exists|i: int| first_primary(self.nodes@, i) && *p == self.nodes@[i],
    {
        let i = self.primary_index();
        &self.nodes[i]
    }

    /// Moves to the next view and makes its leader, replica
    /// `view mod n`, the only primary.
    pub fn view_change(&mut self)
        requires
            old(self).nodes@.len() > 0,
            old(self).current_view < u64::MAX,
        ensures
            final(self).current_view == old(self).current_view + 1,
            final(self).f == old(self).f,
            same_names(final(self).nodes@, old(self).nodes@),
            primary_matches_view(*final(self)),
    {
        self.current_view = self.current_view + 1;
        let n = self.nodes.len();
        let new_primary_index = (self.current_view as usize) % n;
        let ghost before = self.nodes@;
        let mut i: usize = 0;
        while i < n
            invariant
                n == self.nodes@.len(),
                n == before.len(),
                i <= n,
                self.current_view == old(self).current_view + 1,
                self.f == old(self).f,
                before == old(self).nodes@,
                same_names(self.nodes@, before),
                forall|j: int| 0 <= j < i ==> !(#[trigger] self.nodes@[j]).is_primary,
            decreases n - i,
        {
            let id = self.nodes[i].id.clone();
            self.nodes.set(i, Node { id, is_primary: false });
            i = i + 1;
        }
        let id = self.nodes[new_primary_index].id.clone();
        self.nodes.set(new_primary_index, Node { id, is_primary: true });
    }

    /// Handles a client request. A faulty primary first forces a view
    /// change, and the request is dropped when the new primary is `Node0`.
    /// A block stamped `now` is made when at least `2f + 1` replicas take
    /// part.
    pub fn process_request(
        &mut self,
        transactions: Vec<String>,
        previous_hash: &str,
        sequence_number: u64,
        is_faulty: bool,
        now: u64,
    ) -> (r: Option<Block>)
        requires
            is_faulty ==> old(self).nodes@.len() > 0 && old(self).current_view < u64::MAX,
            2 * old(self).f + 1 <= usize::MAX,
        ensures
            !is_faulty ==> *final(self) == *old(self),
            is_faulty ==> final(self).current_view == old(self).current_view + 1
                && final(self).f == old(self).f
                && same_names(final(self).nodes@, old(self).nodes@)
                && primary_matches_view(*final(self)),
            ({
                let dropped = is_faulty && exists|i: int|
                    first_primary(final(self).nodes@, i) && final(self).nodes@[i].id@ == "Node0"@;
                let quorum = final(self).nodes@.len() >= 2 * final(self).f + 1;
                match r {
                    Some(b) => !dropped && quorum && b.previous_hash@ == previous_hash@
                        && b.transactions == transactions && b.timestamp == now
                        && b.sequence_number == sequence_number,
                    None => dropped || !quorum,
                }
            }),
    {
        if is_faulty {
            self.view_change();
            proof {
                lemma_unique_primary(*self);
            }
            let i = self.primary_index();
            let node0 = String::from_str("Node0");
            if self.nodes[i].id == node0 {
                proof {
                    reveal_strlit("Node0");
                }
                return None;
            }
            proof {
                reveal_strlit("Node0");
                assert forall|k: int| first_primary(self.nodes@, k) implies self.nodes@[k].id@ != "Node0"@ by {
                    if k != i as int {
                        if k < i {
                            assert(!self.nodes@[k].is_primary);
                        } else {
                            assert(!self.nodes@[i as int].is_primary);
                        }
                    }
                }
            }
        }
        if self.nodes.len() >= 2 * self.f + 1 {
            let block = Block {
                previous_hash: String::from_str(previous_hash),
                transactions,
                timestamp: now,
                sequence_number,
            };
            return Some(block);
        }
        None
    }

    /// Whether the block's sequence number is the current view plus one.
    pub fn verify_block(&self, block: &Block) -> (ok: bool)
        ensures
            ok == (block.sequence_number == self.current_view + 1),
    {
        block.sequence_number > 0 && block.sequence_number - 1 == self.current_view
    }
}

/// While the primary leads the current view (as after `new` with at least
/// one replica, and after every view change), exactly one replica is marked
/// primary: the leader `view mod n`, and it is the one `get_primary` finds.
pub proof fn lemma_unique_primary(s: PbftSystem)
    requires
        primary_matches_view(s),
    ensures
        first_primary(s.nodes@, leader_of(s.current_view, s.nodes@.len())),
        forall|i: int| 0 <= i < s.nodes@.len() && (#[trigger] s.nodes@[i]).is_primary ==> i == leader_of(
            s.current_view,
            s.nodes@.len(),
        ),
        exists|j: int| 0 <= j < s.nodes@.len() && #[trigger] s.nodes@[j].is_primary,
{
    let l = leader_of(s.current_view, s.nodes@.len());
    assert(s.nodes@[l].is_primary);
}

} // verus!
