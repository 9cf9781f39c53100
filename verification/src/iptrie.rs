//! The deduplication core: a binary prefix trie that collapses a collection
//! of subnets into the minimal covering set.

use vstd::prelude::*;

use crate::network::{covers, net_wf, path_of, ListNetwork};

verus! {

/// An IPv4 or IPv6 address as its machine-word bit pattern.
pub enum BitIp {
    Ipv4(u32),
    Ipv6(u128),
}

impl BitIp {
    /// The address width in bits: 32 or 128.
    pub open spec fn width(&self) -> nat {
        match self {
            BitIp::Ipv4(_) => 32,
            BitIp::Ipv6(_) => 128,
        }
    }

    /// Bit `i` of the address, most significant bit first.
    pub open spec fn bit_at(&self, i: int) -> bool {
        match self {
            BitIp::Ipv4(v) => 0 <= i < 32 && ((*v >> ((31 - i) as u32)) & 1) == 1,
            BitIp::Ipv6(v) => 0 <= i < 128 && ((*v >> ((127 - i) as u128)) & 1) == 1,
        }
    }

    /// Shifts the address right by `n` bits, within its own width.
    pub fn r_shift(&self, n: u8) -> (r: Self)
        requires
            (n as nat) < self.width(),
        ensures
            r == (match self {
                BitIp::Ipv4(ip) => BitIp::Ipv4(ip >> (n as u32)),
                BitIp::Ipv6(ip) => BitIp::Ipv6(ip >> (n as u128)),
            }),
    {
        match self {
            BitIp::Ipv4(ip) => BitIp::Ipv4(*ip >> (n as u32)),
            BitIp::Ipv6(ip) => BitIp::Ipv6(*ip >> (n as u128)),
        }
    }

    /// Masks the address with an eight-bit value and keeps the low byte.
    pub fn b_and(self, rhs: u8) -> (r: u8)
        ensures
            r == (match self {
                BitIp::Ipv4(ip) => (ip & (rhs as u32)) as u8,
                BitIp::Ipv6(ip) => (ip & (rhs as u128)) as u8,
            }),
    {
        match self {
            BitIp::Ipv4(ip) => (ip & (rhs as u32)) as u8,
            BitIp::Ipv6(ip) => (ip & (rhs as u128)) as u8,
        }
    }
}

/// Whether the subtree below an optional child carries a subnet mark at the
/// end of the bit path `p`.
pub(crate) open spec fn opt_has_mark(o: Option<Box<TrieNode>>, p: Seq<bool>) -> bool
    decreases o,
{
    match o {
        Option::None => false,
        Option::Some(c) => c.has_mark(p),
    }
}

/// A node of the binary prefix trie.  Its two children correspond to the
/// next address bit being zero or one; `is_subnet` marks the end of a
/// retained subnet's bit path.  Once a node is marked, no descendant of it
/// carries a mark: marking prunes the whole subtree below.
pub(crate) struct TrieNode {
    pub(crate) zero: Option<Box<TrieNode>>,
    pub(crate) one: Option<Box<TrieNode>>,
    pub(crate) is_subnet: bool,
}

impl TrieNode {
    /// Whether this trie carries a subnet mark at the end of bit path `p`.
    pub(crate) open spec fn has_mark(self, p: Seq<bool>) -> bool
        decreases self,
    {
        if p.len() == 0 {
            self.is_subnet
        } else {
            opt_has_mark(
                if p[0] {
                    self.one
                } else {
                    self.zero
                },
                p.drop_first(),
            )
        }
    }

    /// A fresh node: unmarked, no children.
    pub(crate) fn new() -> (r: Self)
        ensures
            r == (TrieNode { zero: None, one: None, is_subnet: false }),
            forall|p: Seq<bool>| !r.has_mark(p),
    {
        let r = TrieNode { zero: None, one: None, is_subnet: false };
        proof {
            assert forall|p: Seq<bool>| !r.has_mark(p) by {
                if p.len() == 0 {
                } else {
                    assert(!opt_has_mark(None::<Box<TrieNode>>, p.drop_first()));
                }
            }
        }
        r
    }
}

/// Whether the bit path `rest` runs into a mark in `n`: some prefix of
/// `rest` (the whole of it included) is marked, i.e. the subnet with path
/// `rest` is already covered by a retained subnet.
pub(crate) open spec fn covered_in(n: TrieNode, rest: Seq<bool>) -> bool {
    exists|k: int| 0 <= k <= rest.len() && #[trigger] n.has_mark(rest.take(k))
}

impl TrieNode {
    /// Inserts the subnet's bit path below `node`, which sits at depth
    /// `depth` of the trie.  Returns false, leaving the trie unchanged, when
    /// the path runs into an existing mark (the subnet is covered, or an
    /// exact duplicate); otherwise marks the terminal node, prunes its
    /// children, and returns true.
    fn insert_at<T: ListNetwork>(node: &mut TrieNode, ip: &T, depth: u8) -> (res: bool)
        requires
            net_wf(ip@),
            depth as nat <= ip@.prefix,
            forall|q: Seq<bool>|
                #[trigger] old(node).has_mark(q) ==> q.len() <= ip@.prefix - depth,
        ensures
            res == !covered_in(*old(node), path_of(ip@).skip(depth as int)),
            res ==> forall|q: Seq<bool>|
                #[trigger] final(node).has_mark(q) <==> (old(node).has_mark(q) || q == path_of(
                    ip@,
                ).skip(depth as int)),
            !res ==> *final(node) == *old(node),
            forall|q: Seq<bool>|
                #[trigger] final(node).has_mark(q) ==> q.len() <= ip@.prefix - depth,
        decreases ip@.prefix - depth,
    {
        let ghost rest = path_of(ip@).skip(depth as int);
        if node.is_subnet {
            proof {
                assert(rest.take(0) =~= Seq::<bool>::empty());
                assert(node.has_mark(rest.take(0)));
            }
            return false;
        }
        let prefix = ip.network_prefix();
        if depth == prefix {
            proof {
                assert(rest =~= Seq::<bool>::empty());
                assert forall|k: int| 0 <= k <= rest.len() implies !old(node).has_mark(
                    rest.take(k),
                ) by {
                    assert(rest.take(k) =~= Seq::<bool>::empty());
                }
            }
            node.is_subnet = true;
            node.zero = None;
            node.one = None;
            proof {
                assert forall|q: Seq<bool>|
                    #[trigger] node.has_mark(q) <==> (old(node).has_mark(q) || q
                        == rest) by {
                    if q.len() == 0 {
                        assert(q =~= rest);
                        assert(node.has_mark(q));
                    } else {
                        assert(!opt_has_mark(None::<Box<TrieNode>>, q.drop_first()));
                        if old(node).has_mark(q) {
                            assert(q.len() <= 0);
                        }
                    }
                }
            }
            return true;
        }
        // The next bit of the subnet's path selects the child to descend
        // into, as in the original walk from the most significant bit.
        let w = ip.max_prefix();
        let n = w - 1 - depth;
        let masked = ip.network_addr();
        let shifted = masked.r_shift(n);
        let bit = shifted.b_and(1);
        proof {
            assert(masked.bit_at(depth as int) == rest[0]);
            match masked {
                BitIp::Ipv4(v) => {
                    let vs = v >> (n as u32);
                    assert(((vs & 1) as u8 == 1) == ((vs & 1) == 1)) by (bit_vector);
                },
                BitIp::Ipv6(v) => {
                    let vs = v >> (n as u128);
                    assert(((vs & 1) as u8 == 1) == ((vs & 1) == 1)) by (bit_vector);
                },
            }
            assert((bit == 1) == rest[0]);
        }
        let ghost rest1 = path_of(ip@).skip(depth as int + 1);
        proof {
            assert(rest1 =~= rest.drop_first());
        }
        if bit == 1 {
            let mut child: Box<TrieNode> = match node.one.take() {
                Some(c) => c,
                None => Box::new(TrieNode::new()),
            };
            let ghost child0 = *child;
            proof {
                lemma_child_marks(*old(node), child0, true);
            }
            let res = Self::insert_at(&mut *child, ip, depth + 1);
            let ghost child1 = *child;
            node.one = Some(child);
            proof {
                lemma_descend(*old(node), child0, child1, *node, true, rest, res);
            }
            res
        } else {
            let mut child: Box<TrieNode> = match node.zero.take() {
                Some(c) => c,
                None => Box::new(TrieNode::new()),
            };
            let ghost child0 = *child;
            proof {
                lemma_child_marks(*old(node), child0, false);
            }
            let res = Self::insert_at(&mut *child, ip, depth + 1);
            let ghost child1 = *child;
            node.zero = Some(child);
            proof {
                lemma_descend(*old(node), child0, child1, *node, false, rest, res);
            }
            res
        }
    }
}

impl TrieNode {
    /// Inserts a subnet's full bit path into the trie rooted at `self`.
    fn insert<T: ListNetwork>(&mut self, ip: &T) -> (res: bool)
        requires
            net_wf(ip@),
            forall|q: Seq<bool>| #[trigger] old(self).has_mark(q) ==> q.len() <= ip@.prefix,
        ensures
            res == !covered_in(*old(self), path_of(ip@)),
            res ==> forall|q: Seq<bool>|
                #[trigger] final(self).has_mark(q) <==> (old(self).has_mark(q) || q == path_of(
                    ip@,
                )),
            !res ==> *final(self) == *old(self),
            forall|q: Seq<bool>| #[trigger] final(self).has_mark(q) ==> q.len() <= ip@.prefix,
    {
        proof {
            assert(path_of(ip@).skip(0) =~= path_of(ip@));
        }
        Self::insert_at(self, ip, 0)
    }
}

/// Marks of a child are the marks of the parent behind the child's bit.
proof fn lemma_child_marks(parent: TrieNode, child: TrieNode, b: bool)
    requires
        child == (match (if b {
            parent.one
        } else {
            parent.zero
        }) {
            Option::Some(c) => *c,
            Option::None => TrieNode { zero: None, one: None, is_subnet: false },
        }),
    ensures
        forall|q: Seq<bool>| #[trigger] child.has_mark(q) == parent.has_mark(seq![b] + q),
{
    assert forall|q: Seq<bool>| #[trigger] child.has_mark(q) == parent.has_mark(seq![b] + q) by {
        let p = seq![b] + q;
        assert(p.len() == 1 + q.len());
        assert(p[0] == b);
        assert(p.drop_first() =~= q);
        match (if b {
            parent.one
        } else {
            parent.zero
        }) {
            Option::Some(c) => {
                assert(parent.has_mark(p) == c.has_mark(q));
            },
            Option::None => {
                assert(!parent.has_mark(p));
                assert forall|r: Seq<bool>| !child.has_mark(r) by {
                    if r.len() == 0 {
                    } else {
                        assert(!opt_has_mark(None::<Box<TrieNode>>, r.drop_first()));
                    }
                }
            },
        }
    }
}

/// Carries the recursive insertion's effect on a child back to the parent:
/// coverage, the mark-set update, and the depth bound.
#[verifier::rlimit(30)]
proof fn lemma_descend(
    oldn: TrieNode,
    child0: TrieNode,
    child1: TrieNode,
    newn: TrieNode,
    b: bool,
    rest: Seq<bool>,
    res: bool,
)
    requires
        !oldn.is_subnet,
        rest.len() > 0,
        rest[0] == b,
        child0 == (match (if b {
            oldn.one
        } else {
            oldn.zero
        }) {
            Option::Some(c) => *c,
            Option::None => TrieNode { zero: None, one: None, is_subnet: false },
        }),
        newn == (if b {
            TrieNode { one: Some(Box::new(child1)), ..oldn }
        } else {
            TrieNode { zero: Some(Box::new(child1)), ..oldn }
        }),
        res == !covered_in(child0, rest.drop_first()),
        res ==> forall|q: Seq<bool>|
            #[trigger] child1.has_mark(q) <==> (child0.has_mark(q) || q == rest.drop_first()),
        !res ==> child1 == child0,
    ensures
        res == !covered_in(oldn, rest),
        res ==> forall|q: Seq<bool>|
            #[trigger] newn.has_mark(q) <==> (oldn.has_mark(q) || q == rest),
        !res ==> (forall|q: Seq<bool>| #[trigger] newn.has_mark(q) == oldn.has_mark(q)),
{
    lemma_child_marks(oldn, child0, b);
    lemma_child_marks(newn, child1, b);
    let rest1 = rest.drop_first();
    // Coverage transfers across one level of the trie.
    if covered_in(child0, rest1) {
        let k = choose|k: int| 0 <= k <= rest1.len() && #[trigger] child0.has_mark(rest1.take(k));
        assert(seq![b] + rest1.take(k) =~= rest.take(k + 1));
        assert(oldn.has_mark(rest.take(k + 1)));
        assert(covered_in(oldn, rest));
    }
    if covered_in(oldn, rest) {
        let k = choose|k: int| 0 <= k <= rest.len() && #[trigger] oldn.has_mark(rest.take(k));
        if k == 0 {
            assert(rest.take(0) =~= Seq::<bool>::empty());
            assert(false);
        } else {
            assert(seq![b] + rest1.take(k - 1) =~= rest.take(k));
            assert(child0.has_mark(rest1.take(k - 1)));
            assert(covered_in(child0, rest1));
        }
    }
    // The mark sets of the two sides of the parent.
    assert forall|q: Seq<bool>| #[trigger] newn.has_mark(q) == (if q.len() == 0 {
        oldn.is_subnet
    } else if q[0] == b {
        child1.has_mark(q.drop_first())
    } else {
        oldn.has_mark(q)
    }) by {
        if q.len() == 0 {
        } else if q[0] == b {
            assert(seq![b] + q.drop_first() =~= q);
            assert(newn.has_mark(q) == child1.has_mark(q.drop_first()));
        } else {
            if b {
                assert(newn.zero == oldn.zero);
            } else {
                assert(newn.one == oldn.one);
            }
        }
    }
    if res {
        assert forall|q: Seq<bool>|
            #[trigger] newn.has_mark(q) <==> (oldn.has_mark(q) || q == rest) by {
            if q.len() == 0 {
            } else if q[0] == b {
                assert(seq![b] + q.drop_first() =~= q);
                assert(oldn.has_mark(q) == child0.has_mark(q.drop_first()));
                if q.drop_first() == rest1 {
                    assert(q =~= rest);
                }
                if q == rest {
                    assert(q.drop_first() == rest1);
                }
            } else {
                assert(q != rest);
            }
        }
    } else {
        assert forall|q: Seq<bool>| #[trigger] newn.has_mark(q) == oldn.has_mark(q) by {
            if q.len() == 0 {
            } else if q[0] == b {
                assert(seq![b] + q.drop_first() =~= q);
                assert(oldn.has_mark(q) == child0.has_mark(q.drop_first()));
            }
        }
    }
}

/// Sorts subnets by ascending prefix length, the broadest ranges first.
/// Equal prefix lengths keep their input order.
fn sort_by_prefix<T: ListNetwork>(ips: Vec<T>) -> (r: Vec<T>)
    requires
        forall|i: int| 0 <= i < ips@.len() ==> net_wf(#[trigger] ips@[i]@),
    ensures
        r@.len() == ips@.len(),
        forall|j1: int, j2: int|
            0 <= j1 <= j2 < r@.len() ==> (#[trigger] r@[j1]@.prefix) <= (#[trigger] r@[j2]@.prefix),
        forall|x: T| r@.contains(x) <==> ips@.contains(x),
        forall|i: int| 0 <= i < r@.len() ==> net_wf(#[trigger] r@[i]@),
{
    let mut src = ips;
    let mut out: Vec<T> = Vec::new();
    while src.len() > 0
        invariant
            out@.len() + src@.len() == ips@.len(),
            forall|i: int| 0 <= i < src@.len() ==> net_wf(#[trigger] src@[i]@),
            forall|i: int| 0 <= i < out@.len() ==> net_wf(#[trigger] out@[i]@),
            forall|j1: int, j2: int|
                0 <= j1 <= j2 < out@.len() ==> (#[trigger] out@[j1]@.prefix) <= (
                #[trigger] out@[j2]@.prefix),
            forall|j: int, k: int|
                0 <= j < out@.len() && 0 <= k < src@.len() ==> (#[trigger] out@[j]@.prefix) <= (
                #[trigger] src@[k]@.prefix),
            forall|x: T| ips@.contains(x) <==> (out@.contains(x) || src@.contains(x)),
        decreases src@.len(),
    {
        let mut m: usize = 0;
        let mut i: usize = 1;
        while i < src.len()
            invariant
                src@.len() > 0,
                m < i,
                i <= src@.len(),
                forall|k: int| 0 <= k < src@.len() ==> net_wf(#[trigger] src@[k]@),
                forall|k: int|
                    0 <= k < i ==> (#[trigger] src@[m as int]@.prefix) <= src@[k]@.prefix,
            decreases src@.len() - i,
        {
            let pi = (&src[i]).network_prefix();
            let pm = (&src[m]).network_prefix();
            if pi < pm {
                m = i;
            }
            i = i + 1;
        }
        let ghost old_src = src@;
        let ghost old_out = out@;
        let x = src.remove(m);
        out.push(x);
        proof {
            assert forall|y: T| old_out.contains(y) implies out@.contains(y) by {
                let idx = choose|idx: int| 0 <= idx < old_out.len() && old_out[idx] == y;
                assert(out@[idx] == y);
            }
            assert forall|y: T| old_src.contains(y) implies (out@.contains(y)
                || src@.contains(y)) by {
                let idx = choose|idx: int| 0 <= idx < old_src.len() && old_src[idx] == y;
                if idx == m {
                    assert(out@[out@.len() - 1] == y);
                } else if idx < m {
                    assert(src@[idx] == y);
                } else {
                    assert(src@[idx - 1] == y);
                }
            }
            assert forall|y: T| (out@.contains(y) || src@.contains(y)) implies old_out.contains(y)
                || old_src.contains(y) by {
                if src@.contains(y) {
                    let idx = choose|idx: int| 0 <= idx < src@.len() && src@[idx] == y;
                    if idx < m {
                        assert(old_src[idx] == y);
                    } else {
                        assert(old_src[idx + 1] == y);
                    }
                } else {
                    let idx = choose|idx: int| 0 <= idx < out@.len() && out@[idx] == y;
                    if idx < old_out.len() {
                        assert(old_out[idx] == y);
                    } else {
                        assert(old_src[m as int] == y);
                    }
                }
            }
        }
    }
    out
}

/// Reverses a vector.
fn reverse_vec<T>(v: Vec<T>) -> (r: Vec<T>)
    ensures
        r@.len() == v@.len(),
        forall|i: int| 0 <= i < v@.len() ==> r@[i] == v@[v@.len() - 1 - i],
{
    let mut src = v;
    let mut out: Vec<T> = Vec::new();
    while src.len() > 0
        invariant
            out@.len() + src@.len() == v@.len(),
            forall|k: int| 0 <= k < src@.len() ==> src@[k] == v@[k],
            forall|i: int| 0 <= i < out@.len() ==> out@[i] == v@[v@.len() - 1 - i],
        decreases src@.len(),
    {
        let x = src.pop().unwrap();
        out.push(x);
    }
    out
}

/// Whether `q` is the bit path of some subnet in `out`.
pub(crate) open spec fn mark_of_some<T: ListNetwork>(out: Seq<T>, q: Seq<bool>) -> bool {
    exists|j: int| 0 <= j < out.len() && q == path_of(#[trigger] out[j]@)
}

/// Whether some subnet in `out` covers the subnet `x`.
pub open spec fn covered_by_some<T: ListNetwork>(out: Seq<T>, x: T) -> bool {
    exists|j: int| 0 <= j < out.len() && covers(#[trigger] out[j]@, x@)
}

/// What deduplication promises: the output is drawn from the input, no
/// output subnet covers another, and every input subnet is covered by some
/// output subnet.  A set with these three properties is the minimal
/// equivalent covering set of the input.
pub open spec fn minimal_cover<T: ListNetwork>(input: Seq<T>, out: Seq<T>) -> bool {
    &&& forall|j: int| 0 <= j < out.len() ==> input.contains(#[trigger] out[j])
    &&& forall|j1: int, j2: int|
        0 <= j1 < out.len() && 0 <= j2 < out.len() && j1 != j2 ==> !covers(
            #[trigger] out[j1]@,
            #[trigger] out[j2]@,
        )
    &&& forall|i: int| 0 <= i < input.len() ==> #[trigger] covered_by_some(out, input[i])
}

/// Removes from a collection of subnets every subnet that is covered by
/// another one in the collection, exact duplicates included: the subnets are
/// sorted broadest first and each is inserted into a prefix trie, which
/// rejects any subnet whose path runs through or onto an existing mark.
pub fn deduplicate<T: ListNetwork>(ips: Vec<T>) -> (r: Vec<T>)
    requires
        forall|i: int| 0 <= i < ips@.len() ==> net_wf(#[trigger] ips@[i]@),
    ensures
        minimal_cover(ips@, r@),
        forall|i: int| 0 <= i < r@.len() ==> net_wf(#[trigger] r@[i]@),
        forall|j1: int, j2: int|
            0 <= j1 <= j2 < r@.len() ==> (#[trigger] r@[j1]@.prefix) <= (#[trigger] r@[j2]@.prefix),
{
    let ghost orig = ips@;
    let sorted_vec = sort_by_prefix(ips);
    let ghost sorted = sorted_vec@;
    let mut stack = reverse_vec(sorted_vec);
    let mut root = TrieNode::new();
    let mut result: Vec<T> = Vec::new();
    let ghost len = sorted.len();
    while stack.len() > 0
        invariant
            len == sorted.len(),
            stack@.len() <= len,
            forall|k: int| 0 <= k < stack@.len() ==> stack@[k] == sorted[len - 1 - k],
            forall|i: int| 0 <= i < sorted.len() ==> net_wf(#[trigger] sorted[i]@),
            forall|j1: int, j2: int|
                0 <= j1 <= j2 < sorted.len() ==> (#[trigger] sorted[j1]@.prefix) <= (
                #[trigger] sorted[j2]@.prefix),
            forall|j: int|
                0 <= j < result@.len() ==> sorted.take(len - stack@.len()).contains(
                    #[trigger] result@[j],
                ),
            forall|j: int|
                0 <= j < result@.len() ==> root.has_mark(path_of(#[trigger] result@[j]@)),
            forall|q: Seq<bool>| #[trigger] root.has_mark(q) ==> mark_of_some(result@, q),
            forall|i: int|
                0 <= i < len - stack@.len() ==> #[trigger] covered_by_some(result@, sorted[i]),
            forall|j1: int, j2: int|
                0 <= j1 < result@.len() && 0 <= j2 < result@.len() && j1 != j2 ==> !covers(
                    #[trigger] result@[j1]@,
                    #[trigger] result@[j2]@,
                ),
            forall|j1: int, j2: int|
                0 <= j1 <= j2 < result@.len() ==> (#[trigger] result@[j1]@.prefix) <= (
                #[trigger] result@[j2]@.prefix),
        decreases stack@.len(),
    {
        let ghost done = len - stack@.len();
        let ip = stack.pop().unwrap();
        proof {
            assert(ip == sorted[done]);
            assert(sorted.take(done).contains(ip) ==> ip == ip);
            // Every mark in the trie is the path of a retained subnet whose
            // prefix is no longer than the one being inserted.
            assert forall|q: Seq<bool>| #[trigger] root.has_mark(q) implies q.len()
                <= ip@.prefix by {
                assert(mark_of_some(result@, q));
                let j = choose|j: int|
                    0 <= j < result@.len() && q == path_of(#[trigger] result@[j]@);
                lemma_take_contains_prefix_le(sorted, done, result@[j]);
                assert(path_of(result@[j]@).len() == result@[j]@.prefix);
            }
        }
        let ghost root0 = root;
        let ins = root.insert(&ip);
        if ins {
            let ghost old_result = result@;
            result.push(ip);
            proof {
                let p = path_of(ip@);
                assert(p.is_prefix_of(p)) by {
                    assert(p.subrange(0, p.len() as int) =~= p);
                }
                ip.lemma_family_width();
                assert(covers(ip@, ip@));
                // The retained subnets stay ordered by prefix length: the
                // newcomer's prefix is at least every older one's.
                assert forall|j1: int, j2: int|
                    0 <= j1 <= j2 < result@.len() implies (#[trigger] result@[j1]@.prefix) <= (
                #[trigger] result@[j2]@.prefix) by {
                    if j2 == result@.len() - 1 && j1 < j2 {
                        lemma_take_contains_prefix_le(sorted, done, result@[j1]);
                    }
                }
                // Every mark of the grown trie is the path of a retained
                // subnet: the old marks through the old witnesses, the new
                // mark through the subnet just pushed.
                assert forall|q: Seq<bool>| #[trigger] root.has_mark(q) implies mark_of_some(
                    result@,
                    q,
                ) by {
                    if root0.has_mark(q) {
                        assert(mark_of_some(old_result, q));
                        let j = choose|j: int|
                            0 <= j < old_result.len() && q == path_of(#[trigger] old_result[j]@);
                        assert(q == path_of(result@[j]@));
                    } else {
                        assert(q == p);
                        assert(q == path_of(result@[result@.len() - 1]@));
                    }
                }
                // The new subnet is covered by itself; older inputs keep
                // their witnesses.
                assert forall|i: int| 0 <= i < done + 1 implies #[trigger] covered_by_some(
                    result@,
                    sorted[i],
                ) by {
                    if i < done {
                        assert(covered_by_some(old_result, sorted[i]));
                        let j = choose|j: int|
                            0 <= j < old_result.len() && covers(
                                #[trigger] old_result[j]@,
                                sorted[i]@,
                            );
                        assert(covers(result@[j]@, sorted[i]@));
                    } else {
                        assert(covers(result@[result@.len() - 1]@, sorted[i]@));
                    }
                }
                // Membership in the processed part of the sorted input.
                assert forall|j: int| 0 <= j < result@.len() implies sorted.take(
                    done + 1,
                ).contains(#[trigger] result@[j]) by {
                    if j < old_result.len() {
                        let idx = choose|idx: int|
                            0 <= idx < done && sorted.take(done)[idx] == result@[j];
                        assert(sorted.take(done + 1)[idx] == result@[j]);
                    } else {
                        assert(sorted.take(done + 1)[done] == result@[j]);
                    }
                }
                // The new subnet neither covers nor is covered by any older
                // retained subnet: a covering mark would have stopped the
                // insertion, and an older subnet it covered would have an
                // equal prefix and therefore the very same path.
                assert forall|j1: int, j2: int|
                    0 <= j1 < result@.len() && 0 <= j2 < result@.len() && j1 != j2 implies !covers(
                    #[trigger] result@[j1]@,
                    #[trigger] result@[j2]@,
                ) by {
                    let newest = result@.len() - 1;
                    if j1 == newest && j2 < newest {
                        if covers(ip@, result@[j2]@) {
                            lemma_take_contains_prefix_le(sorted, done, result@[j2]);
                            lemma_paths_equal(result@[j2], ip);
                            assert(root0.has_mark(path_of(old_result[j2]@)));
                            assert(root0.has_mark(p));
                            assert(covered_in(root0, p)) by {
                                assert(p.take(p.len() as int) =~= p);
                                assert(root0.has_mark(p.take(p.len() as int)));
                            }
                            assert(false);
                        }
                    } else if j2 == newest && j1 < newest {
                        if covers(result@[j1]@, ip@) {
                            let q = path_of(result@[j1]@);
                            assert(root0.has_mark(q));
                            assert(q == p.take(q.len() as int));
                            assert(covered_in(root0, p));
                            assert(false);
                        }
                    }
                }
            }
        } else {
            proof {
                // The subnet's path ran into a mark: the marking subnet
                // covers it.
                let p = path_of(ip@);
                let k = choose|k: int| 0 <= k <= p.len() && #[trigger] root0.has_mark(p.take(k));
                assert(mark_of_some(result@, p.take(k)));
                let j = choose|j: int|
                    0 <= j < result@.len() && p.take(k) == path_of(#[trigger] result@[j]@);
                assert(path_of(result@[j]@).is_prefix_of(p)) by {
                    assert(p.take(k).subrange(0, k) =~= p.take(k));
                }
                ip.lemma_family_width();
                let jx = choose|jx: int|
                    0 <= jx < sorted.take(done).len() && sorted.take(done)[jx] == result@[j];
                (&sorted[jx]).lemma_family_width();
                assert(covers(result@[j]@, ip@));
                assert forall|i: int| 0 <= i < done + 1 implies #[trigger] covered_by_some(
                    result@,
                    sorted[i],
                ) by {
                    if i == done {
                        assert(covers(result@[j]@, sorted[i]@));
                    }
                }
                assert forall|jj: int| 0 <= jj < result@.len() implies sorted.take(
                    done + 1,
                ).contains(#[trigger] result@[jj]) by {
                    let idx = choose|idx: int|
                        0 <= idx < done && sorted.take(done)[idx] == result@[jj];
                    assert(sorted.take(done + 1)[idx] == result@[jj]);
                }
            }
        }
    }
    proof {
        assert(sorted.take(len as int) =~= sorted);
        // Transfer membership and coverage from the sorted vector back to
        // the input.
        assert forall|j: int| 0 <= j < result@.len() implies orig.contains(
            #[trigger] result@[j],
        ) by {
            assert(sorted.contains(result@[j]));
        }
        assert forall|i: int| 0 <= i < orig.len() implies #[trigger] covered_by_some(
            result@,
            orig[i],
        ) by {
            assert(sorted.contains(orig[i]));
            let k = choose|k: int| 0 <= k < sorted.len() && sorted[k] == orig[i];
            assert(covered_by_some(result@, sorted[k]));
        }
        assert forall|j: int| 0 <= j < result@.len() implies net_wf(#[trigger] result@[j]@) by {
            assert(sorted.contains(result@[j]));
            let k = choose|k: int| 0 <= k < sorted.len() && sorted[k] == result@[j];
        }
    }
    result
}

/// Whether some view in `out` covers the view `x`.
pub open spec fn covered_by_some_v(out: Seq<crate::network::NetView>, x: crate::network::NetView) -> bool {
    exists|j: int| 0 <= j < out.len() && covers(#[trigger] out[j], x)
}

/// `minimal_cover`, stated over subnet views alone.
pub open spec fn minimal_cover_v(
    input: Seq<crate::network::NetView>,
    out: Seq<crate::network::NetView>,
) -> bool {
    &&& forall|j: int| 0 <= j < out.len() ==> input.contains(#[trigger] out[j])
    &&& forall|j1: int, j2: int|
        0 <= j1 < out.len() && 0 <= j2 < out.len() && j1 != j2 ==> !covers(
            #[trigger] out[j1],
            #[trigger] out[j2],
        )
    &&& forall|i: int| 0 <= i < input.len() ==> #[trigger] covered_by_some_v(out, input[i])
}

/// A minimal cover of subnets is a minimal cover of their views.
pub proof fn lemma_minimal_cover_views<T: ListNetwork>(input: Seq<T>, out: Seq<T>)
    requires
        minimal_cover(input, out),
    ensures
        minimal_cover_v(
            input.map_values(|x: T| x@),
            out.map_values(|x: T| x@),
        ),
{
    let iv = input.map_values(|x: T| x@);
    let ov = out.map_values(|x: T| x@);
    assert forall|j: int| 0 <= j < ov.len() implies iv.contains(#[trigger] ov[j]) by {
        assert(input.contains(out[j]));
        let k = choose|k: int| 0 <= k < input.len() && input[k] == out[j];
        assert(iv[k] == ov[j]);
    }
    assert forall|i: int| 0 <= i < iv.len() implies #[trigger] covered_by_some_v(ov, iv[i]) by {
        assert(covered_by_some(out, input[i]));
        let j = choose|j: int| 0 <= j < out.len() && covers(#[trigger] out[j]@, input[i]@);
        assert(covers(ov[j], iv[i]));
    }
}

/// Idempotence of deduplication: deduplicating an already deduplicated
/// collection changes nothing — the two results hold exactly the same
/// subnets.
pub proof fn lemma_deduplicate_idempotent<T: ListNetwork>(
    input: Seq<T>,
    once: Seq<T>,
    twice: Seq<T>,
)
    requires
        minimal_cover(input, once),
        minimal_cover(once, twice),
    ensures
        forall|x: T| once.contains(x) <==> twice.contains(x),
{
    assert forall|x: T| twice.contains(x) implies once.contains(x) by {
        let j = choose|j: int| 0 <= j < twice.len() && twice[j] == x;
        assert(once.contains(twice[j]));
    }
    assert forall|x: T| once.contains(x) implies twice.contains(x) by {
        let jx = choose|jx: int| 0 <= jx < once.len() && once[jx] == x;
        assert(covered_by_some(twice, once[jx]));
        let j = choose|j: int| 0 <= j < twice.len() && covers(#[trigger] twice[j]@, once[jx]@);
        assert(once.contains(twice[j]));
        let jy = choose|jy: int| 0 <= jy < once.len() && once[jy] == twice[j];
        if jy != jx {
            assert(covers(once[jy]@, once[jx]@));
            assert(false);
        }
        assert(twice[j] == x);
    }
}

/// Absorption: when subnet `b` is a strict sub-range of subnet `a`,
/// deduplicating the two of them keeps `a` alone.
pub proof fn lemma_deduplicate_absorption<T: ListNetwork>(a: T, b: T, out: Seq<T>)
    requires
        covers(a@, b@),
        !covers(b@, a@),
        minimal_cover(seq![a, b], out),
    ensures
        out =~= seq![a],
{
    let input = seq![a, b];
    assert(covered_by_some(out, input[0]));
    let j = choose|j: int| 0 <= j < out.len() && covers(#[trigger] out[j]@, input[0]@);
    assert(input.contains(out[j]));
    if out[j] == b {
        assert(covers(b@, a@));
        assert(false);
    }
    assert(out[j] == a);
    assert forall|k: int| 0 <= k < out.len() implies out[k] == a by {
        if out[k] != a {
            assert(input.contains(out[k]));
            assert(out[k] == b);
            assert(k != j);
            assert(covers(out[j]@, out[k]@));
            assert(false);
        }
    }
    if out.len() >= 2 {
        assert(covers(out[0]@, out[1]@)) by {
            assert(out[0] == a && out[1] == a);
            assert(path_of(a@).subrange(0, path_of(a@).len() as int) =~= path_of(a@));
        }
        assert(false);
    }
}

/// Non-loss of disjoint entries: when no input subnet covers another,
/// deduplication returns exactly the input subnets, in some order.
pub proof fn lemma_deduplicate_disjoint<T: ListNetwork>(input: Seq<T>, out: Seq<T>)
    requires
        minimal_cover(input, out),
        forall|i1: int, i2: int|
            0 <= i1 < input.len() && 0 <= i2 < input.len() && i1 != i2 ==> !covers(
                #[trigger] input[i1]@,
                #[trigger] input[i2]@,
            ),
    ensures
        forall|x: T| input.contains(x) <==> out.contains(x),
{
    assert forall|x: T| input.contains(x) implies out.contains(x) by {
        let i = choose|i: int| 0 <= i < input.len() && input[i] == x;
        assert(covered_by_some(out, input[i]));
        let j = choose|j: int| 0 <= j < out.len() && covers(#[trigger] out[j]@, input[i]@);
        assert(input.contains(out[j]));
        let k = choose|k: int| 0 <= k < input.len() && input[k] == out[j];
        if k != i {
            assert(covers(input[k]@, input[i]@));
            assert(false);
        }
        assert(out[j] == x);
    }
}

/// A subnet drawn from the already-processed part of a prefix-sorted
/// sequence has a prefix no longer than the next subnet's.
proof fn lemma_take_contains_prefix_le<T: ListNetwork>(sorted: Seq<T>, done: int, x: T)
    requires
        0 <= done < sorted.len(),
        forall|j1: int, j2: int|
            0 <= j1 <= j2 < sorted.len() ==> (#[trigger] sorted[j1]@.prefix) <= (
            #[trigger] sorted[j2]@.prefix),
        sorted.take(done).contains(x),
    ensures
        x@.prefix <= sorted[done]@.prefix,
{
    let idx = choose|idx: int| 0 <= idx < done && sorted.take(done)[idx] == x;
    assert(sorted[idx] == x);
}

/// Two subnets of one family with equal prefix lengths where one covers the
/// other have the very same path.
proof fn lemma_paths_equal<T: ListNetwork>(a: T, b: T)
    requires
        net_wf(a@),
        net_wf(b@),
        covers(b@, a@),
        a@.prefix <= b@.prefix,
    ensures
        path_of(a@) == path_of(b@),
{
    assert(path_of(b@).len() == b@.prefix);
    assert(path_of(a@).len() == a@.prefix);
    assert(path_of(a@) =~= path_of(b@));
}

} // verus!
