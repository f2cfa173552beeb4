//! The bonsai tree: a weight-balanced binary search tree map whose updates
//! rebuild the path from the changed node to the root, rebalancing each
//! rebuilt node by single or double rotations.
use vstd::prelude::*;

verus! {

/// A subtree is rebalanced when one side holds more than `WEIGHT` times the
/// nodes of the other.
pub const WEIGHT: usize = 2;

/// The tag bit that marks a retired spot in the concurrent tree.
pub const RETIRED_BIT: usize = 1;

/// The retired flag of a link tag.
pub struct Retired {
    pub bits: usize,
}

impl Retired {
    /// The flag set (`true`) or empty (`false`).
    pub fn new(retired: bool) -> (r: Retired)
        ensures
            r.bits == (if retired { RETIRED_BIT } else { 0 }),
    {
        if retired {
            Retired { bits: RETIRED_BIT }
        } else {
            Retired { bits: 0 }
        }
    }

    /// Whether the retired bit is set.
    pub fn retired(self) -> (b: bool)
        ensures
            b == (self.bits % 2 == 1),
    {
        let x = self.bits;
        assert(x & 1 == x % 2) by (bit_vector);
        (x & RETIRED_BIT) != 0
    }

    /// Whether a link tag marks a retired spot: only the retired bit of the tag
    /// is looked at.
    pub fn is_retired(tag: usize) -> (b: bool)
        ensures
            b == (tag % 2 == 1),
    {
        let flags = Retired { bits: tag & RETIRED_BIT };
        assert(tag & 1 == tag % 2) by (bit_vector);
        assert((tag % 2) % 2 == tag % 2);
        flags.retired()
    }
}

/// A node of the tree: a key, its value, the number of nodes of the subtree
/// rooted here, and the two children.
pub struct Node<V> {
    key: i64,
    value: V,
    size: usize,
    left: Option<Box<Node<V>>>,
    right: Option<Box<Node<V>>>,
}

/// The map that a subtree holds.
spec fn tmap<V>(t: Option<Box<Node<V>>>) -> Map<i64, V>
    decreases t,
{
    match t {
        None => Map::empty(),
        Some(n) => tmap(n.left).union_prefer_right(tmap(n.right)).insert(n.key, n.value),
    }
}

/// The node count that a subtree's root records.
spec fn tsize<V>(t: Option<Box<Node<V>>>) -> nat {
    match t {
        None => 0,
        Some(n) => n.size as nat,
    }
}

spec fn all_lt<V>(t: Option<Box<Node<V>>>, k: i64) -> bool {
    forall|x: i64| #[trigger] tmap(t).dom().contains(x) ==> x < k
}

spec fn all_gt<V>(t: Option<Box<Node<V>>>, k: i64) -> bool {
    forall|x: i64| #[trigger] tmap(t).dom().contains(x) ==> x > k
}

/// Search order and size bookkeeping hold at every node.
spec fn wf<V>(t: Option<Box<Node<V>>>) -> bool
    decreases t,
{
    match t {
        None => true,
        Some(n) => {
            &&& wf(n.left)
            &&& wf(n.right)
            &&& all_lt(n.left, n.key)
            &&& all_gt(n.right, n.key)
            &&& n.size == tsize(n.left) + tsize(n.right) + 1
        },
    }
}

/// The map of a node with subtrees `l` and `r`.
spec fn joined<V>(l: Map<i64, V>, k: i64, v: V, r: Map<i64, V>) -> Map<i64, V> {
    l.union_prefer_right(r).insert(k, v)
}

spec fn map_lt<V>(m: Map<i64, V>, k: i64) -> bool {
    forall|x: i64| #[trigger] m.dom().contains(x) ==> x < k
}

spec fn map_gt<V>(m: Map<i64, V>, k: i64) -> bool {
    forall|x: i64| #[trigger] m.dom().contains(x) ==> x > k
}

/// Rotating `a k1 (b k2 c)` into `(a k1 b) k2 c` keeps the map.
proof fn lemma_rotate<V>(a: Map<i64, V>, k1: i64, v1: V, b: Map<i64, V>, k2: i64, v2: V, c: Map<i64, V>)
    requires
        map_lt(a, k1),
        map_gt(b, k1),
        map_lt(b, k2),
        map_gt(c, k2),
        k1 < k2,
    ensures
        joined(joined(a, k1, v1, b), k2, v2, c) =~= joined(a, k1, v1, joined(b, k2, v2, c)),
{
    assert forall|x: i64| a.dom().contains(x) implies !c.dom().contains(x) && x != k2 by {
        if c.dom().contains(x) {
            assert(x > k2);
        }
    }
}

/// Rotating `a k1 ((b k2 c) k3 d)` into `(a k1 b) k2 (c k3 d)` keeps the map.
proof fn lemma_double_rotate<V>(
    a: Map<i64, V>,
    k1: i64,
    v1: V,
    b: Map<i64, V>,
    k2: i64,
    v2: V,
    c: Map<i64, V>,
    k3: i64,
    v3: V,
    d: Map<i64, V>,
)
    requires
        map_lt(a, k1),
        map_gt(b, k1),
        map_lt(b, k2),
        map_gt(c, k2),
        map_lt(c, k3),
        map_gt(d, k3),
        k1 < k2 < k3,
    ensures
        joined(joined(a, k1, v1, b), k2, v2, joined(c, k3, v3, d)) =~= joined(
            a,
            k1,
            v1,
            joined(joined(b, k2, v2, c), k3, v3, d),
        ),
{
    assert forall|x: i64| a.dom().contains(x) implies !c.dom().contains(x) && !d.dom().contains(x)
        && x != k2 && x != k3 by {
        if c.dom().contains(x) {
            assert(x > k2);
        }
        if d.dom().contains(x) {
            assert(x > k3);
        }
    }
    assert forall|x: i64| b.dom().contains(x) implies !c.dom().contains(x) && !d.dom().contains(x)
        && x != k3 by {
        if c.dom().contains(x) {
            assert(x > k2);
        }
        if d.dom().contains(x) {
            assert(x > k3);
        }
    }
}

fn node_size<V>(t: &Option<Box<Node<V>>>) -> (s: usize)
    ensures
        s == tsize(*t),
{
    match t {
        None => 0,
        Some(n) => n.size,
    }
}

/// A node over `left` and `right`, with the node count of both plus one.
fn mk_node<V>(left: Option<Box<Node<V>>>, right: Option<Box<Node<V>>>, key: i64, value: V) -> (r:
    Option<Box<Node<V>>>)
    requires
        wf(left),
        wf(right),
        all_lt(left, key),
        all_gt(right, key),
        tsize(left) + tsize(right) + 1 <= usize::MAX,
    ensures
        r is Some,
        wf(r),
        tsize(r) == tsize(left) + tsize(right) + 1,
        tmap(r) == joined(tmap(left), key, value, tmap(right)),
{
    let left_size = node_size(&left);
    let right_size = node_size(&right);
    Some(Box::new(Node { key, value, size: left_size + right_size + 1, left, right }))
}


/// The two children, key and value of a node, consuming it.
fn take_node<V>(t: Option<Box<Node<V>>>) -> (r: (Option<Box<Node<V>>>, Option<Box<Node<V>>>, i64, V))
    requires
        t is Some,
        wf(t),
    ensures
        wf(r.0),
        wf(r.1),
        all_lt(r.0, r.2),
        all_gt(r.1, r.2),
        tsize(t) == tsize(r.0) + tsize(r.1) + 1,
        tmap(t) == joined(tmap(r.0), r.2, r.3, tmap(r.1)),
{
    let n = *t.unwrap();
    let Node { key, value, size: _, left, right } = n;
    (left, right, key, value)
}

/// Single left rotation of `left key (right_left right_key right_right)`.
fn single_left<V>(
    left: Option<Box<Node<V>>>,
    right_left: Option<Box<Node<V>>>,
    right_right: Option<Box<Node<V>>>,
    right_key: i64,
    right_value: V,
    key: i64,
    value: V,
) -> (r: Option<Box<Node<V>>>)
    requires
        wf(left),
        wf(right_left),
        wf(right_right),
        all_lt(left, key),
        all_gt(right_left, key),
        all_lt(right_left, right_key),
        all_gt(right_right, right_key),
        key < right_key,
        tsize(left) + tsize(right_left) + tsize(right_right) + 2 <= usize::MAX,
    ensures
        wf(r),
        tsize(r) == tsize(left) + tsize(right_left) + tsize(right_right) + 2,
        tmap(r) == joined(
            tmap(left),
            key,
            value,
            joined(tmap(right_left), right_key, right_value, tmap(right_right)),
        ),
{
    proof {
        lemma_rotate(tmap(left), key, value, tmap(right_left), right_key, right_value, tmap(right_right));
    }
    let new_left = mk_node(left, right_left, key, value);
    assert(all_lt(new_left, right_key));
    mk_node(new_left, right_right, right_key, right_value)
}

/// Double left rotation of `left key ((rl_left rl_key rl_right) right_key right_right)`.
fn double_left<V>(
    left: Option<Box<Node<V>>>,
    rl_left: Option<Box<Node<V>>>,
    rl_right: Option<Box<Node<V>>>,
    rl_key: i64,
    rl_value: V,
    right_right: Option<Box<Node<V>>>,
    right_key: i64,
    right_value: V,
    key: i64,
    value: V,
) -> (r: Option<Box<Node<V>>>)
    requires
        wf(left),
        wf(rl_left),
        wf(rl_right),
        wf(right_right),
        all_lt(left, key),
        all_gt(rl_left, key),
        all_lt(rl_left, rl_key),
        all_gt(rl_right, rl_key),
        all_lt(rl_right, right_key),
        all_gt(right_right, right_key),
        key < rl_key < right_key,
        tsize(left) + tsize(rl_left) + tsize(rl_right) + tsize(right_right) + 3 <= usize::MAX,
    ensures
        wf(r),
        tsize(r) == tsize(left) + tsize(rl_left) + tsize(rl_right) + tsize(right_right) + 3,
        tmap(r) == joined(
            tmap(left),
            key,
            value,
            joined(joined(tmap(rl_left), rl_key, rl_value, tmap(rl_right)), right_key, right_value, tmap(right_right)),
        ),
{
    proof {
        lemma_double_rotate(
            tmap(left),
            key,
            value,
            tmap(rl_left),
            rl_key,
            rl_value,
            tmap(rl_right),
            right_key,
            right_value,
            tmap(right_right),
        );
    }
    let new_left = mk_node(left, rl_left, key, value);
    let new_right = mk_node(rl_right, right_right, right_key, right_value);
    assert(all_lt(new_left, rl_key));
    assert(all_gt(new_right, rl_key));
    mk_node(new_left, new_right, rl_key, rl_value)
}

/// Single right rotation of `(left_left left_key left_right) key right`.
fn single_right<V>(
    left_left: Option<Box<Node<V>>>,
    left_right: Option<Box<Node<V>>>,
    left_key: i64,
    left_value: V,
    right: Option<Box<Node<V>>>,
    key: i64,
    value: V,
) -> (r: Option<Box<Node<V>>>)
    requires
        wf(left_left),
        wf(left_right),
        wf(right),
        all_lt(left_left, left_key),
        all_gt(left_right, left_key),
        all_lt(left_right, key),
        all_gt(right, key),
        left_key < key,
        tsize(left_left) + tsize(left_right) + tsize(right) + 2 <= usize::MAX,
    ensures
        wf(r),
        tsize(r) == tsize(left_left) + tsize(left_right) + tsize(right) + 2,
        tmap(r) == joined(
            joined(tmap(left_left), left_key, left_value, tmap(left_right)),
            key,
            value,
            tmap(right),
        ),
{
    proof {
        lemma_rotate(tmap(left_left), left_key, left_value, tmap(left_right), key, value, tmap(right));
    }
    let new_right = mk_node(left_right, right, key, value);
    assert(all_gt(new_right, left_key));
    mk_node(left_left, new_right, left_key, left_value)
}

/// Double right rotation of `(left_left left_key (lr_left lr_key lr_right)) key right`.
fn double_right<V>(
    left_left: Option<Box<Node<V>>>,
    left_key: i64,
    left_value: V,
    lr_left: Option<Box<Node<V>>>,
    lr_right: Option<Box<Node<V>>>,
    lr_key: i64,
    lr_value: V,
    right: Option<Box<Node<V>>>,
    key: i64,
    value: V,
) -> (r: Option<Box<Node<V>>>)
    requires
        wf(left_left),
        wf(lr_left),
        wf(lr_right),
        wf(right),
        all_lt(left_left, left_key),
        all_gt(lr_left, left_key),
        all_lt(lr_left, lr_key),
        all_gt(lr_right, lr_key),
        all_lt(lr_right, key),
        all_gt(right, key),
        left_key < lr_key < key,
        tsize(left_left) + tsize(lr_left) + tsize(lr_right) + tsize(right) + 3 <= usize::MAX,
    ensures
        wf(r),
        tsize(r) == tsize(left_left) + tsize(lr_left) + tsize(lr_right) + tsize(right) + 3,
        tmap(r) == joined(
            joined(tmap(left_left), left_key, left_value, joined(tmap(lr_left), lr_key, lr_value, tmap(lr_right))),
            key,
            value,
            tmap(right),
        ),
{
    proof {
        lemma_double_rotate(
            tmap(left_left),
            left_key,
            left_value,
            tmap(lr_left),
            lr_key,
            lr_value,
            tmap(lr_right),
            key,
            value,
            tmap(right),
        );
    }
    let new_left = mk_node(left_left, lr_left, left_key, left_value);
    let new_right = mk_node(lr_right, right, key, value);
    assert(all_lt(new_left, lr_key));
    assert(all_gt(new_right, lr_key));
    mk_node(new_left, new_right, lr_key, lr_value)
}


/// Rebalances a node whose right side is too heavy: a single left rotation
/// where the right child's right side holds more nodes than its left side,
/// otherwise a double left rotation.
fn mk_balanced_left<V>(left: Option<Box<Node<V>>>, right: Option<Box<Node<V>>>, key: i64, value: V) -> (r:
    Option<Box<Node<V>>>)
    requires
        wf(left),
        wf(right),
        all_lt(left, key),
        all_gt(right, key),
        tsize(right) >= 2,
        tsize(left) + tsize(right) + 1 <= usize::MAX,
    ensures
        wf(r),
        tsize(r) == tsize(left) + tsize(right) + 1,
        tmap(r) == joined(tmap(left), key, value, tmap(right)),
{
    let ghost whole = tmap(right);
    let (right_left, right_right, right_key, right_value) = take_node(right);
    assert(whole.dom().contains(right_key));
    assert forall|x: i64| #[trigger] tmap(right_left).dom().contains(x) implies x > key by {
        assert(whole.dom().contains(x));
    }
    if node_size(&right_left) < node_size(&right_right) {
        return single_left(left, right_left, right_right, right_key, right_value, key, value);
    }
    let ghost middle = tmap(right_left);
    let (rl_left, rl_right, rl_key, rl_value) = take_node(right_left);
    assert(middle.dom().contains(rl_key));
    assert forall|x: i64| #[trigger] tmap(rl_left).dom().contains(x) implies x > key by {
        assert(middle.dom().contains(x));
    }
    assert forall|x: i64| #[trigger] tmap(rl_right).dom().contains(x) implies x < right_key by {
        assert(middle.dom().contains(x));
    }
    double_left(
        left,
        rl_left,
        rl_right,
        rl_key,
        rl_value,
        right_right,
        right_key,
        right_value,
        key,
        value,
    )
}

/// Rebalances a node whose left side is too heavy: a single right rotation
/// where the left child's left side holds more nodes than its right side,
/// otherwise a double right rotation.
fn mk_balanced_right<V>(left: Option<Box<Node<V>>>, right: Option<Box<Node<V>>>, key: i64, value: V) -> (r:
    Option<Box<Node<V>>>)
    requires
        wf(left),
        wf(right),
        all_lt(left, key),
        all_gt(right, key),
        tsize(left) >= 2,
        tsize(left) + tsize(right) + 1 <= usize::MAX,
    ensures
        wf(r),
        tsize(r) == tsize(left) + tsize(right) + 1,
        tmap(r) == joined(tmap(left), key, value, tmap(right)),
{
    let ghost whole = tmap(left);
    let (left_left, left_right, left_key, left_value) = take_node(left);
    assert(whole.dom().contains(left_key));
    assert forall|x: i64| #[trigger] tmap(left_right).dom().contains(x) implies x < key by {
        assert(whole.dom().contains(x));
    }
    if node_size(&left_right) < node_size(&left_left) {
        return single_right(left_left, left_right, left_key, left_value, right, key, value);
    }
    let ghost middle = tmap(left_right);
    let (lr_left, lr_right, lr_key, lr_value) = take_node(left_right);
    assert(middle.dom().contains(lr_key));
    assert forall|x: i64| #[trigger] tmap(lr_right).dom().contains(x) implies x < key by {
        assert(middle.dom().contains(x));
    }
    assert forall|x: i64| #[trigger] tmap(lr_left).dom().contains(x) implies x > left_key by {
        assert(middle.dom().contains(x));
    }
    double_right(
        left_left,
        left_key,
        left_value,
        lr_left,
        lr_right,
        lr_key,
        lr_value,
        right,
        key,
        value,
    )
}

/// Whether a side holding `heavy` nodes outweighs a side holding `light`
/// ones: `heavy > WEIGHT * light`, or `heavy > WEIGHT` against an empty side.
pub open spec fn outweighs(heavy: nat, light: nat) -> bool {
    heavy > 0 && ((light > 0 && heavy > WEIGHT * light) || (light == 0 && heavy > WEIGHT))
}

fn outweighs_exec(heavy: usize, light: usize) -> (b: bool)
    ensures
        b == outweighs(heavy as nat, light as nat),
{
    heavy > 0 && ((light > 0 && light <= heavy && heavy - light > light) || (light == 0 && heavy
        > WEIGHT))
}

/// A node over `left` and `right`, rebalanced where one side outweighs the
/// other.
fn mk_balanced<V>(key: i64, value: V, left: Option<Box<Node<V>>>, right: Option<Box<Node<V>>>) -> (r:
    Option<Box<Node<V>>>)
    requires
        wf(left),
        wf(right),
        all_lt(left, key),
        all_gt(right, key),
        tsize(left) + tsize(right) + 1 <= usize::MAX,
    ensures
        r is Some,
        wf(r),
        tsize(r) == tsize(left) + tsize(right) + 1,
        tmap(r) == joined(tmap(left), key, value, tmap(right)),
{
    let l_size = node_size(&left);
    let r_size = node_size(&right);
    if outweighs_exec(r_size, l_size) {
        let r = mk_balanced_left(left, right, key, value);
        proof {
            lemma_nonempty(r);
        }
        r
    } else if outweighs_exec(l_size, r_size) {
        let r = mk_balanced_right(left, right, key, value);
        proof {
            lemma_nonempty(r);
        }
        r
    } else {
        mk_node(left, right, key, value)
    }
}

/// A well-formed subtree with nodes is not empty.
proof fn lemma_nonempty<V>(t: Option<Box<Node<V>>>)
    requires
        wf(t),
    ensures
        t is None <==> tsize(t) == 0,
        t is None ==> tmap(t) == Map::<i64, V>::empty(),
{
}


/// Inserts `key` with `value` below `node` where the key is absent; a present
/// key keeps its value. The second result says whether the key was inserted.
fn do_insert<V>(node: Option<Box<Node<V>>>, key: i64, value: V) -> (r: (Option<Box<Node<V>>>, bool))
    requires
        wf(node),
        tsize(node) < usize::MAX,
    ensures
        wf(r.0),
        r.1 == !tmap(node).dom().contains(key),
        tmap(r.0) == tmap(node).insert(key, value) || (!r.1 && tmap(r.0) == tmap(node)),
        r.1 ==> tmap(r.0) == tmap(node).insert(key, value) && tsize(r.0) == tsize(node) + 1,
        !r.1 ==> tmap(r.0) == tmap(node) && tsize(r.0) == tsize(node),
    decreases tsize(node),
{
    if node.is_none() {
        return (mk_node(None, None, key, value), true);
    }
    let ghost whole = tmap(node);
    let (left, right, node_key, node_value) = take_node(node);
    if node_key == key {
        let r = mk_balanced(node_key, node_value, left, right);
        assert(whole.dom().contains(key));
        return (r, false);
    } else if node_key < key {
        assert(!tmap(left).dom().contains(key));
        let (new_right, inserted) = do_insert(right, key, value);
        proof {
            assert forall|x: i64| #[trigger] tmap(new_right).dom().contains(x) implies x > node_key by {
                if x != key {
                    assert(tmap(right).dom().contains(x));
                }
            }
            if inserted {
                assert(joined(tmap(left), node_key, node_value, tmap(new_right)) =~= whole.insert(key, value));
            }
        }
        (mk_balanced(node_key, node_value, left, new_right), inserted)
    } else {
        assert(!tmap(right).dom().contains(key));
        let (new_left, inserted) = do_insert(left, key, value);
        proof {
            assert forall|x: i64| #[trigger] tmap(new_left).dom().contains(x) implies x < node_key by {
                if x != key {
                    assert(tmap(left).dom().contains(x));
                }
            }
            if inserted {
                assert(joined(tmap(new_left), node_key, node_value, tmap(right)) =~= whole.insert(key, value));
            }
        }
        (mk_balanced(node_key, node_value, new_left, right), inserted)
    }
}

/// Removes the node with the smallest key below `node`; returns the rest and
/// that key with its value.
fn pull_leftmost<V>(node: Option<Box<Node<V>>>) -> (r: (Option<Box<Node<V>>>, (i64, V)))
    requires
        node is Some,
        wf(node),
    ensures
        wf(r.0),
        tmap(node).dom().contains(r.1.0),
        tmap(node)[r.1.0] == r.1.1,
        tmap(r.0) == tmap(node).remove(r.1.0),
        forall|x: i64| #[trigger] tmap(node).dom().contains(x) ==> r.1.0 <= x,
        tsize(r.0) + 1 == tsize(node),
    decreases tsize(node),
{
    let ghost whole = tmap(node);
    let (left, right, key, value) = take_node(node);
    if left.is_some() {
        let (new_left, succ) = pull_leftmost(left);
        let ghost sk = succ.0;
        proof {
            assert(!tmap(right).dom().contains(sk));
            assert forall|x: i64| #[trigger] tmap(new_left).dom().contains(x) implies x < key by {
                assert(tmap(left).dom().contains(x));
            }
            assert(joined(tmap(new_left), key, value, tmap(right)) =~= whole.remove(sk));
            assert forall|x: i64| #[trigger] whole.dom().contains(x) implies sk <= x by {
                if tmap(right).dom().contains(x) {
                    assert(x > key);
                } else if x != key {
                    assert(tmap(left).dom().contains(x));
                }
            }
        }
        (mk_balanced(key, value, new_left, right), succ)
    } else {
        proof {
            lemma_nonempty(left);
            assert(tmap(right) =~= whole.remove(key));
        }
        (right, (key, value))
    }
}

/// Removes the node with the largest key below `node`; returns the rest and
/// that key with its value.
fn pull_rightmost<V>(node: Option<Box<Node<V>>>) -> (r: (Option<Box<Node<V>>>, (i64, V)))
    requires
        node is Some,
        wf(node),
    ensures
        wf(r.0),
        tmap(node).dom().contains(r.1.0),
        tmap(node)[r.1.0] == r.1.1,
        tmap(r.0) == tmap(node).remove(r.1.0),
        forall|x: i64| #[trigger] tmap(node).dom().contains(x) ==> x <= r.1.0,
        tsize(r.0) + 1 == tsize(node),
    decreases tsize(node),
{
    let ghost whole = tmap(node);
    let (left, right, key, value) = take_node(node);
    if right.is_some() {
        let (new_right, succ) = pull_rightmost(right);
        let ghost sk = succ.0;
        proof {
            assert(!tmap(left).dom().contains(sk));
            assert forall|x: i64| #[trigger] tmap(new_right).dom().contains(x) implies x > key by {
                assert(tmap(right).dom().contains(x));
            }
            assert(joined(tmap(left), key, value, tmap(new_right)) =~= whole.remove(sk));
            assert forall|x: i64| #[trigger] whole.dom().contains(x) implies x <= sk by {
                if tmap(left).dom().contains(x) {
                    assert(x < key);
                } else if x != key {
                    assert(tmap(right).dom().contains(x));
                }
            }
        }
        (mk_balanced(key, value, left, new_right), succ)
    } else {
        proof {
            lemma_nonempty(right);
            assert(tmap(left) =~= whole.remove(key));
        }
        (left, (key, value))
    }
}

/// Removes `key` below `node`; the second result is the value it held.
fn do_remove<V>(node: Option<Box<Node<V>>>, key: i64) -> (r: (Option<Box<Node<V>>>, Option<V>))
    requires
        wf(node),
    ensures
        wf(r.0),
        tmap(r.0) == tmap(node).remove(key),
        r.1 == (if tmap(node).dom().contains(key) { Some(tmap(node)[key]) } else { None }),
        tsize(r.0) == (if tmap(node).dom().contains(key) { tsize(node) - 1 } else { tsize(node) as int }),
    decreases tsize(node),
{
    if node.is_none() {
        proof {
            assert(tmap(node) =~= tmap(node).remove(key));
        }
        return (None, None);
    }
    let ghost whole = tmap(node);
    let (left, right, node_key, node_value) = take_node(node);
    if node_key == key {
        proof {
            assert(!tmap(left).dom().contains(key));
            assert(!tmap(right).dom().contains(key));
        }
        if left.is_none() && right.is_none() {
            proof {
                lemma_nonempty(left);
                lemma_nonempty(right);
                assert(whole.remove(key) =~= Map::<i64, V>::empty());
            }
            return (None, Some(node_value));
        }
        if left.is_some() {
            let (new_left, succ) = pull_rightmost(left);
            let (sk, sv) = succ;
            proof {
                assert forall|x: i64| #[trigger] tmap(right).dom().contains(x) implies x > sk by {
                    assert(sk < key);
                }
                assert forall|x: i64| #[trigger] tmap(new_left).dom().contains(x) implies x < sk by {
                    assert(tmap(left).dom().contains(x));
                }
                assert(joined(tmap(new_left), sk, sv, tmap(right)) =~= whole.remove(key));
            }
            return (mk_balanced(sk, sv, new_left, right), Some(node_value));
        }
        proof {
            lemma_nonempty(left);
        }
        let (new_right, succ) = pull_leftmost(right);
        let (sk, sv) = succ;
        proof {
            assert forall|x: i64| #[trigger] tmap(new_right).dom().contains(x) implies x > sk by {
                assert(tmap(right).dom().contains(x));
            }
            assert(joined(tmap(left), sk, sv, tmap(new_right)) =~= whole.remove(key));
        }
        (mk_balanced(sk, sv, left, new_right), Some(node_value))
    } else if node_key < key {
        assert(!tmap(left).dom().contains(key));
        let (new_right, found) = do_remove(right, key);
        proof {
            assert forall|x: i64| #[trigger] tmap(new_right).dom().contains(x) implies x > node_key by {
                assert(tmap(right).dom().contains(x));
            }
            assert(joined(tmap(left), node_key, node_value, tmap(new_right)) =~= whole.remove(key));
        }
        (mk_balanced(node_key, node_value, left, new_right), found)
    } else {
        assert(!tmap(right).dom().contains(key));
        let (new_left, found) = do_remove(left, key);
        proof {
            assert forall|x: i64| #[trigger] tmap(new_left).dom().contains(x) implies x < node_key by {
                assert(tmap(left).dom().contains(x));
            }
            assert(joined(tmap(new_left), node_key, node_value, tmap(right)) =~= whole.remove(key));
        }
        (mk_balanced(node_key, node_value, new_left, right), found)
    }
}


/// The map after `insert(key, value)`: a new key is added with the value, a
/// present key keeps its value.
pub open spec fn after_insert<V>(m: Map<i64, V>, key: i64, value: V) -> Map<i64, V> {
    if m.dom().contains(key) { m } else { m.insert(key, value) }
}

/// A map from `i64` keys to values, kept in a weight-balanced search tree.
pub struct BonsaiTreeMap<V> {
    root: Option<Box<Node<V>>>,
}

impl<V> View for BonsaiTreeMap<V> {
    type V = Map<i64, V>;

    closed spec fn view(&self) -> Map<i64, V> {
        tmap(self.root)
    }
}

impl<V> BonsaiTreeMap<V> {
    /// The tree is well formed: keys ordered, node counts right. Every tree
    /// is: it is the type's invariant.
    #[verifier::type_invariant]
    pub closed spec fn well_formed(&self) -> bool {
        wf(self.root)
    }

    /// The number of nodes of the tree.
    pub closed spec fn node_count(&self) -> nat {
        tsize(self.root)
    }

    /// An empty map.
    pub fn new() -> (r: BonsaiTreeMap<V>)
        ensures
            r@ == Map::<i64, V>::empty(),
            r.node_count() == 0,
    {
        BonsaiTreeMap { root: None }
    }

    /// The value under `key`, if any.
    pub fn get(&self, key: i64) -> (r: Option<&V>)
        ensures
            r == (if self@.dom().contains(key) { Some(&self@[key]) } else { None }),
    {
        proof {
            use_type_invariant(self);
        }
        let mut node: &Option<Box<Node<V>>> = &self.root;
        loop
            invariant
                wf(*node),
                self@.dom().contains(key) == tmap(*node).dom().contains(key),
                self@.dom().contains(key) ==> self@[key] == tmap(*node)[key],
            decreases tsize(*node),
        {
            match node {
                None => {
                    return None;
                },
                Some(n) => {
                    if key == n.key {
                        return Some(&n.value);
                    } else if key < n.key {
                        assert(!tmap(n.right).dom().contains(key));
                        node = &n.left;
                    } else {
                        assert(!tmap(n.left).dom().contains(key));
                        node = &n.right;
                    }
                },
            }
        }
    }

    /// Inserts `key` with `value` where the key is absent and returns `true`;
    /// a present key keeps its value and `false` is returned.
    pub fn insert(&mut self, key: i64, value: V) -> (inserted: bool)
        requires
            old(self).node_count() < usize::MAX,
        ensures
            inserted == !old(self)@.dom().contains(key),
            final(self)@ == after_insert(old(self)@, key, value),
            final(self).node_count() == (if inserted {
                old(self).node_count() + 1
            } else {
                old(self).node_count()
            }),
    {
        proof {
            use_type_invariant(&*self);
        }
        let mut root = None;
        std::mem::swap(&mut root, &mut self.root);
        let (new_root, inserted) = do_insert(root, key, value);
        self.root = new_root;
        inserted
    }

    /// Removes `key`; returns the value it held.
    pub fn remove(&mut self, key: i64) -> (removed: Option<V>)
        ensures
            final(self)@ == old(self)@.remove(key),
            removed == (if old(self)@.dom().contains(key) { Some(old(self)@[key]) } else { None }),
            final(self).node_count() == (if old(self)@.dom().contains(key) {
                old(self).node_count() - 1
            } else {
                old(self).node_count() as int
            }),
    {
        proof {
            use_type_invariant(&*self);
        }
        let mut root = None;
        std::mem::swap(&mut root, &mut self.root);
        let (new_root, removed) = do_remove(root, key);
        self.root = new_root;
        removed
    }
}

proof fn lemma_size_counts_keys<V>(t: Option<Box<Node<V>>>)
    requires
        wf(t),
    ensures
        tmap(t).dom().finite(),
        tmap(t).dom().len() == tsize(t),
    decreases t,
{
    match t {
        None => {},
        Some(n) => {
            lemma_size_counts_keys(n.left);
            lemma_size_counts_keys(n.right);
            let l = tmap(n.left).dom();
            let r = tmap(n.right).dom();
            assert(l.disjoint(r)) by {
                assert forall|x: i64| l.contains(x) implies !r.contains(x) by {
                    assert(x < n.key);
                }
            }
            vstd::set_lib::lemma_set_disjoint_lens(l, r);
            assert(tmap(n.left).union_prefer_right(tmap(n.right)).dom() =~= l + r);
            assert(!(l + r).contains(n.key)) by {
                if l.contains(n.key) {
                    assert(n.key < n.key);
                }
                if r.contains(n.key) {
                    assert(n.key > n.key);
                }
            }
        },
    }
}

impl<V> BonsaiTreeMap<V> {
    /// The tree holds one node per key: its node count is the number of keys
    /// of the map.
    pub proof fn law_node_count_is_key_count(&self)
        requires
            self.well_formed(),
        ensures
            self@.dom().finite(),
            self@.dom().len() == self.node_count(),
    {
        lemma_size_counts_keys(self.root);
    }
}

/// After an insert the key is present, with the given value where it was new
/// and its former value where it was present; no other key changes.
pub proof fn law_insert_then_get<V>(m: Map<i64, V>, key: i64, value: V, other: i64)
    ensures
        after_insert(m, key, value).dom().contains(key),
        after_insert(m, key, value)[key] == (if m.dom().contains(key) { m[key] } else { value }),
        other != key ==> after_insert(m, key, value).dom().contains(other) == m.dom().contains(other),
        other != key && m.dom().contains(other) ==> after_insert(m, key, value)[other] == m[other],
{
}

/// Removing a key that an insert added gives back the map before the insert.
pub proof fn law_remove_undoes_insert<V>(m: Map<i64, V>, key: i64, value: V)
    requires
        !m.dom().contains(key),
    ensures
        after_insert(m, key, value).remove(key) == m,
{
    assert(after_insert(m, key, value).remove(key) =~= m);
}

/// After a remove the key is absent and no other key changes.
pub proof fn law_remove_then_get<V>(m: Map<i64, V>, key: i64, other: i64)
    ensures
        !m.remove(key).dom().contains(key),
        other != key ==> m.remove(key).dom().contains(other) == m.dom().contains(other),
        other != key && m.dom().contains(other) ==> m.remove(key)[other] == m[other],
{
}

} // verus!
