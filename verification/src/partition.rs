//! The static partition function that maps a key to the node that owns it.

use vstd::prelude::*;

verus! {

/// Number of consecutive keys that every node but the last one owns.
pub const KEYS_PER_NODE: u64 = 5;

/// The index of the node that owns `key` among `nodes` nodes: node `i` owns
/// the keys `5 * i .. 5 * i + 5`, and the last node owns every key from its
/// first one upwards. With no node known the index is 0.
pub open spec fn owner_index(key: int, nodes: int) -> int {
    if nodes <= 0 {
        0
    } else if key / 5 < nodes - 1 {
        key / 5
    } else {
        nodes - 1
    }
}

/// The owning node index of `key` in a cluster of `nodes` nodes.
///
/// The result depends on the two arguments alone, so every party that knows
/// the same node count routes a key to the same node.
pub fn owner(key: u64, nodes: u64) -> (index: u64)
    ensures
        index == owner_index(key as int, nodes as int),
        nodes > 0 ==> index < nodes,
{
    if nodes == 0 {
        return 0;
    }
    let block: u64 = key / KEYS_PER_NODE;
    if block < nodes - 1 {
        block
    } else {
        nodes - 1
    }
}

/// Node `index`, when it is not the last one, owns exactly the five keys of
/// its block.
pub proof fn lemma_owner_of_block(key: int, nodes: int, index: int)
    requires
        0 <= key,
        0 <= index < nodes - 1,
    ensures
        owner_index(key, nodes) == index <==> 5 * index <= key < 5 * index + 5,
{
}

/// The last node owns every key from the first key of its block upwards.
pub proof fn lemma_owner_of_tail(key: int, nodes: int)
    requires
        0 <= key,
        1 <= nodes,
    ensures
        owner_index(key, nodes) == nodes - 1 <==> 5 * (nodes - 1) <= key,
        0 <= owner_index(key, nodes) < nodes,
{
}

/// A larger key never belongs to an earlier node.
pub proof fn lemma_owner_monotone(low: int, high: int, nodes: int)
    requires
        0 <= low <= high,
    ensures
        owner_index(low, nodes) <= owner_index(high, nodes),
{
}

} // verus!
