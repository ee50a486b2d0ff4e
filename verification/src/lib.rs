use vstd::prelude::*;

pub mod vector;
pub mod ga;
pub mod gpu;
pub mod blocks;
pub mod chunk;
pub mod chunks;

verus! {

broadcast use vstd::std_specs::btree::group_btree_axioms, vstd::laws_cmp::group_laws_cmp;

} // verus!
