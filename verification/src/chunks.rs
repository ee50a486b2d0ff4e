use vstd::prelude::*;

use crate::vector::Vector3;
use std::collections::{BTreeMap, BTreeSet};

pub mod render_chunk;

verus! {

/// The edge length of a chunk, in blocks.
pub const CHUNK_SIZE: u64 = 16;

/// The number of blocks in a chunk.
pub const CHUNK_VOLUME: usize = 4096;

/// The six axis-aligned directions a block face can point in.
#[derive(Debug, Clone, Copy, PartialEq, Eq)]
pub enum Direction {
    PositiveX,
    NegativeX,
    PositiveY,
    NegativeY,
    PositiveZ,
    NegativeZ,
}

/// The kinds of block a chunk is made of.
#[derive(Debug, Clone, Copy, PartialEq, Eq)]
pub enum Block {
    Air,
    Red,
    Green,
    Blue,
}

impl Block {
    /// Whether the block is anything but air.
    pub open spec fn is_solid(self) -> bool {
        !(self is Air)
    }

    /// Whether the block hides what lies behind it when seen from `direction`.
    /// Every block but air is solid in all directions.
    #[allow(unused_variables)]
    pub fn soild_in_direction(&self, direction: Direction) -> (r: bool)
        ensures
            r == self.is_solid(),
    {
        match *self {
            Block::Air => false,
            Block::Red | Block::Green | Block::Blue => true,
        }
    }
}

/// Whether a position lies inside a chunk.
pub open spec fn in_chunk(p: Vector3<u64>) -> bool {
    p.x < CHUNK_SIZE && p.y < CHUNK_SIZE && p.z < CHUNK_SIZE
}

/// Where the block at `p` is stored: x varies fastest, then y, then z.
pub open spec fn block_index(p: Vector3<u64>) -> int {
    p.x + p.y * 16 + p.z * 256
}

/// The position whose block is stored at index `i`.
pub open spec fn index_position(i: int) -> Vector3<u64> {
    Vector3 { x: (i % 16) as u64, y: ((i / 16) % 16) as u64, z: (i / 256) as u64 }
}

/// The storage index and the position of a block determine each other.
pub proof fn lemma_index_roundtrip()
    ensures
        forall|p: Vector3<u64>|
            #![trigger block_index(p)]
            in_chunk(p) ==> 0 <= block_index(p) < CHUNK_VOLUME && index_position(block_index(p)) == p,
        forall|i: int|
            #![trigger index_position(i)]
            0 <= i < CHUNK_VOLUME ==> in_chunk(index_position(i)) && block_index(index_position(i)) == i,
{
    assert forall|p: Vector3<u64>| #![trigger block_index(p)] in_chunk(p) implies
        0 <= block_index(p) < CHUNK_VOLUME && index_position(block_index(p)) == p by {
        let i = block_index(p);
        assert(i % 16 == p.x && i / 16 == p.y + p.z * 16) by (nonlinear_arith)
            requires i == p.x + p.y * 16 + p.z * 256, p.x < 16;
        let j = p.y + p.z * 16;
        assert(j % 16 == p.y && j / 16 == p.z) by (nonlinear_arith)
            requires j == p.y + p.z * 16, p.y < 16;
        assert(i / 256 == p.z) by (nonlinear_arith)
            requires i == p.x + p.y * 16 + p.z * 256, p.x < 16, p.y < 16;
    }
    assert forall|i: int| #![trigger index_position(i)] 0 <= i < CHUNK_VOLUME implies
        in_chunk(index_position(i)) && block_index(index_position(i)) == i by {
        assert(i == i % 16 + ((i / 16) % 16) * 16 + (i / 256) * 256 && i / 256 < 16) by (nonlinear_arith)
            requires 0 <= i < 4096;
    }
}

/// A cube of blocks, `CHUNK_SIZE` on each side.
pub struct Chunk {
    blocks: Vec<Block>,
}

impl Chunk {
    #[verifier::type_invariant]
    spec fn wf(self) -> bool {
        self.blocks.len() == CHUNK_VOLUME
    }

    /// The blocks of the chunk, in storage order (see `block_index`).
    pub closed spec fn view(&self) -> Seq<Block> {
        self.blocks@
    }

    /// The block at a position inside the chunk.
    pub open spec fn block_at(&self, p: Vector3<u64>) -> Block {
        self@[block_index(p)]
    }

    /// Builds a chunk whose block at each position is what `f` gives for that position.
    pub fn with(f: impl Fn(Vector3<u64>) -> Block) -> (r: Self)
        requires
            forall|p: Vector3<u64>| in_chunk(p) ==> call_requires(f, (p,)),
        ensures
            r@.len() == CHUNK_VOLUME,
            forall|p: Vector3<u64>| #![trigger r.block_at(p)] in_chunk(p) ==> call_ensures(f, (p,), r.block_at(p)),
    {
        proof { lemma_index_roundtrip(); }
        let mut blocks: Vec<Block> = Vec::new();
        let mut index: usize = 0;
        while index < CHUNK_VOLUME
            invariant
                index <= CHUNK_VOLUME,
                blocks.len() == index,
                forall|p: Vector3<u64>| in_chunk(p) ==> call_requires(f, (p,)),
                forall|j: int| 0 <= j < index ==> call_ensures(f, (#[trigger] index_position(j),), blocks@[j]),
                forall|i: int|
                    #![trigger index_position(i)]
                    0 <= i < CHUNK_VOLUME ==> in_chunk(index_position(i)) && block_index(index_position(i)) == i,
            decreases CHUNK_VOLUME - index,
        {
            let x = index % 16;
            let y = (index / 16) % 16;
            let z = index / 256;
            let position = Vector3 { x: x as u64, y: y as u64, z: z as u64 };
            assert(position == index_position(index as int));
            let block = f(position);
            blocks.push(block);
            index = index + 1;
        }
        let r = Chunk { blocks };
        assert forall|p: Vector3<u64>| #![trigger r.block_at(p)] in_chunk(p) implies call_ensures(f, (p,), r.block_at(p)) by {
            let j = block_index(p);
            assert(index_position(j) == p);
        }
        r
    }

    /// Builds a chunk made entirely of `block`.
    pub fn filled(block: Block) -> (r: Self)
        ensures
            r@.len() == CHUNK_VOLUME,
            forall|p: Vector3<u64>| #![trigger r.block_at(p)] in_chunk(p) ==> r.block_at(p) == block,
    {
        Self::with(|_p: Vector3<u64>| -> (b: Block) ensures b == block { block })
    }

    /// The block at `position`, or `None` when the position lies outside the chunk.
    pub fn get_block(&self, position: Vector3<u64>) -> (r: Option<&Block>)
        ensures
            self@.len() == CHUNK_VOLUME,
            r is Some <==> in_chunk(position),
            r matches Some(b) ==> *b == self.block_at(position),
    {
        proof { use_type_invariant(self); }
        if position.x < CHUNK_SIZE && position.y < CHUNK_SIZE && position.z < CHUNK_SIZE {
            Some(&self.blocks[(position.x + position.y * CHUNK_SIZE + position.z * (CHUNK_SIZE * CHUNK_SIZE)) as usize])
        } else {
            None
        }
    }

    /// A mutable reference to the block at `position`, or `None` when the position lies
    /// outside the chunk. Writing through the reference changes that block and no other.
    pub fn get_block_mut(&mut self, position: Vector3<u64>) -> (r: Option<&mut Block>)
        ensures
            old(self)@.len() == CHUNK_VOLUME,
            final(self)@.len() == CHUNK_VOLUME,
            r is Some <==> in_chunk(position),
            r matches Some(b) ==> *b == old(self).block_at(position)
                && final(self)@ == old(self)@.update(block_index(position), *final(b)),
            r is None ==> final(self)@ == old(self)@,
    {
        proof { use_type_invariant(&*self); }
        if position.x < CHUNK_SIZE && position.y < CHUNK_SIZE && position.z < CHUNK_SIZE {
            Some(&mut self.blocks[(position.x + position.y * CHUNK_SIZE + position.z * (CHUNK_SIZE * CHUNK_SIZE)) as usize])
        } else {
            None
        }
    }
}


/// The key under which a chunk is stored: its chunk coordinates.
pub type ChunkKey = (i64, i64, i64);

/// The largest magnitude a stored chunk coordinate may have; it leaves room for
/// neighbours and distances to be computed without overflow.
pub open spec fn coordinate_bound() -> int {
    0x1000_0000_0000_0000
}

/// Whether every coordinate of a chunk key lies within `coordinate_bound`.
pub open spec fn key_bounded(k: ChunkKey) -> bool {
    -coordinate_bound() <= k.0 <= coordinate_bound()
        && -coordinate_bound() <= k.1 <= coordinate_bound()
        && -coordinate_bound() <= k.2 <= coordinate_bound()
}

/// The key of the chunk that holds the block at world position `p`.
pub open spec fn chunk_key(p: Vector3<i64>) -> ChunkKey {
    ((p.x / 16) as i64, (p.y / 16) as i64, (p.z / 16) as i64)
}

/// The position of the world block `p` inside its chunk.
pub open spec fn local_position(p: Vector3<i64>) -> Vector3<u64> {
    Vector3 { x: (p.x % 16) as u64, y: (p.y % 16) as u64, z: (p.z % 16) as u64 }
}

/// The block at world position `p` among loaded chunks `loaded`, if its chunk is loaded.
pub open spec fn world_block(loaded: Map<ChunkKey, Seq<Block>>, p: Vector3<i64>) -> Option<Block> {
    if loaded.contains_key(chunk_key(p)) {
        Some(loaded[chunk_key(p)][block_index(local_position(p))])
    } else {
        None
    }
}

/// A world coordinate is its chunk coordinate times the chunk size plus its offset in
/// the chunk, and the offset lies inside the chunk.
pub proof fn lemma_world_split(p: Vector3<i64>)
    ensures
        p.x == chunk_key(p).0 * 16 + local_position(p).x,
        p.y == chunk_key(p).1 * 16 + local_position(p).y,
        p.z == chunk_key(p).2 * 16 + local_position(p).z,
        in_chunk(local_position(p)),
{
    assert(p.x == (p.x / 16) * 16 + p.x % 16 && 0 <= p.x % 16 < 16) by (nonlinear_arith);
    assert(p.y == (p.y / 16) * 16 + p.y % 16 && 0 <= p.y % 16 < 16) by (nonlinear_arith);
    assert(p.z == (p.z / 16) * 16 + p.z % 16 && 0 <= p.z % 16 < 16) by (nonlinear_arith);
    assert(-0x0800_0000_0000_0000 <= p.x / 16 < 0x0800_0000_0000_0000) by (nonlinear_arith)
        requires i64::MIN <= p.x <= i64::MAX;
    assert(-0x0800_0000_0000_0000 <= p.y / 16 < 0x0800_0000_0000_0000) by (nonlinear_arith)
        requires i64::MIN <= p.y <= i64::MAX;
    assert(-0x0800_0000_0000_0000 <= p.z / 16 < 0x0800_0000_0000_0000) by (nonlinear_arith)
        requires i64::MIN <= p.z <= i64::MAX;
}

/// Writing a block of a chunk changes what a read of that position gives, and nothing else.
pub proof fn lemma_chunk_write_read(blocks: Seq<Block>, p: Vector3<u64>, q: Vector3<u64>, b: Block)
    requires
        blocks.len() == CHUNK_VOLUME,
        in_chunk(p),
        in_chunk(q),
    ensures
        blocks.update(block_index(p), b)[block_index(q)] == if p == q { b } else { blocks[block_index(q)] },
{
    lemma_index_roundtrip();
    if p != q {
        assert(index_position(block_index(p)) == p);
        assert(index_position(block_index(q)) == q);
    }
}

/// Writing the block at world position `p` of a loaded chunk changes what a read of `p`
/// gives, and what a read of every other world position gives stays as it was.
pub proof fn lemma_world_write_read(loaded: Map<ChunkKey, Seq<Block>>, p: Vector3<i64>, q: Vector3<i64>, b: Block)
    requires
        loaded.contains_key(chunk_key(p)),
        forall|k: ChunkKey| #[trigger] loaded.contains_key(k) ==> loaded[k].len() == CHUNK_VOLUME,
    ensures
        world_block(
            loaded.insert(chunk_key(p), loaded[chunk_key(p)].update(block_index(local_position(p)), b)),
            q,
        ) == if p == q { Some(b) } else { world_block(loaded, q) },
{
    lemma_world_split(p);
    lemma_world_split(q);
    if chunk_key(p) == chunk_key(q) {
        lemma_chunk_write_read(loaded[chunk_key(p)], local_position(p), local_position(q), b);
        if p != q {
            assert(local_position(p) != local_position(q));
        }
    }
}

/// The key of a chunk given by its coordinates as a vector.
pub open spec fn key_of(p: Vector3<i64>) -> ChunkKey {
    (p.x, p.y, p.z)
}

/// Splits a world coordinate into its chunk coordinate and its offset inside the chunk.
fn split_coordinate(c: i64) -> (r: (i64, u64))
    ensures
        r.0 == c / 16,
        r.1 == c % 16,
        r.1 < 16,
        -0x0800_0000_0000_0000 <= r.0 < 0x0800_0000_0000_0000,
{
    let chunk = match c.checked_div_euclid(16) {
        Some(q) => q,
        None => 0,
    };
    let offset = match c.checked_rem_euclid(16) {
        Some(m) => m as u64,
        None => 0,
    };
    assert(-0x0800_0000_0000_0000 <= c / 16 < 0x0800_0000_0000_0000) by (nonlinear_arith)
        requires i64::MIN <= c <= i64::MAX;
    (chunk, offset)
}

/// The absolute value of an integer.
pub open spec fn abs(v: int) -> int {
    if v < 0 { -v } else { v }
}

/// The Manhattan distance between two chunk keys.
pub open spec fn manhattan(k: ChunkKey, c: ChunkKey) -> int {
    abs(k.0 - c.0) + abs(k.1 - c.1) + abs(k.2 - c.2)
}

/// The Manhattan distance counts every step along every axis: a chunk is at distance
/// zero from itself, the distance is symmetric, and each step one chunk farther from `c`
/// along any axis, however far out, adds exactly one.
pub proof fn lemma_manhattan_steps(k: ChunkKey, c: ChunkKey)
    ensures
        manhattan(c, c) == 0,
        manhattan(k, c) == manhattan(c, k),
        k.0 >= c.0 && k.0 < i64::MAX ==> manhattan(((k.0 + 1) as i64, k.1, k.2), c) == manhattan(k, c) + 1,
        k.0 <= c.0 && k.0 > i64::MIN ==> manhattan(((k.0 - 1) as i64, k.1, k.2), c) == manhattan(k, c) + 1,
        k.1 >= c.1 && k.1 < i64::MAX ==> manhattan((k.0, (k.1 + 1) as i64, k.2), c) == manhattan(k, c) + 1,
        k.1 <= c.1 && k.1 > i64::MIN ==> manhattan((k.0, (k.1 - 1) as i64, k.2), c) == manhattan(k, c) + 1,
        k.2 >= c.2 && k.2 < i64::MAX ==> manhattan((k.0, k.1, (k.2 + 1) as i64), c) == manhattan(k, c) + 1,
        k.2 <= c.2 && k.2 > i64::MIN ==> manhattan((k.0, k.1, (k.2 - 1) as i64), c) == manhattan(k, c) + 1,
{
}

/// Whether `k` lies farther than `CHUNK_DISTANCE` from `c` along some axis.
pub open spec fn out_of_range(k: ChunkKey, c: ChunkKey) -> bool {
    abs(k.0 - c.0) > CHUNK_DISTANCE || abs(k.1 - c.1) > CHUNK_DISTANCE || abs(k.2 - c.2) > CHUNK_DISTANCE
}

/// Whether the distance `a` is at least as extreme as `b`: no smaller when looking for
/// the farthest chunks, no larger when looking for the nearest.
pub open spec fn at_least_as_extreme(a: int, b: int, farthest: bool) -> bool {
    if farthest { a >= b } else { a <= b }
}

/// Whether `k` lies farther than `CHUNK_DISTANCE` from `c` along some axis.
fn out_of_range_exec(k: ChunkKey, c: ChunkKey) -> (r: bool)
    requires
        key_bounded(k),
        key_bounded(c),
    ensures
        r == out_of_range(k, c),
{
    let dx = if k.0 < c.0 { c.0 - k.0 } else { k.0 - c.0 };
    let dy = if k.1 < c.1 { c.1 - k.1 } else { k.1 - c.1 };
    let dz = if k.2 < c.2 { c.2 - k.2 } else { k.2 - c.2 };
    dx > CHUNK_DISTANCE || dy > CHUNK_DISTANCE || dz > CHUNK_DISTANCE
}

/// The Manhattan distance between two bounded chunk keys.
fn distance(k: ChunkKey, c: ChunkKey) -> (r: i64)
    requires
        key_bounded(k),
        key_bounded(c),
    ensures
        r == manhattan(k, c),
{
    let dx = if k.0 < c.0 { c.0 - k.0 } else { k.0 - c.0 };
    let dy = if k.1 < c.1 { c.1 - k.1 } else { k.1 - c.1 };
    let dz = if k.2 < c.2 { c.2 - k.2 } else { k.2 - c.2 };
    dx + dy + dz
}

/// Picks `min(count, candidates.len())` of the candidates, each at least as far from
/// `center` (when `farthest`) or as near to it (otherwise) as every candidate left out.
/// Among candidates at equal distance, which are picked is not specified.
fn select_by_distance(candidates: Vec<ChunkKey>, center: ChunkKey, count: usize, farthest: bool) -> (r: Vec<ChunkKey>)
    requires
        candidates@.no_duplicates(),
        forall|i: int| 0 <= i < candidates.len() ==> key_bounded(#[trigger] candidates@[i]),
        key_bounded(center),
    ensures
        r.len() == if count < candidates.len() { count as int } else { candidates.len() as int },
        r.len() < count ==> forall|k: ChunkKey| candidates@.contains(k) ==> #[trigger] r@.contains(k),
        r@.no_duplicates(),
        forall|i: int| 0 <= i < r.len() ==> candidates@.contains(#[trigger] r@[i]),
        forall|k: ChunkKey, i: int|
            #![trigger candidates@.contains(k), r@[i]]
            candidates@.contains(k) && !r@.contains(k) && 0 <= i < r.len()
                ==> at_least_as_extreme(manhattan(r@[i], center), manhattan(k, center), farthest),
{
    let ghost all = candidates@;
    let mut remaining = candidates;
    let mut chosen: Vec<ChunkKey> = Vec::new();
    while chosen.len() < count && remaining.len() > 0
        invariant
            chosen.len() + remaining.len() == all.len(),
            chosen.len() <= count,
            remaining@.no_duplicates(),
            chosen@.no_duplicates(),
            key_bounded(center),
            forall|i: int| 0 <= i < remaining.len() ==> all.contains(#[trigger] remaining@[i]),
            forall|i: int| 0 <= i < chosen.len() ==> all.contains(#[trigger] chosen@[i]),
            forall|i: int| 0 <= i < all.len() ==> key_bounded(#[trigger] all[i]),
            forall|k: ChunkKey| all.contains(k) ==> #[trigger] chosen@.contains(k) || remaining@.contains(k),
            forall|a: int, b: int| 0 <= a < chosen.len() && 0 <= b < remaining.len() ==> chosen@[a] != remaining@[b],
            forall|a: int, b: int|
                #![trigger chosen@[a], remaining@[b]]
                0 <= a < chosen.len() && 0 <= b < remaining.len()
                    ==> at_least_as_extreme(manhattan(chosen@[a], center), manhattan(remaining@[b], center), farthest),
        decreases remaining.len(),
    {
        let mut best: usize = 0;
        proof {
            assert(all.contains(remaining@[0]));
        }
        let mut best_distance = distance(remaining[0], center);
        let mut j: usize = 1;
        while j < remaining.len()
            invariant
                1 <= j <= remaining.len(),
                best < j,
                key_bounded(center),
                forall|i: int| 0 <= i < remaining.len() ==> all.contains(#[trigger] remaining@[i]),
                forall|i: int| 0 <= i < all.len() ==> key_bounded(#[trigger] all[i]),
                best_distance == manhattan(remaining@[best as int], center),
                forall|i: int| 0 <= i < j ==> at_least_as_extreme(best_distance as int, manhattan(#[trigger] remaining@[i], center), farthest),
            decreases remaining.len() - j,
        {
            proof {
                assert(all.contains(remaining@[j as int]));
            }
            let d = distance(remaining[j], center);
            if (farthest && d > best_distance) || (!farthest && d < best_distance) {
                best = j;
                best_distance = d;
            }
            j = j + 1;
        }
        let ghost old_remaining = remaining@;
        let ghost old_chosen = chosen@;
        let picked = remaining.remove(best);
        chosen.push(picked);
        proof {
            assert forall|b: int| 0 <= b < remaining.len() implies old_remaining.contains(#[trigger] remaining@[b]) && remaining@[b] != picked by {
                if b < best { assert(remaining@[b] == old_remaining[b]); }
                else { assert(remaining@[b] == old_remaining[b + 1]); }
            }
            assert forall|k: ChunkKey| all.contains(k) implies #[trigger] chosen@.contains(k) || remaining@.contains(k) by {
                if old_chosen.contains(k) {
                    let a = choose|a: int| 0 <= a < old_chosen.len() && old_chosen[a] == k;
                    assert(chosen@[a] == k);
                } else {
                    assert(old_remaining.contains(k));
                    let b = choose|b: int| 0 <= b < old_remaining.len() && old_remaining[b] == k;
                    if b == best {
                        assert(chosen@[chosen.len() - 1] == k);
                    } else if b < best {
                        assert(remaining@[b] == k);
                    } else {
                        assert(remaining@[b - 1] == k);
                    }
                }
            }
            assert forall|a: int, b: int| 0 <= a < chosen.len() && 0 <= b < remaining.len() implies chosen@[a] != remaining@[b] by {
                if b < best { assert(remaining@[b] == old_remaining[b]); }
                else { assert(remaining@[b] == old_remaining[b + 1]); }
            }
            assert forall|a: int, b: int|
                #![trigger chosen@[a], remaining@[b]]
                0 <= a < chosen.len() && 0 <= b < remaining.len()
                    implies at_least_as_extreme(manhattan(chosen@[a], center), manhattan(remaining@[b], center), farthest) by {
                if b < best { assert(remaining@[b] == old_remaining[b]); }
                else { assert(remaining@[b] == old_remaining[b + 1]); }
            }
            assert(chosen@.no_duplicates()) by {
                assert forall|a: int, b: int| 0 <= a < b < chosen.len() implies chosen@[a] != chosen@[b] by {
                    if b == chosen.len() - 1 {
                        assert(old_remaining[best as int] == picked);
                    }
                }
            }
            assert(remaining@.no_duplicates()) by {
                assert forall|a: int, b: int| 0 <= a < b < remaining.len() implies remaining@[a] != remaining@[b] by {
                    let oa = if a < best { a } else { a + 1 };
                    let ob = if b < best { b } else { b + 1 };
                    assert(remaining@[a] == old_remaining[oa]);
                    assert(remaining@[b] == old_remaining[ob]);
                }
            }
        }
    }
    proof {
        if chosen.len() < count {
            assert forall|k: ChunkKey| all.contains(k) implies #[trigger] chosen@.contains(k) by {
                assert(chosen@.contains(k) || remaining@.contains(k));
            }
        }
        assert forall|k: ChunkKey, i: int|
            #![trigger all.contains(k), chosen@[i]]
            all.contains(k) && !chosen@.contains(k) && 0 <= i < chosen.len()
                implies at_least_as_extreme(manhattan(chosen@[i], center), manhattan(k, center), farthest) by {
            assert(remaining@.contains(k));
            let b = choose|b: int| 0 <= b < remaining.len() && remaining@[b] == k;
        }
    }
    chosen
}

/// Whether every coordinate of a chunk key lies within the range that chunk coordinates
/// computed from world positions can take.
pub open spec fn center_bounded(c: ChunkKey) -> bool {
    -0x0800_0000_0000_0000 <= c.0 < 0x0800_0000_0000_0000
        && -0x0800_0000_0000_0000 <= c.1 < 0x0800_0000_0000_0000
        && -0x0800_0000_0000_0000 <= c.2 < 0x0800_0000_0000_0000
}

/// The edge length, in chunks, of the cube of chunks kept around the camera.
pub open spec fn cube_side() -> int {
    2 * CHUNK_DISTANCE + 1
}

/// The number of chunks in the cube kept around the camera.
pub open spec fn cube_volume() -> int {
    cube_side() * cube_side() * cube_side()
}

/// The `i`-th chunk of the cube around `c`, counting with z fastest, then y, then x.
pub open spec fn cube_key(c: ChunkKey, i: int) -> ChunkKey {
    (
        (c.0 + i / 441 - CHUNK_DISTANCE) as i64,
        (c.1 + (i / 21) % 21 - CHUNK_DISTANCE) as i64,
        (c.2 + i % 21 - CHUNK_DISTANCE) as i64,
    )
}

/// The place of chunk `k` in the cube around `c`.
pub open spec fn cube_index(c: ChunkKey, k: ChunkKey) -> int {
    (k.0 - c.0 + CHUNK_DISTANCE) * 441 + (k.1 - c.1 + CHUNK_DISTANCE) * 21 + (k.2 - c.2 + CHUNK_DISTANCE)
}

/// The cube around a chunk is enumerated exactly once by its indices.
proof fn lemma_cube(c: ChunkKey)
    requires
        center_bounded(c),
    ensures
        forall|i: int|
            #![trigger cube_key(c, i)]
            0 <= i < 9261 ==> !out_of_range(cube_key(c, i), c) && key_bounded(cube_key(c, i))
                && cube_index(c, cube_key(c, i)) == i,
        forall|k: ChunkKey|
            #![trigger cube_index(c, k)]
            !out_of_range(k, c) ==> 0 <= cube_index(c, k) < 9261 && cube_key(c, cube_index(c, k)) == k,
{
    assert forall|i: int|
        #![trigger cube_key(c, i)]
        0 <= i < 9261 implies !out_of_range(cube_key(c, i), c) && key_bounded(cube_key(c, i))
            && cube_index(c, cube_key(c, i)) == i by {
        assert(0 <= i / 441 < 21 && 0 <= (i / 21) % 21 < 21 && 0 <= i % 21 < 21
            && i == (i / 441) * 441 + ((i / 21) % 21) * 21 + i % 21) by (nonlinear_arith)
            requires 0 <= i < 9261;
    }
    assert forall|k: ChunkKey|
        #![trigger cube_index(c, k)]
        !out_of_range(k, c) implies 0 <= cube_index(c, k) < 9261 && cube_key(c, cube_index(c, k)) == k by {
        let a = k.0 - c.0 + 10;
        let b = k.1 - c.1 + 10;
        let d = k.2 - c.2 + 10;
        let i = cube_index(c, k);
        assert(0 <= i < 9261 && i / 441 == a && (i / 21) % 21 == b && i % 21 == d) by (nonlinear_arith)
            requires 0 <= a <= 20, 0 <= b <= 20, 0 <= d <= 20, i == a * 441 + b * 21 + d;
    }
}

/// The loaded chunks out of range of `c`: the ones that may be unloaded.
pub open spec fn unload_pool(loaded: Map<ChunkKey, Seq<Block>>, c: ChunkKey) -> Set<ChunkKey> {
    loaded.dom().filter(|k: ChunkKey| out_of_range(k, c))
}

/// The chunks in range of `c` that are neither loaded nor scheduled: the ones that may be
/// scheduled for generation.
pub open spec fn load_pool(loaded: Map<ChunkKey, Seq<Block>>, scheduled: Set<ChunkKey>, c: ChunkKey) -> Set<ChunkKey> {
    Set::new(|k: ChunkKey| !out_of_range(k, c) && !loaded.contains_key(k) && !scheduled.contains(k))
}

/// Whether `k` is `c` or one of its six face neighbours.
pub open spec fn is_neighbour_or_self(k: ChunkKey, c: ChunkKey) -> bool {
    manhattan(k, c) <= 1
}

/// A chunk and its six face neighbours.
pub open spec fn face_neighbours(c: ChunkKey) -> Set<ChunkKey> {
    set![
        c,
        ((c.0 + 1) as i64, c.1, c.2),
        ((c.0 - 1) as i64, c.1, c.2),
        (c.0, (c.1 + 1) as i64, c.2),
        (c.0, (c.1 - 1) as i64, c.2),
        (c.0, c.1, (c.2 + 1) as i64),
        (c.0, c.1, (c.2 - 1) as i64),
    ]
}

/// The six face neighbours of a bounded chunk are the chunks at Manhattan distance one.
proof fn lemma_face_neighbours(c: ChunkKey)
    requires
        key_bounded(c),
    ensures
        forall|k: ChunkKey| #[trigger] face_neighbours(c).contains(k) <==> is_neighbour_or_self(k, c),
{
    assert forall|k: ChunkKey| #[trigger] face_neighbours(c).contains(k) <==> is_neighbour_or_self(k, c) by {
        if is_neighbour_or_self(k, c) {
            if k.0 != c.0 {
                assert(k.1 == c.1 && k.2 == c.2);
            } else if k.1 != c.1 {
                assert(k.2 == c.2);
            }
        }
    }
}

/// The chunks that must be remeshed when the chunks of `changed` change: each of them
/// and its six face neighbours.
pub open spec fn rebuild_set(changed: Set<ChunkKey>) -> Set<ChunkKey> {
    Set::new(|k: ChunkKey| exists|c: ChunkKey| changed.contains(c) && #[trigger] is_neighbour_or_self(k, c))
}

/// Whether `picked` holds distinct chunks of `pool`, at most `limit` of them and all of the
/// pool when fewer, each at least as far from `c` (when `farthest`) or as near to it
/// (otherwise) as every chunk of the pool left out.
pub open spec fn is_extreme_selection(pool: Set<ChunkKey>, picked: Seq<ChunkKey>, limit: int, c: ChunkKey, farthest: bool) -> bool {
    &&& picked.no_duplicates()
    &&& forall|i: int| 0 <= i < picked.len() ==> pool.contains(#[trigger] picked[i])
    &&& picked.len() <= limit
    &&& picked.len() < limit ==> forall|k: ChunkKey| pool.contains(k) ==> #[trigger] picked.contains(k)
    &&& forall|k: ChunkKey, i: int|
        #![trigger pool.contains(k), picked[i]]
        pool.contains(k) && !picked.contains(k) && 0 <= i < picked.len()
            ==> at_least_as_extreme(manhattan(picked[i], c), manhattan(k, c), farthest)
}

/// The chunk keys of a sequence of chunk positions.
pub open spec fn keys_of(positions: Seq<Vector3<i64>>) -> Seq<ChunkKey> {
    positions.map_values(|p: Vector3<i64>| key_of(p))
}

/// Turns chunk keys into chunk positions.
fn to_positions(keys: &Vec<ChunkKey>) -> (r: Vec<Vector3<i64>>)
    ensures
        keys_of(r@) == keys@,
{
    let mut r: Vec<Vector3<i64>> = Vec::new();
    let mut i: usize = 0;
    while i < keys.len()
        invariant
            i <= keys.len(),
            r.len() == i,
            forall|j: int| 0 <= j < i ==> key_of(#[trigger] r@[j]) == keys@[j],
        decreases keys.len() - i,
    {
        let k = keys[i];
        r.push(Vector3 { x: k.0, y: k.1, z: k.2 });
        i = i + 1;
    }
    assert(keys_of(r@) =~= keys@);
    r
}

/// What one call of `Chunks::load_unload_chunks` did: the chunks it unloaded, and the
/// chunks it scheduled for generation, whose blocks the caller is to produce and hand
/// back with `Chunks::insert_loaded_chunk`.
pub struct ChunkChanges {
    pub unloaded: Vec<Vector3<i64>>,
    pub scheduled: Vec<Vector3<i64>>,
}

/// Wraps `BTreeMap::get_mut`: a mutable reference to the chunk stored under `key`, if any.
/// Writing through the reference replaces that chunk and leaves the rest of the map as it was.
#[verifier::external_body]
fn chunk_entry_mut<'a>(chunks: &'a mut BTreeMap<ChunkKey, Chunk>, key: &ChunkKey) -> (r: Option<&'a mut Chunk>)
    ensures
        r is Some <==> old(chunks)@.contains_key(*key),
        r matches Some(c) ==> *c == old(chunks)@[*key] && final(chunks)@ == old(chunks)@.insert(*key, *final(c)),
        r is None ==> final(chunks)@ == old(chunks)@,
{
    chunks.get_mut(key)
}

/// The loaded part of the world: the chunks that are present, the chunks whose blocks
/// changed since they were last meshed, and the chunks whose generation is under way.
pub struct Chunks {
    chunks: BTreeMap<ChunkKey, Chunk>,
    changed_chunks: BTreeSet<ChunkKey>,
    scheduled_chunk_loading: BTreeSet<ChunkKey>,
}

/// The most chunk generations that may be under way at once.
pub const GENERATED_CHUNKS_LIMIT: usize = 20;

/// The most chunks that one call of `load_unload_chunks` unloads.
pub const DELETED_CHUNKS_LIMIT: usize = 20;

/// How far, in chunks along each axis, chunks around the camera are kept loaded.
pub const CHUNK_DISTANCE: i64 = 10;

impl Chunks {
    /// The invariant every world keeps: stored keys are bounded, no chunk is both loaded
    /// and scheduled, and at most `GENERATED_CHUNKS_LIMIT` generations are under way.
    pub closed spec fn wf(&self) -> bool {
        &&& forall|k: ChunkKey| #[trigger] self.chunks@.contains_key(k) ==> key_bounded(k)
        &&& forall|k: ChunkKey| #[trigger] self.chunks@.contains_key(k) ==> self.chunks@[k]@.len() == CHUNK_VOLUME
        &&& forall|k: ChunkKey| #[trigger] self.changed_chunks@.contains(k) ==> key_bounded(k)
        &&& forall|k: ChunkKey| #[trigger] self.scheduled_chunk_loading@.contains(k) ==> key_bounded(k)
        &&& forall|k: ChunkKey| #[trigger] self.scheduled_chunk_loading@.contains(k) ==> !self.chunks@.contains_key(k)
        &&& self.scheduled_chunk_loading@.finite()
        &&& self.scheduled_chunk_loading@.len() <= GENERATED_CHUNKS_LIMIT
        &&& self.changed_chunks@.finite()
        &&& self.chunks@.dom().finite()
    }

    /// The blocks of every loaded chunk, by chunk key.
    pub closed spec fn view(&self) -> Map<ChunkKey, Seq<Block>> {
        self.chunks@.map_values(|c: Chunk| c@)
    }

    /// The chunks whose blocks changed since they were last meshed.
    pub closed spec fn changed(&self) -> Set<ChunkKey> {
        self.changed_chunks@
    }

    /// The chunks whose generation is under way.
    pub closed spec fn scheduled(&self) -> Set<ChunkKey> {
        self.scheduled_chunk_loading@
    }

    /// The block at world position `p`, if its chunk is loaded.
    pub open spec fn block_at(&self, p: Vector3<i64>) -> Option<Block> {
        world_block(self@, p)
    }

    /// Every loaded chunk holds one block per position, and at most
    /// `GENERATED_CHUNKS_LIMIT` chunk generations are under way, none of them for a
    /// loaded chunk.
    pub proof fn lemma_wf_properties(&self)
        requires
            self.wf(),
        ensures
            forall|k: ChunkKey| #[trigger] self@.contains_key(k) ==> self@[k].len() == CHUNK_VOLUME,
            self.scheduled().finite(),
            self.scheduled().len() <= GENERATED_CHUNKS_LIMIT,
            forall|k: ChunkKey| #[trigger] self.scheduled().contains(k) ==> !self@.contains_key(k),
    {
    }

    /// An empty world: no chunk is loaded, changed or scheduled.
    pub fn new() -> (r: Self)
        ensures
            r@ == Map::<ChunkKey, Seq<Block>>::empty(),
            r.changed() == Set::<ChunkKey>::empty(),
            r.scheduled() == Set::<ChunkKey>::empty(),
            r.wf(),
    {
        let r = Chunks {
            chunks: BTreeMap::new(),
            changed_chunks: BTreeSet::new(),
            scheduled_chunk_loading: BTreeSet::new(),
        };
        assert(r@ =~= Map::<ChunkKey, Seq<Block>>::empty());
        r
    }

    /// The block at world position `position`, or `None` when its chunk is not loaded.
    pub fn get_block(&self, position: Vector3<i64>) -> (r: Option<&Block>)
        requires
            self.wf(),
        ensures
            r is Some <==> self@.contains_key(chunk_key(position)),
            r matches Some(b) ==> self.block_at(position) == Some(*b),
    {
        let (cx, lx) = split_coordinate(position.x);
        let (cy, ly) = split_coordinate(position.y);
        let (cz, lz) = split_coordinate(position.z);
        let key = (cx, cy, cz);
        assert(key == chunk_key(position));
        let chunk = match self.chunks.get(&key) {
            Some(c) => c,
            None => return None,
        };
        let local = Vector3 { x: lx, y: ly, z: lz };
        assert(local == local_position(position));
        chunk.get_block(local)
    }

    /// A mutable reference to the block at world position `position`, or `None` when its
    /// chunk is not loaded. When the chunk is loaded, it is marked as changed, and writing
    /// through the reference changes that block and no other.
    pub fn get_block_mut(&mut self, position: Vector3<i64>) -> (r: Option<&mut Block>)
        requires
            old(self).wf(),
        ensures
            final(self).wf(),
            r is Some <==> old(self)@.contains_key(chunk_key(position)),
            r matches Some(b) ==> {
                &&& old(self).block_at(position) == Some(*b)
                &&& final(self)@ == old(self)@.insert(
                    chunk_key(position),
                    old(self)@[chunk_key(position)].update(block_index(local_position(position)), *final(b)),
                )
                &&& final(self).changed() == old(self).changed().insert(chunk_key(position))
                &&& final(self).scheduled() == old(self).scheduled()
            },
            r is None ==> final(self)@ == old(self)@ && final(self).changed() == old(self).changed()
                && final(self).scheduled() == old(self).scheduled(),
    {
        let (cx, lx) = split_coordinate(position.x);
        let (cy, ly) = split_coordinate(position.y);
        let (cz, lz) = split_coordinate(position.z);
        let key = (cx, cy, cz);
        assert(key == chunk_key(position));
        let local = Vector3 { x: lx, y: ly, z: lz };
        assert(local == local_position(position));
        let chunk = match chunk_entry_mut(&mut self.chunks, &key) {
            Some(c) => c,
            None => return None,
        };
        let block = match chunk.get_block_mut(local) {
            Some(b) => b,
            None => return None,
        };
        self.changed_chunks.insert(key);
        Some(block)
    }

    /// Whether the chunk with the given chunk coordinates is loaded.
    pub fn contains_chunk(&self, chunk_position: Vector3<i64>) -> (r: bool)
        ensures
            r == self@.contains_key(key_of(chunk_position)),
    {
        self.chunks.contains_key(&(chunk_position.x, chunk_position.y, chunk_position.z))
    }

    /// Hands over a chunk whose generation finished. It is stored, and marked as changed,
    /// only when its generation is still scheduled; the schedule no longer holds it either way.
    pub fn insert_loaded_chunk(&mut self, chunk_position: Vector3<i64>, chunk: Chunk) -> (r: bool)
        requires
            old(self).wf(),
        ensures
            final(self).wf(),
            r == old(self).scheduled().contains(key_of(chunk_position)),
            final(self).scheduled() == old(self).scheduled().remove(key_of(chunk_position)),
            r ==> final(self)@ == old(self)@.insert(key_of(chunk_position), chunk@)
                && final(self).changed() == old(self).changed().insert(key_of(chunk_position)),
            !r ==> final(self)@ == old(self)@ && final(self).changed() == old(self).changed(),
    {
        proof { use_type_invariant(&chunk); }
        let key = (chunk_position.x, chunk_position.y, chunk_position.z);
        if !self.scheduled_chunk_loading.remove(&key) || self.chunks.contains_key(&key) {
            return false;
        }
        self.chunks.insert(key, chunk);
        self.changed_chunks.insert(key);
        proof {
            assert(self@ =~= old(self)@.insert(key, chunk@));
        }
        true
    }

    /// The loaded chunks that lie out of range of `center`, each once.
    fn far_chunks(&self, center: ChunkKey) -> (r: Vec<ChunkKey>)
        requires
            self.wf(),
            key_bounded(center),
        ensures
            r@.no_duplicates(),
            forall|k: ChunkKey|
                #![trigger r@.contains(k)]
                #![trigger self@.contains_key(k)]
                r@.contains(k) <==> self@.contains_key(k) && out_of_range(k, center),
    {
        let mut far: Vec<ChunkKey> = Vec::new();
        let ghost mut origin: Seq<int> = Seq::empty();
        let ghost all = vstd::std_specs::iter::IteratorSpec::remaining(&vstd::std_specs::btree::spec_keys_iter(&self.chunks));
        for key in it: self.chunks.keys()
            invariant
                it.seq() == all,
                self.wf(),
                key_bounded(center),
                it.seq().no_duplicates(),
                it.seq().unref().to_set() == self.chunks@.dom(),
                origin.len() == far.len(),
                forall|a: int| 0 <= a < far.len() ==> 0 <= #[trigger] origin[a] < it.index() && far@[a] == *it.seq()[origin[a]],
                forall|a: int| 0 <= a < far.len() ==> out_of_range(#[trigger] far@[a], center),
                forall|a: int, b: int| 0 <= a < b < far.len() ==> origin[a] < origin[b],
                forall|j: int| 0 <= j < it.index() && out_of_range(*#[trigger] it.seq()[j], center) ==> far@.contains(*it.seq()[j]),
        {
            let k = *key;
            proof {
                assert(it.seq().unref()[it.index()] == k);
                assert(it.seq().unref().to_set().contains(k));
            }
            let ghost old_far = far@;
            if out_of_range_exec(k, center) {
                proof { origin = origin.push(it.index()); }
                far.push(k);
            }
            proof {
                assert forall|j: int| 0 <= j < it.index() + 1 && out_of_range(*#[trigger] it.seq()[j], center) implies far@.contains(*it.seq()[j]) by {
                    if j < it.index() {
                        assert(old_far.contains(*it.seq()[j]));
                        let a = choose|a: int| 0 <= a < old_far.len() && old_far[a] == *it.seq()[j];
                        assert(far@[a] == old_far[a]);
                    } else {
                        assert(far@[far.len() - 1] == k);
                    }
                }
            }
        }
        proof {
            assert forall|a: int, b: int| 0 <= a < b < far.len() implies far@[a] != far@[b] by {
                assert(all[origin[a]] != all[origin[b]]);
            }
            assert forall|k: ChunkKey| far@.contains(k) implies self@.contains_key(k) && out_of_range(k, center) by {
                let a = choose|a: int| 0 <= a < far.len() && far@[a] == k;
                assert(all.unref()[origin[a]] == k);
                assert(all.unref().to_set().contains(k));
            }
            assert forall|k: ChunkKey| self@.contains_key(k) && out_of_range(k, center) implies far@.contains(k) by {
                assert(all.unref().to_set().contains(k));
                let j = choose|j: int| 0 <= j < all.len() && all.unref()[j] == k;
                assert(*all[j] == k);
            }
        }
        far
    }

    /// The chunks in range of `center` that are neither loaded nor scheduled, each once.
    fn load_candidates(&self, center: ChunkKey) -> (r: Vec<ChunkKey>)
        requires
            self.wf(),
            center_bounded(center),
        ensures
            r@.no_duplicates(),
            forall|i: int| 0 <= i < r.len() ==> key_bounded(#[trigger] r@[i]),
            forall|k: ChunkKey|
                #![trigger r@.contains(k)]
                #![trigger load_pool(self@, self.scheduled(), center).contains(k)]
                r@.contains(k) <==> load_pool(self@, self.scheduled(), center).contains(k),
    {
        proof { lemma_cube(center); }
        let mut r: Vec<ChunkKey> = Vec::new();
        let ghost mut origin: Seq<int> = Seq::empty();
        let mut i: usize = 0;
        while i < 9261
            invariant
                self.wf(),
                center_bounded(center),
                i <= 9261,
                origin.len() == r.len(),
                forall|a: int| 0 <= a < r.len() ==> 0 <= #[trigger] origin[a] < i && r@[a] == cube_key(center, origin[a]),
                forall|a: int, b: int| 0 <= a < b < r.len() ==> origin[a] < origin[b],
                forall|a: int| 0 <= a < r.len() ==> load_pool(self@, self.scheduled(), center).contains(#[trigger] r@[a]),
                forall|j: int| 0 <= j < i && load_pool(self@, self.scheduled(), center).contains(#[trigger] cube_key(center, j)) ==> r@.contains(cube_key(center, j)),
                forall|i: int|
                    #![trigger cube_key(center, i)]
                    0 <= i < 9261 ==> !out_of_range(cube_key(center, i), center) && key_bounded(cube_key(center, i))
                        && cube_index(center, cube_key(center, i)) == i,
            decreases 9261 - i,
        {
            let dx = (i / 441) as i64 - CHUNK_DISTANCE;
            let dy = ((i / 21) % 21) as i64 - CHUNK_DISTANCE;
            let dz = (i % 21) as i64 - CHUNK_DISTANCE;
            let key = (center.0 + dx, center.1 + dy, center.2 + dz);
            assert(key == cube_key(center, i as int));
            let ghost old_r = r@;
            if !self.chunks.contains_key(&key) && !self.scheduled_chunk_loading.contains(&key) {
                proof {
                    origin = origin.push(i as int);
                    assert(self@.contains_key(key) == self.chunks@.contains_key(key));
                }
                r.push(key);
            } else {
                proof {
                    assert(self@.contains_key(key) == self.chunks@.contains_key(key));
                }
            }
            proof {
                assert forall|j: int| 0 <= j < i + 1 && load_pool(self@, self.scheduled(), center).contains(#[trigger] cube_key(center, j)) implies r@.contains(cube_key(center, j)) by {
                    if j < i {
                        assert(old_r.contains(cube_key(center, j)));
                        let a = choose|a: int| 0 <= a < old_r.len() && old_r[a] == cube_key(center, j);
                        assert(r@[a] == old_r[a]);
                    } else {
                        assert(r@[r.len() - 1] == key);
                    }
                }
            }
            i = i + 1;
        }
        proof {
            assert forall|a: int, b: int| 0 <= a < b < r.len() implies r@[a] != r@[b] by {
                assert(cube_index(center, r@[a]) == origin[a]);
                assert(cube_index(center, r@[b]) == origin[b]);
            }
            assert forall|k: ChunkKey| load_pool(self@, self.scheduled(), center).contains(k) implies r@.contains(k) by {
                let j = cube_index(center, k);
                assert(cube_key(center, j) == k);
            }
            assert forall|i: int| 0 <= i < r.len() implies key_bounded(#[trigger] r@[i]) by {
                assert(r@[i] == cube_key(center, origin[i]));
            }
        }
        r
    }

    /// Unloads the farthest chunks out of range of the camera's chunk, at most
    /// `DELETED_CHUNKS_LIMIT` of them, and schedules the generation of the nearest chunks
    /// in range that are neither loaded nor scheduled, until `GENERATED_CHUNKS_LIMIT`
    /// generations are under way. `camera_block` is the world block the camera is in.
    pub fn load_unload_chunks(&mut self, camera_block: Vector3<i64>) -> (r: ChunkChanges)
        requires
            old(self).wf(),
        ensures
            final(self).wf(),
            is_extreme_selection(
                unload_pool(old(self)@, chunk_key(camera_block)),
                keys_of(r.unloaded@),
                DELETED_CHUNKS_LIMIT as int,
                chunk_key(camera_block),
                true,
            ),
            final(self)@ == old(self)@.remove_keys(keys_of(r.unloaded@).to_set()),
            is_extreme_selection(
                load_pool(old(self)@, old(self).scheduled(), chunk_key(camera_block)),
                keys_of(r.scheduled@),
                GENERATED_CHUNKS_LIMIT - old(self).scheduled().len(),
                chunk_key(camera_block),
                false,
            ),
            final(self).scheduled() == old(self).scheduled() + keys_of(r.scheduled@).to_set(),
            final(self).changed() == old(self).changed(),
    {
        let (cx, _lx) = split_coordinate(camera_block.x);
        let (cy, _ly) = split_coordinate(camera_block.y);
        let (cz, _lz) = split_coordinate(camera_block.z);
        let center = (cx, cy, cz);
        assert(center == chunk_key(camera_block));
        let ghost old_map = self@;
        let ghost old_scheduled = self.scheduled();

        // Unload the farthest chunks that are out of range.
        let far = self.far_chunks(center);
        let ghost far_seq = far@;
        proof {
            assert(forall|k: ChunkKey| far@.contains(k) ==> self@.contains_key(k));
            assert(self@ == old_map);
            assert forall|i: int| 0 <= i < far.len() implies key_bounded(#[trigger] far@[i]) by {
                assert(far@.contains(far@[i]));
                assert(self@.contains_key(far@[i]));
                assert(self.chunks@.contains_key(far@[i]));
            }
        }
        let unloaded = select_by_distance(far, center, DELETED_CHUNKS_LIMIT, true);
        proof {
            assert forall|k: ChunkKey| far_seq.contains(k) <==> #[trigger] unload_pool(old_map, center).contains(k) by {
                assert(unload_pool(old_map, center).contains(k) <==> old_map.dom().contains(k) && out_of_range(k, center));
            }
        }
        let mut i: usize = 0;
        while i < unloaded.len()
            invariant
                i <= unloaded.len(),
                self.changed_chunks@ == old(self).changed_chunks@,
                self.scheduled_chunk_loading@ == old(self).scheduled_chunk_loading@,
                forall|k: ChunkKey| #[trigger] self.chunks@.contains_key(k) <==> old(self).chunks@.contains_key(k) && (forall|j: int| 0 <= j < i ==> unloaded@[j] != k),
                forall|k: ChunkKey| #[trigger] self.chunks@.contains_key(k) ==> self.chunks@[k] == old(self).chunks@[k],
                self.chunks@.dom().finite(),
            decreases unloaded.len() - i,
        {
            let k = unloaded[i];
            self.chunks.remove(&k);
            i = i + 1;
        }
        proof {
            assert forall|k: ChunkKey| #[trigger] self.chunks@.contains_key(k) <==> old(self).chunks@.contains_key(k) && !unloaded@.contains(k) by {
                if unloaded@.contains(k) {
                    let j = choose|j: int| 0 <= j < unloaded.len() && unloaded@[j] == k;
                }
            }
            assert(self@ =~= old_map.remove_keys(unloaded@.to_set()));
        }

        // Schedule the nearest chunks in range that are neither loaded nor scheduled.
        let candidates = self.load_candidates(center);
        proof {
            assert forall|k: ChunkKey| #[trigger] load_pool(self@, self.scheduled(), center).contains(k)
                <==> load_pool(old_map, old_scheduled, center).contains(k) by {
                if old_map.contains_key(k) && !self@.contains_key(k) {
                    assert(unloaded@.to_set().contains(k));
                    assert(unloaded@.contains(k));
                    let j = choose|j: int| 0 <= j < unloaded.len() && unloaded@[j] == k;
                    assert(far_seq.contains(unloaded@[j]));
                }
            }
        }
        let ghost cand_seq = candidates@;
        let count = GENERATED_CHUNKS_LIMIT - self.scheduled_chunk_loading.len();
        let scheduled = select_by_distance(candidates, center, count, false);
        proof {
            let pool = load_pool(old_map, old_scheduled, center);
            assert forall|k: ChunkKey| #[trigger] pool.contains(k) <==> cand_seq.contains(k) by {
                assert(load_pool(self@, self.scheduled(), center).contains(k) <==> pool.contains(k));
            }
            assert(is_extreme_selection(pool, scheduled@, GENERATED_CHUNKS_LIMIT - old_scheduled.len(), center, false));
        }
        let ghost sched_before = self.scheduled_chunk_loading@;
        let ghost chunks_after = self.chunks@;
        proof {
            assert forall|a: int| 0 <= a < scheduled.len() implies
                load_pool(self@, self.scheduled(), center).contains(#[trigger] scheduled@[a]) by {
                assert(candidates@.contains(scheduled@[a]));
            }
        }
        let mut j: usize = 0;
        while j < scheduled.len()
            invariant
                self.chunks@ == chunks_after,
                self.changed_chunks@ == old(self).changed_chunks@,
                forall|a: int| 0 <= a < scheduled.len() ==> !chunks_after.contains_key(#[trigger] scheduled@[a]) && key_bounded(scheduled@[a]),
                j <= scheduled.len(),
                scheduled.len() <= count,
                count + sched_before.len() == GENERATED_CHUNKS_LIMIT,
                sched_before.finite(),
                scheduled@.no_duplicates(),
                forall|a: int| 0 <= a < scheduled.len() ==> !sched_before.contains(#[trigger] scheduled@[a]),
                self.scheduled_chunk_loading@ == sched_before + scheduled@.take(j as int).to_set(),
                self.scheduled_chunk_loading@.finite(),
                self.scheduled_chunk_loading@.len() == sched_before.len() + j,
            decreases scheduled.len() - j,
        {
            let k = scheduled[j];
            proof {
                assert(!sched_before.contains(k));
                assert(!scheduled@.take(j as int).contains(k)) by {
                    if scheduled@.take(j as int).contains(k) {
                        let a = choose|a: int| 0 <= a < j && scheduled@.take(j as int)[a] == k;
                        assert(scheduled@[a] == scheduled@[j as int]);
                    }
                }
                assert(scheduled@.take(j + 1) =~= scheduled@.take(j as int).push(k));
                assert forall|x: ChunkKey| scheduled@.take(j as int).push(k).contains(x) <==> scheduled@.take(j as int).contains(x) || x == k by {
                    if scheduled@.take(j as int).push(k).contains(x) {
                        let a = choose|a: int| 0 <= a < j + 1 && scheduled@.take(j as int).push(k)[a] == x;
                        if a < j { assert(scheduled@.take(j as int)[a] == x); }
                    }
                    if scheduled@.take(j as int).contains(x) {
                        let a = choose|a: int| 0 <= a < j && scheduled@.take(j as int)[a] == x;
                        assert(scheduled@.take(j as int).push(k)[a] == x);
                    }
                    if x == k {
                        assert(scheduled@.take(j as int).push(k)[j as int] == x);
                    }
                }
                assert(scheduled@.take(j as int).push(k).to_set() =~= scheduled@.take(j as int).to_set().insert(k));
            }
            self.scheduled_chunk_loading.insert(k);
            proof {
                assert(self.scheduled_chunk_loading@ =~= sched_before + scheduled@.take(j + 1).to_set());
            }
            j = j + 1;
        }
        proof {
            assert(scheduled@.take(scheduled.len() as int) =~= scheduled@);
            assert forall|k: ChunkKey| #[trigger] self.scheduled_chunk_loading@.contains(k) implies
                key_bounded(k) && !self.chunks@.contains_key(k) by {
                if !sched_before.contains(k) {
                    assert(scheduled@.contains(k));
                    let a = choose|a: int| 0 <= a < scheduled.len() && scheduled@[a] == k;
                    assert(!chunks_after.contains_key(scheduled@[a]));
                }
            }
        }

        let unloaded_positions = to_positions(&unloaded);
        let scheduled_positions = to_positions(&scheduled);
        ChunkChanges { unloaded: unloaded_positions, scheduled: scheduled_positions }
    }

    /// Takes the changed chunks, leaving none marked, and returns each chunk whose mesh
    /// may have changed with them: every changed chunk and its six face neighbours, once each.
    pub fn take_chunks_to_rebuild(&mut self) -> (r: Vec<Vector3<i64>>)
        requires
            old(self).wf(),
        ensures
            final(self).wf(),
            final(self)@ == old(self)@,
            final(self).scheduled() == old(self).scheduled(),
            final(self).changed() == Set::<ChunkKey>::empty(),
            keys_of(r@).no_duplicates(),
            forall|k: ChunkKey| #[trigger] keys_of(r@).contains(k) <==> rebuild_set(old(self).changed()).contains(k),
    {
        let mut positions: BTreeSet<ChunkKey> = BTreeSet::new();
        let ghost changed = self.changed_chunks@;
        let ghost all = vstd::std_specs::iter::IteratorSpec::remaining(&vstd::std_specs::btree::spec_btree_keys_iter(&self.changed_chunks));
        for key in it: self.changed_chunks.iter()
            invariant
                it.seq() == all,
                all.unref().to_set() == changed,
                changed == self.changed_chunks@,
                forall|k: ChunkKey| #[trigger] changed.contains(k) ==> key_bounded(k),
                forall|k: ChunkKey| #[trigger] positions@.contains(k) <==>
                    exists|j: int| 0 <= j < it.index() && #[trigger] face_neighbours(*all[j]).contains(k),
        {
            let c = *key;
            proof {
                assert(all.unref()[it.index()] == c);
                assert(all.unref().to_set().contains(c));
            }
            let ghost before = positions@;
            positions.insert(c);
            positions.insert((c.0 + 1, c.1, c.2));
            positions.insert((c.0 - 1, c.1, c.2));
            positions.insert((c.0, c.1 + 1, c.2));
            positions.insert((c.0, c.1 - 1, c.2));
            positions.insert((c.0, c.1, c.2 + 1));
            positions.insert((c.0, c.1, c.2 - 1));
            proof {
                assert(all.unref()[it.index()] == c);
                assert(all.unref().to_set().contains(c));
                assert(positions@ =~= before.union(face_neighbours(c)));
                assert forall|k: ChunkKey| #[trigger] positions@.contains(k) <==>
                    exists|j: int| 0 <= j < it.index() + 1 && #[trigger] face_neighbours(*all[j]).contains(k) by {
                    if before.contains(k) {
                        let j = choose|j: int| 0 <= j < it.index() && #[trigger] face_neighbours(*all[j]).contains(k);
                    }
                    if exists|j: int| 0 <= j < it.index() + 1 && #[trigger] face_neighbours(*all[j]).contains(k) {
                        let j = choose|j: int| 0 <= j < it.index() + 1 && #[trigger] face_neighbours(*all[j]).contains(k);
                        if j < it.index() {
                            assert(before.contains(k));
                        }
                    }
                }
            }
        }
        proof {
            assert forall|k: ChunkKey| #[trigger] positions@.contains(k) <==> rebuild_set(changed).contains(k) by {
                if positions@.contains(k) {
                    let j = choose|j: int| 0 <= j < all.len() && #[trigger] face_neighbours(*all[j]).contains(k);
                    assert(all.unref()[j] == *all[j]);
                    assert(all.unref().to_set().contains(*all[j]));
                    lemma_face_neighbours(*all[j]);
                    assert(is_neighbour_or_self(k, *all[j]));
                }
                if rebuild_set(changed).contains(k) {
                    let c = choose|c: ChunkKey| changed.contains(c) && #[trigger] is_neighbour_or_self(k, c);
                    assert(all.unref().to_set().contains(c));
                    let j = choose|j: int| 0 <= j < all.len() && all.unref()[j] == c;
                    lemma_face_neighbours(c);
                    assert(face_neighbours(*all[j]).contains(k));
                }
            }
        }
        self.changed_chunks.clear();
        let mut r: Vec<Vector3<i64>> = Vec::new();
        let ghost pset = positions@;
        let ghost pall = vstd::std_specs::iter::IteratorSpec::remaining(&vstd::std_specs::btree::spec_btree_keys_iter(&positions));
        for key in it: positions.iter()
            invariant
                it.seq() == pall,
                pall.no_duplicates(),
                r.len() == it.index(),
                forall|a: int| 0 <= a < it.index() ==> key_of(#[trigger] r@[a]) == *pall[a],
        {
            let k = *key;
            r.push(Vector3 { x: k.0, y: k.1, z: k.2 });
        }
        proof {
            assert(keys_of(r@) =~= pall.unref());
            assert(pall.unref().to_set() == pset);
            assert forall|a: int, b: int| 0 <= a < b < r.len() implies keys_of(r@)[a] != keys_of(r@)[b] by {
                assert(pall[a] != pall[b]);
            }
            assert forall|k: ChunkKey| #[trigger] keys_of(r@).contains(k) <==> pset.contains(k) by {
                assert(pall.unref().to_set().contains(k) <==> pall.unref().contains(k));
            }
        }
        r
    }
}

} // verus!
