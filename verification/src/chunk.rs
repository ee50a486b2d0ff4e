use vstd::prelude::*;

use crate::vector::Vector3;

verus! {

/// The edge length of the chunk, in blocks.
pub const CHUNK_SIZE: usize = 16;

/// The number of blocks in the chunk.
pub const CHUNK_VOLUME: usize = 4096;

/// The six axis-aligned directions a block face can point in.
#[derive(Debug, Clone, Copy, PartialEq, Eq)]
pub enum Direction {
    PositiveX,
    NegativeX,
    PositiveY,
    NegativeY,
    PositiveZ,
    NegativeZ,
}

/// The kinds of block the chunk is made of.
#[derive(Debug, Clone, Copy, PartialEq, Eq)]
pub enum Block {
    Air,
    Solid,
}

impl Block {
    /// Whether the block is anything but air.
    pub open spec fn is_solid(self) -> bool {
        self is Solid
    }

    /// Whether the block hides what lies behind it when seen from `direction`.
    /// Solid blocks do in every direction, air never does.
    #[allow(unused_variables)]
    pub fn soild_in_direction(&self, direction: Direction) -> (r: bool)
        ensures
            r == self.is_solid(),
    {
        match *self {
            Block::Air => false,
            Block::Solid => true,
        }
    }
}

/// Whether the coordinates lie inside the chunk.
pub open spec fn in_bounds(x: int, y: int, z: int) -> bool {
    0 <= x < CHUNK_SIZE && 0 <= y < CHUNK_SIZE && 0 <= z < CHUNK_SIZE
}

/// Where the block at `(x, y, z)` is stored: x varies fastest, then y, then z.
pub open spec fn block_index(x: int, y: int, z: int) -> int {
    x + y * 16 + z * 256
}

/// The position whose block is stored at index `i`.
pub open spec fn index_position(i: int) -> Vector3<usize> {
    Vector3 { x: (i % 16) as usize, y: ((i / 16) % 16) as usize, z: (i / 256) as usize }
}

/// The storage index and the position of a block determine each other.
pub proof fn lemma_index_roundtrip()
    ensures
        forall|x: int, y: int, z: int|
            #![trigger block_index(x, y, z)]
            in_bounds(x, y, z) ==> 0 <= block_index(x, y, z) < CHUNK_VOLUME
                && index_position(block_index(x, y, z)) == (Vector3 { x: x as usize, y: y as usize, z: z as usize }),
        forall|i: int|
            #![trigger index_position(i)]
            0 <= i < CHUNK_VOLUME ==> in_bounds(index_position(i).x as int, index_position(i).y as int, index_position(i).z as int)
                && block_index(index_position(i).x as int, index_position(i).y as int, index_position(i).z as int) == i,
{
    assert forall|x: int, y: int, z: int|
        #![trigger block_index(x, y, z)]
        in_bounds(x, y, z) implies 0 <= block_index(x, y, z) < CHUNK_VOLUME
            && index_position(block_index(x, y, z)) == (Vector3 { x: x as usize, y: y as usize, z: z as usize }) by {
        let i = block_index(x, y, z);
        assert(i % 16 == x && (i / 16) % 16 == y && i / 256 == z && 0 <= i < 4096) by (nonlinear_arith)
            requires i == x + y * 16 + z * 256, 0 <= x < 16, 0 <= y < 16, 0 <= z < 16;
    }
    assert forall|i: int| #![trigger index_position(i)] 0 <= i < CHUNK_VOLUME implies
        in_bounds(index_position(i).x as int, index_position(i).y as int, index_position(i).z as int)
            && block_index(index_position(i).x as int, index_position(i).y as int, index_position(i).z as int) == i by {
        assert(i == i % 16 + ((i / 16) % 16) * 16 + (i / 256) * 256 && i / 256 < 16) by (nonlinear_arith)
            requires 0 <= i < 4096;
    }
}

/// Writing the block at `(x, y, z)` changes what a read of that position gives, and
/// what a read of every other position inside the chunk gives stays as it was.
pub proof fn lemma_write_read(blocks: Seq<Block>, x: int, y: int, z: int, qx: int, qy: int, qz: int, b: Block)
    requires
        blocks.len() == CHUNK_VOLUME,
        in_bounds(x, y, z),
        in_bounds(qx, qy, qz),
    ensures
        block_in(blocks.update(block_index(x, y, z), b), qx, qy, qz)
            == if x == qx && y == qy && z == qz { b } else { block_in(blocks, qx, qy, qz) },
{
    lemma_index_roundtrip();
    if !(x == qx && y == qy && z == qz) {
        assert(index_position(block_index(x, y, z)) == (Vector3 { x: x as usize, y: y as usize, z: z as usize }));
        assert(index_position(block_index(qx, qy, qz)) == (Vector3 { x: qx as usize, y: qy as usize, z: qz as usize }));
    }
}

/// A block face that the chunk's mesh draws: the block's position and the block.
#[derive(Debug, Clone, Copy, PartialEq, Eq)]
pub struct Face {
    pub position: Vector3<usize>,
    pub block: Block,
}

/// The faces the chunk's mesh draws, one list per direction.
pub struct ChunkFaces {
    pub positive_x: Vec<Face>,
    pub negative_x: Vec<Face>,
    pub positive_y: Vec<Face>,
    pub negative_y: Vec<Face>,
    pub positive_z: Vec<Face>,
    pub negative_z: Vec<Face>,
}

impl ChunkFaces {
    /// The faces toward `d`.
    pub open spec fn faces_of(&self, d: Direction) -> Seq<Face> {
        match d {
            Direction::PositiveX => self.positive_x@,
            Direction::NegativeX => self.negative_x@,
            Direction::PositiveY => self.positive_y@,
            Direction::NegativeY => self.negative_y@,
            Direction::PositiveZ => self.positive_z@,
            Direction::NegativeZ => self.negative_z@,
        }
    }

    /// The faces toward `direction`.
    pub fn faces(&self, direction: Direction) -> (r: &Vec<Face>)
        ensures
            r@ == self.faces_of(direction),
    {
        match direction {
            Direction::PositiveX => &self.positive_x,
            Direction::NegativeX => &self.negative_x,
            Direction::PositiveY => &self.positive_y,
            Direction::NegativeY => &self.negative_y,
            Direction::PositiveZ => &self.positive_z,
            Direction::NegativeZ => &self.negative_z,
        }
    }
}

/// The coordinates next to `(x, y, z)` in direction `d`.
pub open spec fn step(x: int, y: int, z: int, d: Direction) -> (int, int, int) {
    match d {
        Direction::PositiveX => (x + 1, y, z),
        Direction::NegativeX => (x - 1, y, z),
        Direction::PositiveY => (x, y + 1, z),
        Direction::NegativeY => (x, y - 1, z),
        Direction::PositiveZ => (x, y, z + 1),
        Direction::NegativeZ => (x, y, z - 1),
    }
}

/// The block at `(x, y, z)` among blocks in storage order.
pub open spec fn block_in(blocks: Seq<Block>, x: int, y: int, z: int) -> Block {
    blocks[block_index(x, y, z)]
}

/// Whether the face toward `d` of the block at `p` is drawn: the block is solid, and
/// the position next to it that way lies outside the chunk or holds a block that is not solid.
pub open spec fn face_visible(blocks: Seq<Block>, p: Vector3<usize>, d: Direction) -> bool {
    let (nx, ny, nz) = step(p.x as int, p.y as int, p.z as int, d);
    block_in(blocks, p.x as int, p.y as int, p.z as int).is_solid()
        && (!in_bounds(nx, ny, nz) || !block_in(blocks, nx, ny, nz).is_solid())
}

/// No face is drawn against a solid block: where the position next to a block in
/// direction `d` lies inside the chunk and holds a solid block, the face toward `d` is hidden.
pub proof fn lemma_hidden_face(blocks: Seq<Block>, p: Vector3<usize>, d: Direction)
    requires
        ({
            let (nx, ny, nz) = step(p.x as int, p.y as int, p.z as int, d);
            in_bounds(nx, ny, nz) && block_in(blocks, nx, ny, nz).is_solid()
        }),
    ensures
        !face_visible(blocks, p, d),
{
}

/// The faces toward `d` drawn for the first `n` blocks, in storage order.
pub open spec fn faces_upto(blocks: Seq<Block>, d: Direction, n: nat) -> Seq<Face>
    decreases n,
{
    if n == 0 {
        Seq::empty()
    } else {
        let p = index_position(n - 1);
        let before = faces_upto(blocks, d, (n - 1) as nat);
        if face_visible(blocks, p, d) {
            before.push(Face { position: p, block: block_in(blocks, p.x as int, p.y as int, p.z as int) })
        } else {
            before
        }
    }
}

/// What the first `n` faces toward `d` are: each lies in the chunk among its first `n`
/// blocks, is visible and carries its block; they come in storage order, each once; and
/// every visible face among the first `n` blocks is there.
proof fn lemma_faces_upto_members(blocks: Seq<Block>, d: Direction, n: nat)
    requires
        n <= CHUNK_VOLUME,
    ensures
        forall|i: int|
            #![trigger faces_upto(blocks, d, n)[i]]
            0 <= i < faces_upto(blocks, d, n).len() ==> {
                let f = faces_upto(blocks, d, n)[i];
                let (x, y, z) = (f.position.x as int, f.position.y as int, f.position.z as int);
                &&& in_bounds(x, y, z)
                &&& block_index(x, y, z) < n
                &&& face_visible(blocks, f.position, d)
                &&& f.block == block_in(blocks, x, y, z)
            },
        forall|i: int, j: int|
            0 <= i < j < faces_upto(blocks, d, n).len() ==> block_index(
                #[trigger] faces_upto(blocks, d, n)[i].position.x as int,
                faces_upto(blocks, d, n)[i].position.y as int,
                faces_upto(blocks, d, n)[i].position.z as int,
            ) < block_index(
                #[trigger] faces_upto(blocks, d, n)[j].position.x as int,
                faces_upto(blocks, d, n)[j].position.y as int,
                faces_upto(blocks, d, n)[j].position.z as int,
            ),
        forall|m: int|
            0 <= m < n && #[trigger] face_visible(blocks, index_position(m), d) ==> faces_upto(blocks, d, n).contains(
                Face {
                    position: index_position(m),
                    block: block_in(blocks, index_position(m).x as int, index_position(m).y as int, index_position(m).z as int),
                },
            ),
    decreases n,
{
    lemma_index_roundtrip();
    if n > 0 {
        lemma_faces_upto_members(blocks, d, (n - 1) as nat);
        let before = faces_upto(blocks, d, (n - 1) as nat);
        let p = index_position(n - 1);
        if face_visible(blocks, p, d) {
            let f = Face { position: p, block: block_in(blocks, p.x as int, p.y as int, p.z as int) };
            assert(faces_upto(blocks, d, n) == before.push(f));
            assert(faces_upto(blocks, d, n)[before.len() as int] == f);
            assert forall|m: int| 0 <= m < n && #[trigger] face_visible(blocks, index_position(m), d) implies faces_upto(blocks, d, n).contains(
                Face {
                    position: index_position(m),
                    block: block_in(blocks, index_position(m).x as int, index_position(m).y as int, index_position(m).z as int),
                }) by {
                if m < n - 1 {
                    let g = Face {
                        position: index_position(m),
                        block: block_in(blocks, index_position(m).x as int, index_position(m).y as int, index_position(m).z as int),
                    };
                    let i = choose|i: int| 0 <= i < before.len() && before[i] == g;
                    assert(faces_upto(blocks, d, n)[i] == g);
                }
            }
        } else {
            assert forall|m: int| 0 <= m < n && #[trigger] face_visible(blocks, index_position(m), d) implies faces_upto(blocks, d, n).contains(
                Face {
                    position: index_position(m),
                    block: block_in(blocks, index_position(m).x as int, index_position(m).y as int, index_position(m).z as int),
                }) by {
                assert(m != n - 1);
            }
        }
    }
}

/// The faces listed toward `d` are exactly the chunk's visible faces in that direction,
/// each with its block, once and in storage order: a face at `(x, y, z)` is listed if and
/// only if the block there is solid and the position one step from it toward `d` (one
/// more or one less along the axis of `d`) lies outside the chunk or holds a block that
/// is not solid.
pub proof fn lemma_listed_faces_are_visible(blocks: Seq<Block>, d: Direction)
    ensures
        forall|f: Face|
            #[trigger] faces_upto(blocks, d, CHUNK_VOLUME as nat).contains(f) <==> {
                let (x, y, z) = (f.position.x as int, f.position.y as int, f.position.z as int);
                let (nx, ny, nz) = match d {
                    Direction::PositiveX => (x + 1, y, z),
                    Direction::NegativeX => (x - 1, y, z),
                    Direction::PositiveY => (x, y + 1, z),
                    Direction::NegativeY => (x, y - 1, z),
                    Direction::PositiveZ => (x, y, z + 1),
                    Direction::NegativeZ => (x, y, z - 1),
                };
                &&& in_bounds(x, y, z)
                &&& f.block == block_in(blocks, x, y, z)
                &&& f.block.is_solid()
                &&& (!in_bounds(nx, ny, nz) || !block_in(blocks, nx, ny, nz).is_solid())
            },
        forall|i: int, j: int|
            0 <= i < j < faces_upto(blocks, d, CHUNK_VOLUME as nat).len() ==> block_index(
                #[trigger] faces_upto(blocks, d, CHUNK_VOLUME as nat)[i].position.x as int,
                faces_upto(blocks, d, CHUNK_VOLUME as nat)[i].position.y as int,
                faces_upto(blocks, d, CHUNK_VOLUME as nat)[i].position.z as int,
            ) < block_index(
                #[trigger] faces_upto(blocks, d, CHUNK_VOLUME as nat)[j].position.x as int,
                faces_upto(blocks, d, CHUNK_VOLUME as nat)[j].position.y as int,
                faces_upto(blocks, d, CHUNK_VOLUME as nat)[j].position.z as int,
            ),
{
    lemma_faces_upto_members(blocks, d, CHUNK_VOLUME as nat);
    lemma_index_roundtrip();
    let faces = faces_upto(blocks, d, CHUNK_VOLUME as nat);
    assert forall|f: Face| #[trigger] faces.contains(f) implies face_visible(blocks, f.position, d)
        && in_bounds(f.position.x as int, f.position.y as int, f.position.z as int)
        && f.block == block_in(blocks, f.position.x as int, f.position.y as int, f.position.z as int) by {
        let i = choose|i: int| 0 <= i < faces.len() && faces[i] == f;
        assert(faces[i] == f);
    }
    assert forall|f: Face| in_bounds(f.position.x as int, f.position.y as int, f.position.z as int)
        && face_visible(blocks, f.position, d)
        && f.block == block_in(blocks, f.position.x as int, f.position.y as int, f.position.z as int)
        implies #[trigger] faces.contains(f) by {
        let m = block_index(f.position.x as int, f.position.y as int, f.position.z as int);
        assert(index_position(m) == f.position);
        assert(face_visible(blocks, index_position(m), d));
    }
}

/// A single chunk of blocks, with a flag that tells whether its mesh must be rebuilt.
pub struct Chunk {
    should_rebuild_chunks: bool,
    blocks: Vec<Block>,
}

impl Chunk {
    #[verifier::type_invariant]
    spec fn wf(self) -> bool {
        self.blocks.len() == CHUNK_VOLUME
    }

    /// The blocks of the chunk, in storage order (see `block_index`).
    pub closed spec fn view(&self) -> Seq<Block> {
        self.blocks@
    }

    /// Whether the chunk's mesh must be rebuilt before it is next drawn.
    pub closed spec fn should_rebuild(&self) -> bool {
        self.should_rebuild_chunks
    }

    /// The block at `(x, y, z)`, which must lie inside the chunk.
    pub open spec fn block_at(&self, x: int, y: int, z: int) -> Block {
        block_in(self@, x, y, z)
    }

    /// A chunk made entirely of air, whose mesh is yet to be built.
    pub fn new() -> (r: Self)
        ensures
            r@.len() == CHUNK_VOLUME,
            forall|i: int| 0 <= i < CHUNK_VOLUME ==> #[trigger] r@[i] == Block::Air,
            r.should_rebuild(),
    {
        let mut blocks: Vec<Block> = Vec::new();
        let mut i: usize = 0;
        while i < CHUNK_VOLUME
            invariant
                i <= CHUNK_VOLUME,
                blocks.len() == i,
                forall|j: int| 0 <= j < i ==> #[trigger] blocks@[j] == Block::Air,
            decreases CHUNK_VOLUME - i,
        {
            blocks.push(Block::Air);
            i = i + 1;
        }
        Chunk { should_rebuild_chunks: true, blocks }
    }

    /// The block at `(x, y, z)`, or `None` when the coordinates lie outside the chunk.
    pub fn get_block(&self, x: usize, y: usize, z: usize) -> (r: Option<&Block>)
        ensures
            self@.len() == CHUNK_VOLUME,
            r is Some <==> in_bounds(x as int, y as int, z as int),
            r matches Some(b) ==> *b == self.block_at(x as int, y as int, z as int),
    {
        proof { use_type_invariant(self); }
        if x < CHUNK_SIZE && y < CHUNK_SIZE && z < CHUNK_SIZE {
            Some(&self.blocks[x + y * CHUNK_SIZE + z * CHUNK_SIZE * CHUNK_SIZE])
        } else {
            None
        }
    }

    /// A mutable reference to the block at `(x, y, z)`, or `None` when the coordinates lie
    /// outside the chunk. When they lie inside, the chunk's mesh is marked for rebuilding,
    /// and writing through the reference changes that block and no other.
    pub fn get_block_mut(&mut self, x: usize, y: usize, z: usize) -> (r: Option<&mut Block>)
        ensures
            old(self)@.len() == CHUNK_VOLUME,
            final(self)@.len() == CHUNK_VOLUME,
            r is Some <==> in_bounds(x as int, y as int, z as int),
            r matches Some(b) ==> *b == old(self).block_at(x as int, y as int, z as int)
                && final(self)@ == old(self)@.update(block_index(x as int, y as int, z as int), *final(b))
                && final(self).should_rebuild(),
            r is None ==> final(self)@ == old(self)@ && final(self).should_rebuild() == old(self).should_rebuild(),
    {
        proof { use_type_invariant(&*self); }
        if x < CHUNK_SIZE && y < CHUNK_SIZE && z < CHUNK_SIZE {
            self.should_rebuild_chunks = true;
            Some(&mut self.blocks[x + y * CHUNK_SIZE + z * CHUNK_SIZE * CHUNK_SIZE])
        } else {
            None
        }
    }

    /// Whether the neighbour of the block at `(x, y, z)` toward `direction` leaves that
    /// face uncovered: it lies outside the chunk, or it is not solid toward the face.
    fn uncovered_toward(&self, x: usize, y: usize, z: usize, direction: Direction) -> (r: bool)
        requires
            in_bounds(x as int, y as int, z as int),
        ensures
            ({
                let (nx, ny, nz) = step(x as int, y as int, z as int, direction);
                r == (!in_bounds(nx, ny, nz) || !self.block_at(nx, ny, nz).is_solid())
            }),
    {
        let (nx, ny, nz, opposite) = match direction {
            Direction::PositiveX => (x.wrapping_add(1), y, z, Direction::NegativeX),
            Direction::NegativeX => (x.wrapping_sub(1), y, z, Direction::PositiveX),
            Direction::PositiveY => (x, y.wrapping_add(1), z, Direction::NegativeY),
            Direction::NegativeY => (x, y.wrapping_sub(1), z, Direction::PositiveY),
            Direction::PositiveZ => (x, y, z.wrapping_add(1), Direction::NegativeZ),
            Direction::NegativeZ => (x, y, z.wrapping_sub(1), Direction::PositiveZ),
        };
        match self.get_block(nx, ny, nz) {
            Some(block) => !block.soild_in_direction(opposite),
            None => true,
        }
    }

    /// When the chunk's mesh must be rebuilt, clears that mark and returns the faces the
    /// mesh draws, one list per direction in storage order of the blocks; otherwise
    /// returns `None` and leaves the chunk as it is.
    pub fn pre_render(&mut self) -> (r: Option<ChunkFaces>)
        ensures
            final(self)@ == old(self)@,
            !final(self).should_rebuild(),
            r is Some <==> old(self).should_rebuild(),
            r matches Some(faces) ==> forall|d: Direction|
                #[trigger] faces.faces_of(d) == faces_upto(old(self)@, d, CHUNK_VOLUME as nat),
    {
        proof { use_type_invariant(&*self); }
        if !self.should_rebuild_chunks {
            return None;
        }
        self.should_rebuild_chunks = false;
        let mut positive_x: Vec<Face> = Vec::new();
        let mut negative_x: Vec<Face> = Vec::new();
        let mut positive_y: Vec<Face> = Vec::new();
        let mut negative_y: Vec<Face> = Vec::new();
        let mut positive_z: Vec<Face> = Vec::new();
        let mut negative_z: Vec<Face> = Vec::new();
        proof { lemma_index_roundtrip(); }
        let mut index: usize = 0;
        while index < CHUNK_VOLUME
            invariant
                index <= CHUNK_VOLUME,
                self@ == old(self)@,
                positive_x@ == faces_upto(self@, Direction::PositiveX, index as nat),
                negative_x@ == faces_upto(self@, Direction::NegativeX, index as nat),
                positive_y@ == faces_upto(self@, Direction::PositiveY, index as nat),
                negative_y@ == faces_upto(self@, Direction::NegativeY, index as nat),
                positive_z@ == faces_upto(self@, Direction::PositiveZ, index as nat),
                negative_z@ == faces_upto(self@, Direction::NegativeZ, index as nat),
                forall|i: int|
                    #![trigger index_position(i)]
                    0 <= i < CHUNK_VOLUME ==> in_bounds(index_position(i).x as int, index_position(i).y as int, index_position(i).z as int)
                        && block_index(index_position(i).x as int, index_position(i).y as int, index_position(i).z as int) == i,
            decreases CHUNK_VOLUME - index,
        {
            let x = index % 16;
            let y = (index / 16) % 16;
            let z = index / 256;
            let p = Vector3 { x, y, z };
            assert(p == index_position(index as int));
            let block = match self.get_block(x, y, z) {
                Some(b) => *b,
                None => {
                    assert(false);
                    Block::Air
                },
            };
            let solid = block.soild_in_direction(Direction::PositiveX);
            if solid && self.uncovered_toward(x, y, z, Direction::PositiveX) {
                positive_x.push(Face { position: p, block });
            }
            if solid && self.uncovered_toward(x, y, z, Direction::NegativeX) {
                negative_x.push(Face { position: p, block });
            }
            if solid && self.uncovered_toward(x, y, z, Direction::PositiveY) {
                positive_y.push(Face { position: p, block });
            }
            if solid && self.uncovered_toward(x, y, z, Direction::NegativeY) {
                negative_y.push(Face { position: p, block });
            }
            if solid && self.uncovered_toward(x, y, z, Direction::PositiveZ) {
                positive_z.push(Face { position: p, block });
            }
            if solid && self.uncovered_toward(x, y, z, Direction::NegativeZ) {
                negative_z.push(Face { position: p, block });
            }
            index = index + 1;
        }
        let r = ChunkFaces { positive_x, negative_x, positive_y, negative_y, positive_z, negative_z };
        assert forall|d: Direction| #[trigger] r.faces_of(d) == faces_upto(old(self)@, d, CHUNK_VOLUME as nat) by {
            match d {
                Direction::PositiveX => {},
                Direction::NegativeX => {},
                Direction::PositiveY => {},
                Direction::NegativeY => {},
                Direction::PositiveZ => {},
                Direction::NegativeZ => {},
            }
        }
        Some(r)
    }
}

} // verus!
