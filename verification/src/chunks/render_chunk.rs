use vstd::prelude::*;

use crate::chunks::{
    block_index, chunk_key, in_chunk, index_position, key_of, lemma_index_roundtrip, local_position, Block,
    ChunkKey, Chunks, Direction, CHUNK_VOLUME,
};
use crate::vector::Vector3;

verus! {

/// A block face that a chunk mesh draws: the position of the block inside its chunk,
/// and the block, whose kind gives the face its colour.
#[derive(Debug, Clone, Copy, PartialEq, Eq)]
pub struct Face {
    pub position: Vector3<u64>,
    pub block: Block,
}

/// Whether a chunk's mesh can be built without its world coordinates, or those of the
/// blocks next to it, leaving the range of `i64`.
pub open spec fn renderable(k: ChunkKey) -> bool {
    -0x0800_0000_0000_0000 < k.0 < 0x07ff_ffff_ffff_ffff
        && -0x0800_0000_0000_0000 < k.1 < 0x07ff_ffff_ffff_ffff
        && -0x0800_0000_0000_0000 < k.2 < 0x07ff_ffff_ffff_ffff
}

/// Whether the mesh of the chunk at `chunk_position` can be built (see `renderable`).
pub fn renderable_position(chunk_position: Vector3<i64>) -> (r: bool)
    ensures
        r == renderable(key_of(chunk_position)),
{
    -0x0800_0000_0000_0000 < chunk_position.x && chunk_position.x < 0x07ff_ffff_ffff_ffff
        && -0x0800_0000_0000_0000 < chunk_position.y && chunk_position.y < 0x07ff_ffff_ffff_ffff
        && -0x0800_0000_0000_0000 < chunk_position.z && chunk_position.z < 0x07ff_ffff_ffff_ffff
}

/// The world position of the block at `p` inside the chunk `k`.
pub open spec fn world_position(k: ChunkKey, p: Vector3<u64>) -> Vector3<i64> {
    Vector3 { x: (k.0 * 16 + p.x) as i64, y: (k.1 * 16 + p.y) as i64, z: (k.2 * 16 + p.z) as i64 }
}

/// The world position next to `w` in direction `d`.
pub open spec fn neighbour(w: Vector3<i64>, d: Direction) -> Vector3<i64> {
    match d {
        Direction::PositiveX => Vector3 { x: (w.x + 1) as i64, y: w.y, z: w.z },
        Direction::NegativeX => Vector3 { x: (w.x - 1) as i64, y: w.y, z: w.z },
        Direction::PositiveY => Vector3 { x: w.x, y: (w.y + 1) as i64, z: w.z },
        Direction::NegativeY => Vector3 { x: w.x, y: (w.y - 1) as i64, z: w.z },
        Direction::PositiveZ => Vector3 { x: w.x, y: w.y, z: (w.z + 1) as i64 },
        Direction::NegativeZ => Vector3 { x: w.x, y: w.y, z: (w.z - 1) as i64 },
    }
}

/// Whether the face toward `d` of the block at `p` in chunk `k` is drawn: the block is
/// solid, and the block next to it in that direction is either not loaded or not solid.
pub open spec fn face_visible(chunks: Chunks, k: ChunkKey, p: Vector3<u64>, d: Direction) -> bool {
    match chunks.block_at(world_position(k, p)) {
        Some(b) => b.is_solid() && match chunks.block_at(neighbour(world_position(k, p), d)) {
            Some(n) => !n.is_solid(),
            None => true,
        },
        None => false,
    }
}

/// The faces toward `d` drawn for the first `n` blocks of chunk `k`, in storage order.
pub open spec fn faces_upto(chunks: Chunks, k: ChunkKey, d: Direction, n: nat) -> Seq<Face>
    decreases n,
{
    if n == 0 {
        Seq::empty()
    } else {
        let p = index_position(n - 1);
        let before = faces_upto(chunks, k, d, (n - 1) as nat);
        if face_visible(chunks, k, p, d) {
            before.push(Face { position: p, block: chunks.block_at(world_position(k, p))->Some_0 })
        } else {
            before
        }
    }
}

/// No face is drawn against a solid block: where the block next to a block in direction
/// `d` is loaded and solid, the face toward `d` is hidden.
pub proof fn lemma_hidden_face(chunks: Chunks, k: ChunkKey, p: Vector3<u64>, d: Direction)
    requires
        chunks.block_at(neighbour(world_position(k, p), d)) matches Some(n) && n.is_solid(),
    ensures
        !face_visible(chunks, k, p, d),
{
}

/// The faces a chunk's mesh draws, one list per direction.
pub struct ChunkFaces {
    pub positive_x: Vec<Face>,
    pub negative_x: Vec<Face>,
    pub positive_y: Vec<Face>,
    pub negative_y: Vec<Face>,
    pub positive_z: Vec<Face>,
    pub negative_z: Vec<Face>,
}

impl ChunkFaces {
    /// The faces toward `d`.
    pub open spec fn faces_of(&self, d: Direction) -> Seq<Face> {
        match d {
            Direction::PositiveX => self.positive_x@,
            Direction::NegativeX => self.negative_x@,
            Direction::PositiveY => self.positive_y@,
            Direction::NegativeY => self.negative_y@,
            Direction::PositiveZ => self.positive_z@,
            Direction::NegativeZ => self.negative_z@,
        }
    }

    /// The faces toward `direction`.
    pub fn faces(&self, direction: Direction) -> (r: &Vec<Face>)
        ensures
            r@ == self.faces_of(direction),
    {
        match direction {
            Direction::PositiveX => &self.positive_x,
            Direction::NegativeX => &self.negative_x,
            Direction::PositiveY => &self.positive_y,
            Direction::NegativeY => &self.negative_y,
            Direction::PositiveZ => &self.positive_z,
            Direction::NegativeZ => &self.negative_z,
        }
    }

    /// Whether no face is drawn in any direction.
    pub fn is_empty(&self) -> (r: bool)
        ensures
            r == (self.positive_x.len() == 0 && self.negative_x.len() == 0 && self.positive_y.len() == 0
                && self.negative_y.len() == 0 && self.positive_z.len() == 0 && self.negative_z.len() == 0),
    {
        self.positive_x.len() == 0 && self.negative_x.len() == 0 && self.positive_y.len() == 0
            && self.negative_y.len() == 0 && self.positive_z.len() == 0 && self.negative_z.len() == 0
    }
}

/// A chunk coordinate and an offset inside the chunk are recovered from the world coordinate they make.
proof fn lemma_split(a: int, b: int)
    requires
        -0x0800_0000_0000_0000 < a < 0x07ff_ffff_ffff_ffff,
        0 <= b < 16,
    ensures
        (a * 16 + b) / 16 == a,
        (a * 16 + b) % 16 == b,
        i64::MIN < a * 16 + b < i64::MAX,
{
    assert((a * 16 + b) / 16 == a && (a * 16 + b) % 16 == b) by (nonlinear_arith)
        requires 0 <= b < 16;
}

/// The world position of a block of a renderable chunk lies in that chunk, at that place.
proof fn lemma_world_position(k: ChunkKey, p: Vector3<u64>)
    requires
        renderable(k),
        in_chunk(p),
    ensures
        chunk_key(world_position(k, p)) == k,
        local_position(world_position(k, p)) == p,
        world_position(k, p).x == k.0 * 16 + p.x,
        world_position(k, p).y == k.1 * 16 + p.y,
        world_position(k, p).z == k.2 * 16 + p.z,
        i64::MIN < k.0 * 16 + p.x < i64::MAX,
        i64::MIN < k.1 * 16 + p.y < i64::MAX,
        i64::MIN < k.2 * 16 + p.z < i64::MAX,
{
    lemma_split(k.0 as int, p.x as int);
    lemma_split(k.1 as int, p.y as int);
    lemma_split(k.2 as int, p.z as int);
}

/// What the first `n` faces toward `d` of chunk `k` are: each lies in the chunk among its
/// first `n` blocks, is visible and carries its block; they come in storage order, each
/// once; and every visible face among the first `n` blocks is there.
proof fn lemma_faces_upto_members(chunks: Chunks, k: ChunkKey, d: Direction, n: nat)
    requires
        n <= CHUNK_VOLUME,
    ensures
        forall|i: int|
            #![trigger faces_upto(chunks, k, d, n)[i]]
            0 <= i < faces_upto(chunks, k, d, n).len() ==> {
                let f = faces_upto(chunks, k, d, n)[i];
                &&& in_chunk(f.position)
                &&& block_index(f.position) < n
                &&& face_visible(chunks, k, f.position, d)
                &&& chunks.block_at(world_position(k, f.position)) == Some(f.block)
            },
        forall|i: int, j: int|
            0 <= i < j < faces_upto(chunks, k, d, n).len() ==> block_index(#[trigger] faces_upto(chunks, k, d, n)[i].position)
                < block_index(#[trigger] faces_upto(chunks, k, d, n)[j].position),
        forall|m: int|
            0 <= m < n && #[trigger] face_visible(chunks, k, index_position(m), d) ==> faces_upto(chunks, k, d, n).contains(
                Face { position: index_position(m), block: chunks.block_at(world_position(k, index_position(m)))->Some_0 },
            ),
    decreases n,
{
    lemma_index_roundtrip();
    if n > 0 {
        lemma_faces_upto_members(chunks, k, d, (n - 1) as nat);
        let before = faces_upto(chunks, k, d, (n - 1) as nat);
        let p = index_position(n - 1);
        if face_visible(chunks, k, p, d) {
            let f = Face { position: p, block: chunks.block_at(world_position(k, p))->Some_0 };
            assert(faces_upto(chunks, k, d, n) == before.push(f));
            assert(faces_upto(chunks, k, d, n)[before.len() as int] == f);
            assert forall|m: int| 0 <= m < n && #[trigger] face_visible(chunks, k, index_position(m), d) implies faces_upto(chunks, k, d, n).contains(
                Face { position: index_position(m), block: chunks.block_at(world_position(k, index_position(m)))->Some_0 }) by {
                if m < n - 1 {
                    let g = Face { position: index_position(m), block: chunks.block_at(world_position(k, index_position(m)))->Some_0 };
                    let i = choose|i: int| 0 <= i < before.len() && before[i] == g;
                    assert(faces_upto(chunks, k, d, n)[i] == g);
                }
            }
        } else {
            assert forall|m: int| 0 <= m < n && #[trigger] face_visible(chunks, k, index_position(m), d) implies faces_upto(chunks, k, d, n).contains(
                Face { position: index_position(m), block: chunks.block_at(world_position(k, index_position(m)))->Some_0 }) by {
                assert(m != n - 1);
            }
        }
    }
}

/// The faces listed toward `d` for a renderable chunk `k` are exactly its visible faces
/// in that direction, each with its block, once and in storage order: a face at `p` is
/// listed if and only if the block at `p` is solid and the block one step from it toward
/// `d` (one more or one less along the axis of `d`, possibly in a neighbouring chunk) is
/// not loaded or not solid.
pub proof fn lemma_listed_faces_are_visible(chunks: Chunks, k: ChunkKey, d: Direction)
    requires
        renderable(k),
    ensures
        forall|f: Face|
            #[trigger] faces_upto(chunks, k, d, CHUNK_VOLUME as nat).contains(f) <==> {
                let (x, y, z) = (k.0 * 16 + f.position.x, k.1 * 16 + f.position.y, k.2 * 16 + f.position.z);
                let next = match d {
                    Direction::PositiveX => Vector3 { x: (x + 1) as i64, y: y as i64, z: z as i64 },
                    Direction::NegativeX => Vector3 { x: (x - 1) as i64, y: y as i64, z: z as i64 },
                    Direction::PositiveY => Vector3 { x: x as i64, y: (y + 1) as i64, z: z as i64 },
                    Direction::NegativeY => Vector3 { x: x as i64, y: (y - 1) as i64, z: z as i64 },
                    Direction::PositiveZ => Vector3 { x: x as i64, y: y as i64, z: (z + 1) as i64 },
                    Direction::NegativeZ => Vector3 { x: x as i64, y: y as i64, z: (z - 1) as i64 },
                };
                &&& in_chunk(f.position)
                &&& chunks.block_at(Vector3 { x: x as i64, y: y as i64, z: z as i64 }) == Some(f.block)
                &&& f.block.is_solid()
                &&& !(chunks.block_at(next) matches Some(n) && n.is_solid())
            },
        forall|i: int, j: int|
            0 <= i < j < faces_upto(chunks, k, d, CHUNK_VOLUME as nat).len() ==> block_index(
                #[trigger] faces_upto(chunks, k, d, CHUNK_VOLUME as nat)[i].position,
            ) < block_index(#[trigger] faces_upto(chunks, k, d, CHUNK_VOLUME as nat)[j].position),
{
    lemma_faces_upto_members(chunks, k, d, CHUNK_VOLUME as nat);
    lemma_index_roundtrip();
    let faces = faces_upto(chunks, k, d, CHUNK_VOLUME as nat);
    assert forall|f: Face| #[trigger] faces.contains(f) implies face_visible(chunks, k, f.position, d) && in_chunk(f.position)
        && chunks.block_at(world_position(k, f.position)) == Some(f.block) by {
        let i = choose|i: int| 0 <= i < faces.len() && faces[i] == f;
        assert(faces[i] == f);
    }
    assert forall|f: Face| in_chunk(f.position) && face_visible(chunks, k, f.position, d)
        && chunks.block_at(world_position(k, f.position)) == Some(f.block) implies #[trigger] faces.contains(f) by {
        let m = block_index(f.position);
        assert(index_position(m) == f.position);
        assert(face_visible(chunks, k, index_position(m), d));
    }
    assert forall|f: Face| in_chunk(f.position) implies {
        let w = world_position(k, f.position);
        &&& w == (Vector3 { x: (k.0 * 16 + f.position.x) as i64, y: (k.1 * 16 + f.position.y) as i64, z: (k.2 * 16 + f.position.z) as i64 })
        &&& i64::MIN < w.x < i64::MAX && i64::MIN < w.y < i64::MAX && i64::MIN < w.z < i64::MAX
        &&& w.x == k.0 * 16 + f.position.x && w.y == k.1 * 16 + f.position.y && w.z == k.2 * 16 + f.position.z
    } by {
        lemma_world_position(k, f.position);
    }
}

/// Whether the block next to world position `world` in direction `direction` leaves the
/// face toward it uncovered: it is not loaded, or it is not solid toward the face.
fn uncovered_toward(chunks: &Chunks, world: Vector3<i64>, direction: Direction) -> (r: bool)
    requires
        chunks.wf(),
        i64::MIN < world.x < i64::MAX,
        i64::MIN < world.y < i64::MAX,
        i64::MIN < world.z < i64::MAX,
    ensures
        r == match chunks.block_at(neighbour(world, direction)) {
            Some(n) => !n.is_solid(),
            None => true,
        },
{
    let (next, opposite) = match direction {
        Direction::PositiveX => (Vector3 { x: world.x + 1, y: world.y, z: world.z }, Direction::NegativeX),
        Direction::NegativeX => (Vector3 { x: world.x - 1, y: world.y, z: world.z }, Direction::PositiveX),
        Direction::PositiveY => (Vector3 { x: world.x, y: world.y + 1, z: world.z }, Direction::NegativeY),
        Direction::NegativeY => (Vector3 { x: world.x, y: world.y - 1, z: world.z }, Direction::PositiveY),
        Direction::PositiveZ => (Vector3 { x: world.x, y: world.y, z: world.z + 1 }, Direction::NegativeZ),
        Direction::NegativeZ => (Vector3 { x: world.x, y: world.y, z: world.z - 1 }, Direction::PositiveZ),
    };
    assert(next == neighbour(world, direction));
    match chunks.get_block(next) {
        Some(block) => !block.soild_in_direction(opposite),
        None => true,
    }
}

/// The faces of the loaded chunk at `chunk_position` that its mesh draws, one list per
/// direction, each in storage order of the blocks: a block's face toward a direction is
/// drawn when the block is solid and the block next to it that way, which may lie in
/// another chunk, is not loaded or not solid.
pub fn chunk_faces(chunks: &Chunks, chunk_position: Vector3<i64>) -> (r: ChunkFaces)
    requires
        chunks.wf(),
        chunks@.contains_key(key_of(chunk_position)),
        renderable(key_of(chunk_position)),
    ensures
        forall|d: Direction| #[trigger] r.faces_of(d) == faces_upto(*chunks, key_of(chunk_position), d, CHUNK_VOLUME as nat),
{
    let ghost k = key_of(chunk_position);
    let base = Vector3 { x: chunk_position.x * 16, y: chunk_position.y * 16, z: chunk_position.z * 16 };
    let mut positive_x: Vec<Face> = Vec::new();
    let mut negative_x: Vec<Face> = Vec::new();
    let mut positive_y: Vec<Face> = Vec::new();
    let mut negative_y: Vec<Face> = Vec::new();
    let mut positive_z: Vec<Face> = Vec::new();
    let mut negative_z: Vec<Face> = Vec::new();
    proof { lemma_index_roundtrip(); }
    let mut index: usize = 0;
    while index < CHUNK_VOLUME
        invariant
            chunks.wf(),
            k == key_of(chunk_position),
            chunks@.contains_key(k),
            renderable(k),
            base.x == k.0 * 16 && base.y == k.1 * 16 && base.z == k.2 * 16,
            index <= CHUNK_VOLUME,
            positive_x@ == faces_upto(*chunks, k, Direction::PositiveX, index as nat),
            negative_x@ == faces_upto(*chunks, k, Direction::NegativeX, index as nat),
            positive_y@ == faces_upto(*chunks, k, Direction::PositiveY, index as nat),
            negative_y@ == faces_upto(*chunks, k, Direction::NegativeY, index as nat),
            positive_z@ == faces_upto(*chunks, k, Direction::PositiveZ, index as nat),
            negative_z@ == faces_upto(*chunks, k, Direction::NegativeZ, index as nat),
            forall|i: int|
                #![trigger index_position(i)]
                0 <= i < CHUNK_VOLUME ==> in_chunk(index_position(i)) && block_index(index_position(i)) == i,
        decreases CHUNK_VOLUME - index,
    {
        let p = Vector3 { x: (index % 16) as u64, y: ((index / 16) % 16) as u64, z: (index / 256) as u64 };
        assert(p == index_position(index as int));
        proof { lemma_world_position(k, p); }
        let world = Vector3 { x: base.x + p.x as i64, y: base.y + p.y as i64, z: base.z + p.z as i64 };
        assert(world == world_position(k, p));
        let block = match chunks.get_block(world) {
            Some(b) => *b,
            None => {
                assert(false);
                Block::Air
            },
        };
        assert(chunks.block_at(world) == Some(block));
        let solid = block.soild_in_direction(Direction::PositiveX);
        if solid && uncovered_toward(chunks, world, Direction::PositiveX) {
            positive_x.push(Face { position: p, block });
        }
        if solid && uncovered_toward(chunks, world, Direction::NegativeX) {
            negative_x.push(Face { position: p, block });
        }
        if solid && uncovered_toward(chunks, world, Direction::PositiveY) {
            positive_y.push(Face { position: p, block });
        }
        if solid && uncovered_toward(chunks, world, Direction::NegativeY) {
            negative_y.push(Face { position: p, block });
        }
        if solid && uncovered_toward(chunks, world, Direction::PositiveZ) {
            positive_z.push(Face { position: p, block });
        }
        if solid && uncovered_toward(chunks, world, Direction::NegativeZ) {
            negative_z.push(Face { position: p, block });
        }
        index = index + 1;
    }
    let r = ChunkFaces { positive_x, negative_x, positive_y, negative_y, positive_z, negative_z };
    assert forall|d: Direction| #[trigger] r.faces_of(d) == faces_upto(*chunks, k, d, CHUNK_VOLUME as nat) by {
        match d {
            Direction::PositiveX => {},
            Direction::NegativeX => {},
            Direction::PositiveY => {},
            Direction::NegativeY => {},
            Direction::PositiveZ => {},
            Direction::NegativeZ => {},
        }
    }
    r
}

/// Whether the loaded chunk `k` draws no face in any direction.
pub open spec fn mesh_empty(chunks: Chunks, k: ChunkKey) -> bool {
    forall|d: Direction| #[trigger] faces_upto(chunks, k, d, CHUNK_VOLUME as nat).len() == 0
}

/// What becomes of the mesh of a chunk whose mesh may have changed.
pub enum MeshUpdate {
    /// The chunk is not loaded, or draws no face: its mesh is dropped.
    Remove,
    /// The chunk's mesh is rebuilt from these faces, of which there is at least one.
    Rebuild(ChunkFaces),
}

/// Decides the mesh of the chunk at `chunk_position`: it is dropped when the chunk is not
/// loaded or draws no face, and otherwise rebuilt from the chunk's faces.
pub fn mesh_update(chunks: &Chunks, chunk_position: Vector3<i64>) -> (r: MeshUpdate)
    requires
        chunks.wf(),
        chunks@.contains_key(key_of(chunk_position)) ==> renderable(key_of(chunk_position)),
    ensures
        (r is Remove) <==> (!chunks@.contains_key(key_of(chunk_position)) || mesh_empty(*chunks, key_of(chunk_position))),
        (r is Remove) <==> (!chunks@.contains_key(key_of(chunk_position)) || forall|d: Direction, p: Vector3<u64>|
            in_chunk(p) ==> !#[trigger] face_visible(*chunks, key_of(chunk_position), p, d)),
        r matches MeshUpdate::Rebuild(faces) ==> forall|d: Direction| #[trigger] faces.faces_of(d)
            == faces_upto(*chunks, key_of(chunk_position), d, CHUNK_VOLUME as nat),
{
    if !chunks.contains_chunk(chunk_position) {
        return MeshUpdate::Remove;
    }
    let faces = chunk_faces(chunks, chunk_position);
    let ghost k = key_of(chunk_position);
    if faces.is_empty() {
        assert forall|d: Direction| #[trigger] faces_upto(*chunks, k, d, CHUNK_VOLUME as nat).len() == 0 by {
            assert(faces.faces_of(d) == faces_upto(*chunks, k, d, CHUNK_VOLUME as nat));
        }
        assert forall|d: Direction, p: Vector3<u64>| in_chunk(p) implies !#[trigger] face_visible(*chunks, k, p, d) by {
            lemma_faces_upto_members(*chunks, k, d, CHUNK_VOLUME as nat);
            lemma_index_roundtrip();
            assert(index_position(block_index(p)) == p);
            if face_visible(*chunks, k, p, d) {
                assert(face_visible(*chunks, k, index_position(block_index(p)), d));
                assert(faces_upto(*chunks, k, d, CHUNK_VOLUME as nat).len() == 0);
            }
        }
        MeshUpdate::Remove
    } else {
        assert(!mesh_empty(*chunks, k)) by {
            assert(faces.faces_of(Direction::PositiveX) == faces_upto(*chunks, k, Direction::PositiveX, CHUNK_VOLUME as nat));
            assert(faces.faces_of(Direction::NegativeX) == faces_upto(*chunks, k, Direction::NegativeX, CHUNK_VOLUME as nat));
            assert(faces.faces_of(Direction::PositiveY) == faces_upto(*chunks, k, Direction::PositiveY, CHUNK_VOLUME as nat));
            assert(faces.faces_of(Direction::NegativeY) == faces_upto(*chunks, k, Direction::NegativeY, CHUNK_VOLUME as nat));
            assert(faces.faces_of(Direction::PositiveZ) == faces_upto(*chunks, k, Direction::PositiveZ, CHUNK_VOLUME as nat));
            assert(faces.faces_of(Direction::NegativeZ) == faces_upto(*chunks, k, Direction::NegativeZ, CHUNK_VOLUME as nat));
        }
        let ghost d = choose|d: Direction| #[trigger] faces_upto(*chunks, k, d, CHUNK_VOLUME as nat).len() != 0;
        proof {
            lemma_faces_upto_members(*chunks, k, d, CHUNK_VOLUME as nat);
            let f = faces_upto(*chunks, k, d, CHUNK_VOLUME as nat)[0];
            assert(in_chunk(f.position) && face_visible(*chunks, k, f.position, d));
        }
        MeshUpdate::Rebuild(faces)
    }
}

/// The place of a direction among the six, in the order the mesh's vertex ranges use.
pub open spec fn direction_index(d: Direction) -> u32 {
    match d {
        Direction::PositiveX => 0,
        Direction::NegativeX => 1,
        Direction::PositiveY => 2,
        Direction::NegativeY => 3,
        Direction::PositiveZ => 4,
        Direction::NegativeZ => 5,
    }
}

/// The range of vertices, as start and end, that draws the faces toward `direction`:
/// each direction owns eight vertex slots, of which a face uses the first four.
pub fn draw_vertices(direction: Direction) -> (r: (u32, u32))
    ensures
        r.0 == 8 * direction_index(direction),
        r.1 == 8 * direction_index(direction) + 4,
{
    let index: u32 = match direction {
        Direction::PositiveX => 0,
        Direction::NegativeX => 1,
        Direction::PositiveY => 2,
        Direction::NegativeY => 3,
        Direction::PositiveZ => 4,
        Direction::NegativeZ => 5,
    };
    assert((index << 3u32) == 8 * index && ((index << 3u32) | 4u32) == 8 * index + 4) by (bit_vector)
        requires index < 6u32;
    (index << 3, (index << 3) | 4)
}

} // verus!
