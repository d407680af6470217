//! Model asset reader: the asset header and the descriptor of each mesh.
use vstd::prelude::*;
use crate::bytes::{fits, le_u8, le_u16, le_u32, read_u8, read_u16, read_u32};
use crate::error::FormatError;

verus! {

/// Size of one weight record: four primary joint bytes and two secondary ones
/// among weight fractions.
pub const WEIGHT_STRIDE: u64 = 12;

/// The properties bit that marks high-resolution vertex positions.
pub const HIGH_RESOLUTION_FLAG: u8 = 8;

/// The asset property bit that marks a weighted asset.
pub const WEIGHTED_ASSET_FLAG: u32 = 8;

/// Vertex position record size for the given properties byte.
pub open spec fn vertex_stride(properties: u8) -> int {
    if properties & HIGH_RESOLUTION_FLAG == HIGH_RESOLUTION_FLAG {
        12
    } else {
        8
    }
}

/// Offset of the pointer to the sub-descriptor pointer of the mesh at `pos`.
pub open spec fn mesh_sub_pointer(b: Seq<u8>, pos: int) -> int {
    le_u32(b, pos + 0x2C)
}

/// Offset of the sub-descriptor of the mesh at `pos`: two dereferences.
pub open spec fn mesh_sub_offset(b: Seq<u8>, pos: int) -> int {
    le_u32(b, mesh_sub_pointer(b, pos))
}

/// Every field of the mesh record at `pos` and of its sub-descriptor is readable.
pub open spec fn mesh_ok(b: Seq<u8>, pos: int) -> bool {
    &&& fits(b, pos, 0x30)
    &&& fits(b, mesh_sub_pointer(b, pos), 4)
    &&& fits(b, mesh_sub_offset(b, pos), 0x34)
}

/// The descriptor of the mesh record at `pos`.
pub open spec fn mesh_at(b: Seq<u8>, pos: int) -> Mesh {
    let sub = mesh_sub_offset(b, pos);
    let properties = le_u8(b, sub + 5) as u8;
    let vertex_count = le_u32(b, sub + 0x2C);
    let vertex_offset = le_u32(b, sub + 0x30);
    Mesh {
        main_type: le_u16(b, pos + 2) as u16,
        sub_type: le_u8(b, pos + 4) as u8,
        sub_offset: sub as u64,
        properties,
        vertex_count: vertex_count as u32,
        vertex_offset: vertex_offset as u64,
        weights_offset: (vertex_offset + vertex_count * vertex_stride(properties)) as u64,
    }
}

/// The descriptor of one mesh of a model asset.
#[derive(Debug, Clone, Copy, PartialEq, Eq, Structural)]
pub struct Mesh {
    pub main_type: u16,
    pub sub_type: u8,
    pub sub_offset: u64,
    pub properties: u8,
    pub vertex_count: u32,
    pub vertex_offset: u64,
    pub weights_offset: u64,
}

impl Mesh {
    /// The mesh uses per-vertex bone weights.
    pub open spec fn spec_is_weighted_mesh(&self) -> bool {
        self.main_type == 2 && self.sub_type == 2
    }

    /// The mesh's weight records lie inside `b`.
    pub open spec fn weights_fit(&self, b: Seq<u8>) -> bool {
        fits(b, self.weights_offset as int, WEIGHT_STRIDE * self.vertex_count)
    }

    pub fn new() -> (r: Mesh)
        ensures
            r == (Mesh {
                main_type: 0,
                sub_type: 0,
                sub_offset: 0,
                properties: 0,
                vertex_count: 0,
                vertex_offset: 0,
                weights_offset: 0,
            }),
    {
        Mesh {
            main_type: 0,
            sub_type: 0,
            sub_offset: 0,
            properties: 0,
            vertex_count: 0,
            vertex_offset: 0,
            weights_offset: 0,
        }
    }

    /// Reads the mesh record at `position`.
    pub fn from_buffer(buffer: &Vec<u8>, position: usize) -> (r: Result<Mesh, FormatError>)
        ensures
            mesh_ok(buffer@, position as int) ==> r == Ok::<Mesh, FormatError>(
                mesh_at(buffer@, position as int),
            ),
            !mesh_ok(buffer@, position as int) ==> r == Err::<Mesh, FormatError>(
                FormatError::OutOfBounds,
            ),
    {
        let len = buffer.len();
        if position > len || len - position < 0x30 {
            return Err(FormatError::OutOfBounds);
        }
        let main_type = read_u16(buffer, position + 2);
        let sub_type = read_u8(buffer, position + 4);
        let sub_pointer = read_u32(buffer, position + 0x2C) as usize;
        if sub_pointer > len || len - sub_pointer < 4 {
            return Err(FormatError::OutOfBounds);
        }
        let sub_offset = read_u32(buffer, sub_pointer) as usize;
        if sub_offset > len || len - sub_offset < 0x34 {
            return Err(FormatError::OutOfBounds);
        }
        let properties = read_u8(buffer, sub_offset + 5);
        let vertex_count = read_u32(buffer, sub_offset + 0x2C);
        let vertex_offset = read_u32(buffer, sub_offset + 0x30) as u64;
        let mut mesh = Mesh {
            main_type,
            sub_type,
            sub_offset: sub_offset as u64,
            properties,
            vertex_count,
            vertex_offset,
            weights_offset: 0,
        };
        if mesh.is_high_resolution() {
            mesh.weights_offset = vertex_offset + vertex_count as u64 * 12;
        } else {
            mesh.weights_offset = vertex_offset + vertex_count as u64 * 8;
        }
        Ok(mesh)
    }

    pub fn is_weighted_mesh(&self) -> (r: bool)
        ensures
            r == self.spec_is_weighted_mesh(),
    {
        self.main_type == 2 && self.sub_type == 2
    }

    /// Vertex positions take twelve bytes instead of eight.
    pub fn is_high_resolution(&self) -> (r: bool)
        ensures
            r == (self.properties & HIGH_RESOLUTION_FLAG == HIGH_RESOLUTION_FLAG),
    {
        self.properties & HIGH_RESOLUTION_FLAG == HIGH_RESOLUTION_FLAG
    }
}

/// Offset of the asset header, stored at the start of the file.
pub open spec fn prim_header(b: Seq<u8>) -> int {
    le_u32(b, 0)
}

/// The header pointer and the header's flags, mesh count and mesh table fields are readable.
pub open spec fn prim_header_ok(b: Seq<u8>) -> bool {
    fits(b, 0, 4) && fits(b, prim_header(b), 0x14)
}

/// Asset-level property flags.
pub open spec fn prim_flags(b: Seq<u8>) -> int {
    le_u32(b, prim_header(b) + 4)
}

/// Number of meshes in the asset.
pub open spec fn prim_mesh_count(b: Seq<u8>) -> int {
    le_u32(b, prim_header(b) + 0xC)
}

/// Offset of the mesh table, one 4-byte pointer per mesh.
pub open spec fn prim_mesh_table(b: Seq<u8>) -> int {
    le_u32(b, prim_header(b) + 0x10)
}

/// Offset of the record of mesh `i`, read from the mesh table.
pub open spec fn mesh_pointer(b: Seq<u8>, i: int) -> int {
    le_u32(b, prim_mesh_table(b) + 4 * i)
}

/// What is wrong with mesh `i` of the asset, if anything.
pub open spec fn mesh_error(b: Seq<u8>, i: int) -> Option<FormatError> {
    if !fits(b, prim_mesh_table(b) + 4 * i, 4) {
        Some(FormatError::OutOfBounds)
    } else if !mesh_ok(b, mesh_pointer(b, i)) {
        Some(FormatError::OutOfBounds)
    } else if !mesh_at(b, mesh_pointer(b, i)).spec_is_weighted_mesh() {
        Some(FormatError::NotWeightedMesh(i as u32))
    } else if !mesh_at(b, mesh_pointer(b, i)).weights_fit(b) {
        Some(FormatError::OutOfBounds)
    } else {
        None
    }
}

/// A model asset: its bytes, its flags and its mesh descriptors.
pub struct Prim {
    pub buffer: Vec<u8>,
    pub header: u64,
    pub property_flags: u32,
    pub mesh: Vec<Mesh>,
}

impl Prim {
    /// Every mesh's weight records lie inside the buffer.
    pub open spec fn wf(&self) -> bool {
        forall|i: int| 0 <= i < self.mesh@.len() ==> (#[trigger] self.mesh@[i]).weights_fit(self.buffer@)
    }

    pub fn new() -> (r: Prim)
        ensures
            r.buffer@.len() == 0,
            r.header == 0,
            r.property_flags == 0,
            r.mesh@.len() == 0,
            r.wf(),
    {
        Prim { buffer: Vec::new(), header: 0, property_flags: 0, mesh: Vec::new() }
    }

    /// Reads the model asset held in `buffer`; fails on the first mesh that is
    /// out of bounds or not weighted.
    pub fn from_bytes(buffer: Vec<u8>) -> (r: Result<Prim, FormatError>)
        ensures
            !prim_header_ok(buffer@) ==> r == Err::<Prim, FormatError>(FormatError::OutOfBounds),
            prim_header_ok(buffer@) ==> match r {
                Ok(prim) => {
                    &&& prim.wf()
                    &&& prim.buffer@ == buffer@
                    &&& prim.header as int == prim_header(buffer@)
                    &&& prim.property_flags as int == prim_flags(buffer@)
                    &&& prim.mesh@.len() == prim_mesh_count(buffer@)
                    &&& forall|i: int|
                        0 <= i < prim_mesh_count(buffer@) ==> #[trigger] mesh_error(buffer@, i) is None
                            && prim.mesh@[i] == mesh_at(buffer@, mesh_pointer(buffer@, i))
                },
                Err(e) => exists|i: int|
                    0 <= i < prim_mesh_count(buffer@) && #[trigger] mesh_error(buffer@, i) == Some(e)
                        && forall|j: int| 0 <= j < i ==> (#[trigger] mesh_error(buffer@, j)) is None,
            },
    {
        let len = buffer.len();
        if len < 4 {
            return Err(FormatError::OutOfBounds);
        }
        let header = read_u32(&buffer, 0) as usize;
        if header > len || len - header < 0x14 {
            return Err(FormatError::OutOfBounds);
        }
        let property_flags = read_u32(&buffer, header + 4);
        let mesh_count = read_u32(&buffer, header + 0xC);
        let mesh_table = read_u32(&buffer, header + 0x10) as u64;
        let mut meshes: Vec<Mesh> = Vec::new();
        let mut i: u32 = 0;
        while i < mesh_count
            invariant
                prim_header_ok(buffer@),
                len == buffer@.len(),
                mesh_count as int == prim_mesh_count(buffer@),
                mesh_table as int == prim_mesh_table(buffer@),
                i <= mesh_count,
                meshes@.len() == i,
                forall|k: int| 0 <= k < i ==> #[trigger] mesh_error(buffer@, k) is None,
                forall|k: int|
                    0 <= k < i ==> #[trigger] meshes@[k] == mesh_at(buffer@, mesh_pointer(buffer@, k)),
            decreases mesh_count - i,
        {
            let entry = mesh_table + 4 * i as u64;
            if entry > len as u64 || (len as u64) - entry < 4 {
                proof {
                    assert(mesh_error(buffer@, i as int) == Some(FormatError::OutOfBounds));
                }
                return Err(FormatError::OutOfBounds);
            }
            let mesh_offset = read_u32(&buffer, entry as usize) as usize;
            let mesh = match Mesh::from_buffer(&buffer, mesh_offset) {
                Ok(mesh) => mesh,
                Err(e) => {
                    proof {
                        assert(mesh_error(buffer@, i as int) == Some(e));
                    }
                    return Err(e);
                },
            };
            if !mesh.is_weighted_mesh() {
                proof {
                    assert(mesh_error(buffer@, i as int) == Some(FormatError::NotWeightedMesh(i)));
                }
                return Err(FormatError::NotWeightedMesh(i));
            }
            if mesh.weights_offset > len as u64 || (len as u64) - mesh.weights_offset
                < WEIGHT_STRIDE * mesh.vertex_count as u64 {
                proof {
                    assert(mesh_error(buffer@, i as int) == Some(FormatError::OutOfBounds));
                }
                return Err(FormatError::OutOfBounds);
            }
            proof {
                assert(mesh_error(buffer@, i as int) is None);
            }
            meshes.push(mesh);
            i = i + 1;
        }
        let prim = Prim { buffer, header: header as u64, property_flags, mesh: meshes };
        proof {
            assert forall|k: int| 0 <= k < prim.mesh@.len() implies (#[trigger] prim.mesh@[k]).weights_fit(prim.buffer@) by {
                assert(mesh_error(prim.buffer@, k) is None);
            }
        }
        Ok(prim)
    }

    /// The asset is flagged as using per-vertex bone weights.
    pub fn is_weighted(&self) -> (r: bool)
        ensures
            r == (self.property_flags & WEIGHTED_ASSET_FLAG == WEIGHTED_ASSET_FLAG),
    {
        self.property_flags & WEIGHTED_ASSET_FLAG == WEIGHTED_ASSET_FLAG
    }
}

} // verus!
