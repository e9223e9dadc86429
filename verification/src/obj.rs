//! Grouping the flat attribute arrays of a loaded OBJ mesh into vertices.
//!
//! The component type is left open: the loader hands over its arrays as they are.
use vstd::prelude::*;
use crate::geometry::MaterialHandle;

verus! {

/// Why a mesh's arrays cannot be grouped into vertices.
#[derive(Clone, Copy, Debug, PartialEq, Eq, Structural)]
pub enum ObjMeshError {
    /// The position array does not hold whole triples.
    PositionsNotTriples,
    /// There are normals, but not one triple per position.
    NormalsMismatch,
    /// There are texture coordinates, but not one pair per position.
    TexcoordsMismatch,
}

pub open spec fn spec_message(e: ObjMeshError) -> Seq<char> {
    match e {
        ObjMeshError::PositionsNotTriples => "OBJ positions are not a multiple of 3"@,
        ObjMeshError::NormalsMismatch => "OBJ normals don't match position count"@,
        ObjMeshError::TexcoordsMismatch => "OBJ texcoords don't match position count"@,
    }
}

impl ObjMeshError {
    /// The error's message.
    pub fn message(&self) -> (r: &'static str)
        ensures
            r@ == spec_message(*self),
    {
        match self {
            ObjMeshError::PositionsNotTriples => "OBJ positions are not a multiple of 3",
            ObjMeshError::NormalsMismatch => "OBJ normals don't match position count",
            ObjMeshError::TexcoordsMismatch => "OBJ texcoords don't match position count",
        }
    }
}

/// The attributes of one vertex. A vertex has a normal when the mesh has normals, and
/// texture coordinates when the mesh has them and they were asked for.
#[derive(Debug)]
pub struct MeshVertex<T> {
    pub position: (T, T, T),
    pub normal: Option<(T, T, T)>,
    pub tex_coords: Option<(T, T)>,
}

/// Which check a mesh fails first, or the number of its vertices. Texture coordinates are
/// only checked when `textured` is set.
pub open spec fn spec_vertex_count(positions: nat, normals: nat, texcoords: nat, textured: bool) -> Result<nat, ObjMeshError> {
    if positions % 3 != 0 {
        Err(ObjMeshError::PositionsNotTriples)
    } else if normals != 0 && normals != positions {
        Err(ObjMeshError::NormalsMismatch)
    } else if textured && texcoords != 0 && texcoords != positions / 3 * 2 {
        Err(ObjMeshError::TexcoordsMismatch)
    } else {
        Ok(positions / 3)
    }
}

/// Vertex `i` of a mesh whose arrays passed the checks.
pub open spec fn spec_vertex<T>(positions: Seq<T>, normals: Seq<T>, texcoords: Seq<T>, textured: bool, i: int) -> MeshVertex<T> {
    MeshVertex {
        position: (positions[3 * i], positions[3 * i + 1], positions[3 * i + 2]),
        normal: if normals.len() == 0 {
            None
        } else {
            Some((normals[3 * i], normals[3 * i + 1], normals[3 * i + 2]))
        },
        tex_coords: if !textured || texcoords.len() == 0 {
            None
        } else {
            Some((texcoords[2 * i], texcoords[2 * i + 1]))
        },
    }
}

/// Whether `r` is what grouping the arrays gives: the first failed check, or one vertex
/// per position triple, in order.
pub open spec fn groups_mesh<T>(r: Result<Vec<MeshVertex<T>>, ObjMeshError>, positions: Seq<T>, normals: Seq<T>, texcoords: Seq<T>, textured: bool) -> bool {
    match spec_vertex_count(positions.len(), normals.len(), texcoords.len(), textured) {
        Err(e) => r == Err::<Vec<MeshVertex<T>>, ObjMeshError>(e),
        Ok(count) => r matches Ok(v) && v@.len() == count && forall|i: int|
            0 <= i < count ==> #[trigger] v@[i] == spec_vertex(positions, normals, texcoords, textured, i),
    }
}

fn group_vertices<T: Copy>(positions: &Vec<T>, normals: &Vec<T>, texcoords: &Vec<T>, textured: bool) -> (r: Result<Vec<MeshVertex<T>>, ObjMeshError>)
    ensures
        groups_mesh(r, positions@, normals@, texcoords@, textured),
{
    if positions.len() % 3 != 0 {
        return Err(ObjMeshError::PositionsNotTriples);
    }
    let count = positions.len() / 3;
    if !normals.is_empty() && normals.len() != count * 3 {
        return Err(ObjMeshError::NormalsMismatch);
    }
    if textured && !texcoords.is_empty() && texcoords.len() != count * 2 {
        return Err(ObjMeshError::TexcoordsMismatch);
    }
    let mut v: Vec<MeshVertex<T>> = Vec::new();
    let mut i: usize = 0;
    while i < count
        invariant
            i <= count,
            count * 3 == positions@.len(),
            count * 3 <= usize::MAX,
            normals@.len() == 0 || normals@.len() == count * 3,
            !textured || texcoords@.len() == 0 || texcoords@.len() == count * 2,
            v@.len() == i,
            forall|k: int|
                0 <= k < i ==> #[trigger] v@[k] == spec_vertex(positions@, normals@, texcoords@, textured, k),
        decreases count - i,
    {
        let position = (positions[3 * i], positions[3 * i + 1], positions[3 * i + 2]);
        let normal = if normals.is_empty() {
            None
        } else {
            Some((normals[3 * i], normals[3 * i + 1], normals[3 * i + 2]))
        };
        let tex_coords = if !textured || texcoords.is_empty() {
            None
        } else {
            Some((texcoords[2 * i], texcoords[2 * i + 1]))
        };
        v.push(MeshVertex { position, normal, tex_coords });
        i = i + 1;
    }
    Ok(v)
}

/// Groups a mesh's positions and normals into vertices without texture coordinates;
/// fails when the positions are not whole triples or there are normals but not one
/// per position.
pub fn primitive_vertices<T: Copy>(positions: &Vec<T>, normals: &Vec<T>) -> (r: Result<Vec<MeshVertex<T>>, ObjMeshError>)
    ensures
        groups_mesh(r, positions@, normals@, Seq::empty(), false),
{
    let none: Vec<T> = Vec::new();
    let r = group_vertices(positions, normals, &none, false);
    assert(spec_vertex_count(positions@.len(), normals@.len(), none@.len(), false)
        == spec_vertex_count(positions@.len(), normals@.len(), 0, false));
    proof {
        if r is Ok {
            let v = r->Ok_0;
            assert forall|i: int| 0 <= i < v@.len() implies #[trigger] v@[i] == spec_vertex(
                positions@,
                normals@,
                Seq::empty(),
                false,
                i,
            ) by {
                assert(v@[i] == spec_vertex(positions@, normals@, none@, false, i));
            }
        }
    }
    r
}

/// Groups a mesh's positions, normals and texture coordinates into vertices; fails when
/// the positions are not whole triples, or there are normals but not one triple per
/// position, or texture coordinates but not one pair per position.
pub fn textured_vertices<T: Copy>(positions: &Vec<T>, normals: &Vec<T>, texcoords: &Vec<T>) -> (r: Result<Vec<MeshVertex<T>>, ObjMeshError>)
    ensures
        groups_mesh(r, positions@, normals@, texcoords@, true),
{
    group_vertices(positions, normals, texcoords, true)
}

/// What a mesh's material gave it: the entry made for the material, when the mesh names
/// a material and the file defined that many; else none.
pub fn mesh_texture<T: Copy>(material_id: Option<usize>, entries: &Vec<T>) -> (r: Option<T>)
    ensures
        r == match material_id {
            Some(id) => if id < entries@.len() {
                Some(entries@[id as int])
            } else {
                None::<T>
            },
            None => None::<T>,
        },
{
    match material_id {
        Some(id) => {
            if id < entries.len() {
                Some(entries[id])
            } else {
                None
            }
        },
        None => None,
    }
}

/// The material a mesh of an OBJ file is drawn with, and whether the mesh keeps its
/// texture coordinates: the primitive material when one is given, else the textured one.
pub fn mesh_material(textured: Option<MaterialHandle>, primitive: Option<MaterialHandle>) -> (r: (MaterialHandle, bool))
    requires
        primitive is Some || textured is Some,
    ensures
        primitive matches Some(p) ==> r == (p, false),
        primitive is None ==> r == (textured->0, true),
{
    match primitive {
        Some(p) => (p, false),
        None => match textured {
            Some(t) => (t, true),
            None => (MaterialHandle(0), true),
        },
    }
}

} // verus!

