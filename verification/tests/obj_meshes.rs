use sparmos::obj::{primitive_vertices, textured_vertices, ObjMeshError};

#[test]
fn positions_are_grouped_in_triples() {
    let positions = vec![0.0f32, 1.0, 2.0, 3.0, 4.0, 5.0];
    let vertices = primitive_vertices(&positions, &Vec::new()).unwrap();
    assert_eq!(vertices.len(), 2);
    assert_eq!(vertices[0].position, (0.0, 1.0, 2.0));
    assert_eq!(vertices[1].position, (3.0, 4.0, 5.0));
    assert_eq!(vertices[1].normal, None);
    assert_eq!(vertices[1].tex_coords, None);
}

#[test]
fn normals_and_texcoords_follow_their_vertex() {
    let positions = vec![0.0f32, 0.0, 0.0, 1.0, 1.0, 1.0];
    let normals = vec![0.0f32, 0.0, 1.0, 0.0, 1.0, 0.0];
    let texcoords = vec![0.25f32, 0.5, 0.75, 1.0];
    let vertices = textured_vertices(&positions, &normals, &texcoords).unwrap();
    assert_eq!(vertices[0].normal, Some((0.0, 0.0, 1.0)));
    assert_eq!(vertices[1].normal, Some((0.0, 1.0, 0.0)));
    assert_eq!(vertices[0].tex_coords, Some((0.25, 0.5)));
    assert_eq!(vertices[1].tex_coords, Some((0.75, 1.0)));
}

#[test]
fn broken_meshes_are_refused_in_order() {
    let positions = vec![0.0f32; 7];
    assert_eq!(
        primitive_vertices(&positions, &Vec::new()).unwrap_err(),
        ObjMeshError::PositionsNotTriples
    );
    let positions = vec![0.0f32; 6];
    assert_eq!(
        primitive_vertices(&positions, &vec![0.0f32; 3]).unwrap_err(),
        ObjMeshError::NormalsMismatch
    );
    assert_eq!(
        textured_vertices(&positions, &Vec::new(), &vec![0.0f32; 2]).unwrap_err(),
        ObjMeshError::TexcoordsMismatch
    );
    // texture coordinates do not matter for untextured meshes
    assert!(primitive_vertices(&positions, &vec![0.0f32; 6]).is_ok());
}

#[test]
fn error_messages() {
    assert_eq!(
        ObjMeshError::PositionsNotTriples.message(),
        "OBJ positions are not a multiple of 3"
    );
    assert_eq!(ObjMeshError::NormalsMismatch.message(), "OBJ normals don't match position count");
    assert_eq!(
        ObjMeshError::TexcoordsMismatch.message(),
        "OBJ texcoords don't match position count"
    );
}
