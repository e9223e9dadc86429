use sparmos::geometry::MaterialHandle;
use sparmos::obj::{mesh_material, mesh_texture};
use sparmos::render::{surface_format_choice, TextureHandle};

#[test]
fn the_first_srgb_surface_format_is_chosen() {
    assert_eq!(surface_format_choice(&vec![false, true, true]), 1);
    assert_eq!(surface_format_choice(&vec![true, false]), 0);
}

#[test]
fn without_srgb_the_first_surface_format_is_chosen() {
    assert_eq!(surface_format_choice(&vec![false, false, false]), 0);
    assert_eq!(surface_format_choice(&vec![false]), 0);
}

#[test]
fn a_mesh_takes_the_texture_of_its_material() {
    let textures = vec![TextureHandle(10), TextureHandle(11)];
    assert_eq!(mesh_texture(Some(1), &textures), Some(TextureHandle(11)));
    assert_eq!(mesh_texture(Some(0), &textures), Some(TextureHandle(10)));
    assert_eq!(mesh_texture(Some(2), &textures), None);
    assert_eq!(mesh_texture(None, &textures), None);
    assert_eq!(mesh_texture::<TextureHandle>(Some(0), &vec![]), None);
}

#[test]
fn the_primitive_material_wins_over_the_textured_one() {
    assert_eq!(mesh_material(Some(MaterialHandle(1)), Some(MaterialHandle(2))), (MaterialHandle(2), false));
    assert_eq!(mesh_material(None, Some(MaterialHandle(2))), (MaterialHandle(2), false));
    assert_eq!(mesh_material(Some(MaterialHandle(1)), None), (MaterialHandle(1), true));
}
