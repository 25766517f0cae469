use mod1::coords::CoordError;
use mod1::{create_fragment_shader, create_vertex_shader};

#[test]
fn vertex_shader_source_is_complete() {
    let src = create_vertex_shader();
    assert!(src.contains("#version 150"));
    assert!(src.contains("void main()"));
    assert!(src.contains("in vec3 position;"));
    assert!(src.contains("uniform mat4 perspective;"));
    assert!(src.contains("gl_Position"));
}

#[test]
fn fragment_shader_source_is_complete() {
    let src = create_fragment_shader();
    assert!(src.contains("#version 150"));
    assert!(src.contains("void main()"));
    assert!(src.contains("out vec4 color;"));
    assert!(src.contains("v_water"));
}

#[test]
fn coord_error_message() {
    assert_eq!(CoordError.message(), "Invalid Coordinate");
}
