//! An exact-arithmetic Delaunay triangulation library for terrain meshes.
//!
//! The heart of the crate is [`delauney`], an incremental Bowyer-Watson
//! triangulation engine over integer grid points. All geometric predicates
//! (circumcircle containment, collinearity) are evaluated exactly in wide
//! integer arithmetic, so the engine's contracts can promise the Delaunay
//! property of its output outright. [`mesh`] turns a triangle list back into
//! an index buffer over the point list that produced it, and [`coords`]
//! checks the shape of the `(x,y,z)` lines that terrain files are made of.

use vstd::prelude::*;

pub mod coords;
pub mod delauney;
pub mod mesh;

verus! {

/// GLSL source of the terrain vertex shader: forwards the elevation and the
/// water flag to the fragment stage and applies the usual
/// model-view-projection transform.
pub fn create_vertex_shader() -> (src: String)
    ensures
        src@ == (
        "
        #version 150

        in vec3 position;
        in float is_water; // Can't use bool in GLSL
        out float elevation; // pass position on to fragment shader
        out float v_water;

        uniform mat4 perspective;
        uniform mat4 model;
        uniform mat4 view;

        void main() {
            elevation = position.z;
            v_water = is_water;

            mat4 modelview = view * model;
            gl_Position = perspective * modelview * vec4(position, 1.0);
        }
        ")@,
{
    let s: &str = "
        #version 150

        in vec3 position;
        in float is_water; // Can't use bool in GLSL
        out float elevation; // pass position on to fragment shader
        out float v_water;

        uniform mat4 perspective;
        uniform mat4 model;
        uniform mat4 view;

        void main() {
            elevation = position.z;
            v_water = is_water;

            mat4 modelview = view * model;
            gl_Position = perspective * modelview * vec4(position, 1.0);
        }
        ";
    s.to_owned()
}

/// GLSL source of the terrain fragment shader: water fragments are drawn in
/// blue, land fragments in a green shade scaled by elevation.
pub fn create_fragment_shader() -> (src: String)
    ensures
        src@ == (
        "
            #version 150

            in float elevation;
            in float v_water;
            out vec4 color;

            void main() {
                if (v_water > 0.5) {
                    color = vec4(0.0, 0.0, 200.0, 1.0);
                } else {
                    color = vec4(0.0, (elevation / 255.0), 0.0, 1.0);
                }
            }
        ")@,
{
    let s: &str = "
            #version 150

            in float elevation;
            in float v_water;
            out vec4 color;

            void main() {
                if (v_water > 0.5) {
                    color = vec4(0.0, 0.0, 200.0, 1.0);
                } else {
                    color = vec4(0.0, (elevation / 255.0), 0.0, 1.0);
                }
            }
        ";
    s.to_owned()
}

} // verus!
