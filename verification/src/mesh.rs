//! From triangles back to an index buffer.
//!
//! A renderer wants triangles as indices into the vertex list they were
//! built from, not as coordinate triples. [`calculate_indices`] looks every
//! triangle corner up in the vertex list by exact coordinate match, taking
//! the first match, and reports [`LookupFailure`] when a corner is missing
//! from the list.

use vstd::prelude::*;

use crate::delauney::{Triangle, Vec2};

verus! {

/// Raised when a triangle corner has no matching point in the vertex list:
/// the symptom of a triangle list paired with the wrong vertex list.
#[derive(Clone, Copy, PartialEq, Eq, Structural, Debug)]
pub struct LookupFailure;

/// `k` is the first index of `v` within `s`.
pub open spec fn is_first_index_of(k: int, s: Seq<Vec2>, v: Vec2) -> bool {
    &&& 0 <= k < s.len()
    &&& s[k] == v
    &&& forall|j: int| 0 <= j < k ==> s[j] != v
}

/// First index of `p` in `vertices`, or `None` when `p` does not occur.
fn find_index(vertices: &Vec<Vec2>, p: &Vec2) -> (r: Option<usize>)
    ensures
        match r {
            Some(k) => is_first_index_of(k as int, vertices@, *p),
            None => !vertices@.contains(*p),
        },
{
    let mut k: usize = 0;
    while k < vertices.len()
        invariant
            0 <= k <= vertices@.len(),
            forall|j: int| 0 <= j < k ==> vertices@[j] != *p,
        decreases vertices@.len() - k,
    {
        if vertices[k] == *p {
            return Some(k);
        }
        k = k + 1;
    }
    None
}

/// Maps each triangle's corners to indices into `vertices`, three indices
/// per triangle in corner order, each the first exact match. Succeeds
/// exactly when every corner of every triangle occurs in `vertices`; the
/// vertex list is capped so that every index fits the 16-bit index buffer.
pub fn calculate_indices(triangulation: &Vec<Triangle>, vertices: &Vec<Vec2>) -> (r: Result<
    Vec<u16>,
    LookupFailure,
>)
    requires
        vertices@.len() <= 0x10000,
    ensures
        r is Ok <==> (forall|i: int|
            0 <= i < triangulation@.len() ==> vertices@.contains((#[trigger] triangulation@[i]).a)
                && vertices@.contains(triangulation@[i].b) && vertices@.contains(
                triangulation@[i].c,
            )),
        r matches Ok(indices) ==> indices@.len() == 3 * triangulation@.len() && (forall|i: int|
            0 <= i < triangulation@.len() ==> is_first_index_of(
                (#[trigger] indices@[3 * i]) as int,
                vertices@,
                triangulation@[i].a,
            ) && is_first_index_of(indices@[3 * i + 1] as int, vertices@, triangulation@[i].b)
                && is_first_index_of(indices@[3 * i + 2] as int, vertices@, triangulation@[i].c)),
{
    let mut indices: Vec<u16> = Vec::new();
    let mut i: usize = 0;
    while i < triangulation.len()
        invariant
            0 <= i <= triangulation@.len(),
            vertices@.len() <= 0x10000,
            indices@.len() == 3 * i,
            forall|i2: int|
                0 <= i2 < i ==> is_first_index_of(
                    (#[trigger] indices@[3 * i2]) as int,
                    vertices@,
                    triangulation@[i2].a,
                ) && is_first_index_of(indices@[3 * i2 + 1] as int, vertices@, triangulation@[i2].b)
                    && is_first_index_of(
                    indices@[3 * i2 + 2] as int,
                    vertices@,
                    triangulation@[i2].c,
                ),
        decreases triangulation@.len() - i,
    {
        let t = triangulation[i];
        let ka = match find_index(vertices, &t.a) {
            Some(k) => k,
            None => {
                return Err(LookupFailure);
            },
        };
        let kb = match find_index(vertices, &t.b) {
            Some(k) => k,
            None => {
                return Err(LookupFailure);
            },
        };
        let kc = match find_index(vertices, &t.c) {
            Some(k) => k,
            None => {
                return Err(LookupFailure);
            },
        };
        indices.push(ka as u16);
        indices.push(kb as u16);
        indices.push(kc as u16);
        i = i + 1;
    }
    proof {
        assert forall|i2: int|
            0 <= i2 < triangulation@.len() implies vertices@.contains(
            (#[trigger] triangulation@[i2]).a,
        ) && vertices@.contains(triangulation@[i2].b) && vertices@.contains(
            triangulation@[i2].c,
        ) by {
            assert(is_first_index_of(indices@[3 * i2] as int, vertices@, triangulation@[i2].a));
            assert(is_first_index_of(indices@[3 * i2 + 1] as int, vertices@, triangulation@[i2].b));
            assert(is_first_index_of(indices@[3 * i2 + 2] as int, vertices@, triangulation@[i2].c));
        }
    }
    Ok(indices)
}

} // verus!
