//! The data model: attribute vectors, index triples, the raw mesh a parse
//! produces, the welded mesh the welder produces, and the error taxonomy.

use vstd::prelude::*;

verus! {

/// A three-component attribute value (a position or a normal).
///
/// The component type is generic: the library itself carries each component
/// as the validated numeric token it was read from (a byte string), while an
/// embedding program may instantiate the same shape with machine scalars
/// after converting the tokens.
#[derive(Clone, Copy, PartialEq, Debug)]
pub struct Vector3<T> {
    pub x: T,
    pub y: T,
    pub z: T,
}

/// A two-component attribute value (a texture coordinate).
#[derive(Clone, Copy, PartialEq, Debug)]
pub struct Vector2<T> {
    pub x: T,
    pub y: T,
}

impl<T: View> View for Vector3<T> {
    type V = Vector3<T::V>;

    open spec fn view(&self) -> Vector3<T::V> {
        (Vector3 { x: self.x@, y: self.y@, z: self.z@ })
    }
}

impl<T: View> View for Vector2<T> {
    type V = Vector2<T::V>;

    open spec fn view(&self) -> Vector2<T::V> {
        (Vector2 { x: self.x@, y: self.y@ })
    }
}

/// One face corner's cross-references into the raw attribute arrays, already
/// made zero-based: the position, texture-coordinate and normal index, in the
/// order the source format writes them.
///
/// Equality is structural; the welder deduplicates corners by this triple.
#[derive(Clone, Copy, PartialEq, Eq, Structural, Debug)]
pub struct IndexTriple {
    pub position: u32,
    pub texcoord: u32,
    pub normal: u32,
}

/// How a load fails.
#[derive(Clone, Copy, PartialEq, Eq, Structural, Debug)]
pub enum LoadError {
    /// The input could not be read at all; recoverable, the caller may go on
    /// with an empty mesh.
    ResourceUnavailable,
    /// An attribute record has the wrong arity or a non-numeric component;
    /// fatal to the load call.
    MalformedRecord,
    /// A face record does not have exactly three corners; fatal to the load
    /// call.
    UnsupportedPolygon,
    /// A face corner references an attribute index beyond the raw array it
    /// points into; fatal to the load call.
    IndexOutOfRange,
}

/// What the line parser accumulates: the raw attribute arrays, indexed by the
/// (zero-based) indices that face records carry, and the face corners in
/// source order.
pub struct RawMesh {
    pub positions: Vec<Vector3<Vec<u8>>>,
    pub normals: Vec<Vector3<Vec<u8>>>,
    pub texcoords: Vec<Vector2<Vec<u8>>>,
    pub faces: Vec<IndexTriple>,
}

/// The mathematical value of a [`RawMesh`].
#[verifier::ext_equal]
pub struct RawModel {
    pub positions: Seq<Vector3<Seq<u8>>>,
    pub normals: Seq<Vector3<Seq<u8>>>,
    pub texcoords: Seq<Vector2<Seq<u8>>>,
    pub faces: Seq<IndexTriple>,
}

impl RawModel {
    /// The model of a mesh with nothing in it.
    pub open spec fn empty() -> RawModel {
        (RawModel {
            positions: Seq::empty(),
            normals: Seq::empty(),
            texcoords: Seq::empty(),
            faces: Seq::empty(),
        })
    }
}

impl View for RawMesh {
    type V = RawModel;

    open spec fn view(&self) -> RawModel {
        (RawModel {
            positions: self.positions@.map_values(|v: Vector3<Vec<u8>>| v@),
            normals: self.normals@.map_values(|v: Vector3<Vec<u8>>| v@),
            texcoords: self.texcoords@.map_values(|v: Vector2<Vec<u8>>| v@),
            faces: self.faces@,
        })
    }
}

impl RawMesh {
    /// A mesh with nothing in it.
    pub fn empty() -> (r: RawMesh)
        ensures
            r@ =~= RawModel::empty(),
    {
        RawMesh { positions: Vec::new(), normals: Vec::new(), texcoords: Vec::new(), faces: Vec::new() }
    }
}

/// The welder's output: four parallel buffers.  Rows `i` of the three
/// attribute buffers together describe one welded vertex; `indices` holds one
/// entry per face corner, in source order, each naming such a row.
pub struct WeldedMesh {
    pub positions: Vec<Vector3<Vec<u8>>>,
    pub normals: Vec<Vector3<Vec<u8>>>,
    pub texcoords: Vec<Vector2<Vec<u8>>>,
    pub indices: Vec<usize>,
}

/// The mathematical value of a [`WeldedMesh`].
#[verifier::ext_equal]
pub struct WeldedModel {
    pub positions: Seq<Vector3<Seq<u8>>>,
    pub normals: Seq<Vector3<Seq<u8>>>,
    pub texcoords: Seq<Vector2<Seq<u8>>>,
    pub indices: Seq<usize>,
}

impl WeldedModel {
    /// The model of an output with nothing in it.
    pub open spec fn empty() -> WeldedModel {
        (WeldedModel {
            positions: Seq::empty(),
            normals: Seq::empty(),
            texcoords: Seq::empty(),
            indices: Seq::empty(),
        })
    }
}

impl View for WeldedMesh {
    type V = WeldedModel;

    open spec fn view(&self) -> WeldedModel {
        (WeldedModel {
            positions: self.positions@.map_values(|v: Vector3<Vec<u8>>| v@),
            normals: self.normals@.map_values(|v: Vector3<Vec<u8>>| v@),
            texcoords: self.texcoords@.map_values(|v: Vector2<Vec<u8>>| v@),
            indices: self.indices@,
        })
    }
}

impl WeldedMesh {
    /// An output with nothing in it: what a recoverable failure hands the
    /// caller in place of a mesh.
    pub fn empty() -> (r: WeldedMesh)
        ensures
            r@ =~= WeldedModel::empty(),
    {
        WeldedMesh { positions: Vec::new(), normals: Vec::new(), texcoords: Vec::new(), indices: Vec::new() }
    }
}

} // verus!
