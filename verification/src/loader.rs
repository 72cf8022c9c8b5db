//! The load call: from source text (or the failure to read any) to welded,
//! deduplicated output buffers.

use vstd::prelude::*;

use crate::mesh::{LoadError, WeldedMesh, WeldedModel};
use crate::parse::{parse_obj, spec_parse_obj};
use crate::weld::{spec_weld, weld};

verus! {

/// The source handed to a load: the text that was read, or nothing when the
/// input could not be read.
pub open spec fn spec_source(source: Option<&Vec<u8>>) -> Option<Seq<u8>> {
    match source {
        None => None,
        Some(s) => Some(s@),
    }
}

/// What a whole load yields: an unreadable input is a recoverable failure of
/// its own; otherwise the source is parsed and the face corners welded, and
/// the first fatal error wins.
pub open spec fn spec_load_obj(source: Option<Seq<u8>>) -> Result<WeldedModel, LoadError> {
    match source {
        None => Err(LoadError::ResourceUnavailable),
        Some(s) => match spec_parse_obj(s) {
            Err(e) => Err(e),
            Ok(m) => spec_weld(m),
        },
    }
}

/// Loads a mesh: parses the records of the source text, then welds the face
/// corners into deduplicated buffers.
///
/// `None` stands for an input that could not be read and yields the
/// recoverable [`LoadError::ResourceUnavailable`]; the caller may go on with
/// [`WeldedMesh::empty`] in place of a mesh.  On success the three attribute
/// buffers are parallel and every index entry names one of their rows.
pub fn load_obj(source: Option<&Vec<u8>>) -> (r: Result<WeldedMesh, LoadError>)
    ensures
        match r {
            Ok(w) => {
                &&& spec_load_obj(spec_source(source)) == Ok::<WeldedModel, LoadError>(w@)
                &&& w@.normals.len() == w@.positions.len()
                &&& w@.texcoords.len() == w@.positions.len()
                &&& w@.positions.len() <= w@.indices.len()
                &&& forall|i: int|
                    0 <= i < w@.indices.len() ==> ((#[trigger] w@.indices[i]) as int)
                        < w@.positions.len()
            },
            Err(e) => spec_load_obj(spec_source(source)) == Err::<WeldedModel, LoadError>(e),
        },
{
    match source {
        None => Err(LoadError::ResourceUnavailable),
        Some(text) => match parse_obj(text) {
            Err(e) => Err(e),
            Ok(raw) => weld(&raw),
        },
    }
}

} // verus!
