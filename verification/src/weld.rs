//! The vertex welder: one forward pass over the face corners that gives each
//! distinct attribute-index triple exactly one row in the output buffers and
//! replaces every corner by the index of its row.

use std::collections::HashMap;
use vstd::prelude::*;

use crate::mesh::{
    IndexTriple, LoadError, RawMesh, RawModel, Vector2, Vector3, WeldedMesh, WeldedModel,
};
use crate::token::copy_bytes;

verus! {

broadcast use vstd::std_specs::hash::group_hash_axioms;

/// Whether a face corner's three indices are in range for the raw arrays.
pub open spec fn triple_in_range(t: IndexTriple, m: RawModel) -> bool {
    &&& (t.position as int) < m.positions.len()
    &&& (t.normal as int) < m.normals.len()
    &&& (t.texcoord as int) < m.texcoords.len()
}

/// The welder's state after some prefix of the face corners: the output
/// buffers so far, and the table mapping each triple seen so far to its row.
#[verifier::ext_equal]
pub struct WeldState {
    pub mesh: WeldedModel,
    pub table: Map<IndexTriple, usize>,
}

impl WeldState {
    /// The state before any corner has been welded.
    pub open spec fn empty() -> WeldState {
        (WeldState { mesh: WeldedModel::empty(), table: Map::empty() })
    }
}

/// The welding fold over the first `n` face corners of `m`: a corner whose
/// triple is already tabled only appends that row's index; a fresh in-range
/// triple appends the referenced attribute rows as a new output row and
/// tables it; a fresh out-of-range triple fails the load.
pub open spec fn spec_weld_n(m: RawModel, n: int) -> Result<WeldState, LoadError>
    decreases n,
{
    if n <= 0 {
        Ok(WeldState::empty())
    } else {
        match spec_weld_n(m, n - 1) {
            Err(e) => Err(e),
            Ok(w) => {
                let t = m.faces[n - 1];
                if w.table.contains_key(t) {
                    Ok(WeldState {
                        mesh: WeldedModel {
                            positions: w.mesh.positions,
                            normals: w.mesh.normals,
                            texcoords: w.mesh.texcoords,
                            indices: w.mesh.indices.push(w.table[t]),
                        },
                        table: w.table,
                    })
                } else if triple_in_range(t, m) {
                    let row = w.mesh.positions.len() as usize;
                    Ok(WeldState {
                        mesh: WeldedModel {
                            positions: w.mesh.positions.push(m.positions[t.position as int]),
                            normals: w.mesh.normals.push(m.normals[t.normal as int]),
                            texcoords: w.mesh.texcoords.push(m.texcoords[t.texcoord as int]),
                            indices: w.mesh.indices.push(row),
                        },
                        table: w.table.insert(t, row),
                    })
                } else {
                    Err(LoadError::IndexOutOfRange)
                }
            },
        }
    }
}

/// What welding a raw mesh yields.
pub open spec fn spec_weld(m: RawModel) -> Result<WeldedModel, LoadError> {
    match spec_weld_n(m, m.faces.len() as int) {
        Ok(w) => Ok(w.mesh),
        Err(e) => Err(e),
    }
}

/// Once a prefix of the corners fails, the whole face list fails the same
/// way.
proof fn lemma_weld_n_err(m: RawModel, n: int, n2: int)
    requires
        0 <= n <= n2,
        spec_weld_n(m, n) is Err,
    ensures
        spec_weld_n(m, n2) == spec_weld_n(m, n),
    decreases n2 - n,
{
    if n < n2 {
        lemma_weld_n_err(m, n + 1, n2);
    }
}

/// The welded buffers' shape, for any prefix of the corners: the three
/// attribute buffers stay parallel, one corner contributes one index entry
/// and at most one row, every index entry and every tabled row is in range,
/// and tabled triples are exactly the in-range triples already passed.
pub proof fn lemma_weld_n_shape(m: RawModel, n: int)
    requires
        0 <= n <= m.faces.len(),
        m.faces.len() <= usize::MAX,
    ensures
        spec_weld_n(m, n) matches Ok(w) ==> {
            &&& w.mesh.normals.len() == w.mesh.positions.len()
            &&& w.mesh.texcoords.len() == w.mesh.positions.len()
            &&& w.mesh.indices.len() == n
            &&& w.mesh.positions.len() <= n
            &&& forall|i: int|
                0 <= i < n ==> ((#[trigger] w.mesh.indices[i]) as int) < w.mesh.positions.len()
            &&& forall|t: IndexTriple|
                #[trigger] w.table.contains_key(t) ==> (w.table[t] as int)
                    < w.mesh.positions.len()
            &&& forall|t: IndexTriple|
                #[trigger] w.table.contains_key(t) <==> exists|i: int|
                    0 <= i < n && m.faces[i] == t && triple_in_range(t, m)
        },
    decreases n,
{
    if n > 0 {
        lemma_weld_n_shape(m, n - 1);
        if spec_weld_n(m, n) is Ok {
            let w0 = spec_weld_n(m, n - 1)->Ok_0;
            let w = spec_weld_n(m, n)->Ok_0;
            let t = m.faces[n - 1];
            if w0.table.contains_key(t) {
                assert forall|t2: IndexTriple| #[trigger] w.table.contains_key(t2) implies exists|
                    i: int,
                |
                    0 <= i < n && m.faces[i] == t2 && triple_in_range(t2, m) by {
                    let i = choose|i: int|
                        0 <= i < n - 1 && m.faces[i] == t2 && triple_in_range(t2, m);
                    assert(0 <= i < n && m.faces[i] == t2 && triple_in_range(t2, m));
                }
            } else {
                assert(triple_in_range(t, m));
                assert forall|t2: IndexTriple| #[trigger] w.table.contains_key(t2) implies exists|
                    i: int,
                |
                    0 <= i < n && m.faces[i] == t2 && triple_in_range(t2, m) by {
                    if t2 == t {
                        assert(m.faces[n - 1] == t2 && triple_in_range(t2, m));
                    } else {
                        let i = choose|i: int|
                            0 <= i < n - 1 && m.faces[i] == t2 && triple_in_range(t2, m);
                        assert(0 <= i < n && m.faces[i] == t2 && triple_in_range(t2, m));
                    }
                }
            }
        }
    }
}

/// Each corner's index entry is its triple's tabled row, rows of distinct
/// triples are distinct, and each tabled row holds the attribute values its
/// triple references.
pub proof fn lemma_weld_n_rows(m: RawModel, n: int)
    requires
        0 <= n <= m.faces.len(),
        m.faces.len() <= usize::MAX,
    ensures
        spec_weld_n(m, n) matches Ok(w) ==> {
            &&& forall|i: int|
                0 <= i < n ==> w.table.contains_key(#[trigger] m.faces[i])
                    && w.mesh.indices[i] == w.table[m.faces[i]]
            &&& forall|t1: IndexTriple, t2: IndexTriple|
                w.table.contains_key(t1) && w.table.contains_key(t2) && t1 != t2 ==> #[trigger] w.table[t1]
                    != #[trigger] w.table[t2]
            &&& forall|t: IndexTriple|
                #[trigger] w.table.contains_key(t) ==> {
                    &&& triple_in_range(t, m)
                    &&& w.mesh.positions[w.table[t] as int] == m.positions[t.position as int]
                    &&& w.mesh.normals[w.table[t] as int] == m.normals[t.normal as int]
                    &&& w.mesh.texcoords[w.table[t] as int] == m.texcoords[t.texcoord as int]
                }
        },
    decreases n,
{
    if n > 0 {
        lemma_weld_n_rows(m, n - 1);
        lemma_weld_n_shape(m, n - 1);
        if spec_weld_n(m, n) is Ok {
            let w0 = spec_weld_n(m, n - 1)->Ok_0;
            let w = spec_weld_n(m, n)->Ok_0;
            let t = m.faces[n - 1];
            assert forall|i: int|
                0 <= i < n implies w.table.contains_key(#[trigger] m.faces[i])
                && w.mesh.indices[i] == w.table[m.faces[i]] by {
                if i < n - 1 {
                    assert(w0.table.contains_key(m.faces[i]));
                    assert(w.mesh.indices[i] == w0.mesh.indices[i]);
                    if !w0.table.contains_key(t) {
                        assert(m.faces[i] != t);
                        assert(w.table[m.faces[i]] == w0.table[m.faces[i]]);
                    }
                }
            }
            if w0.table.contains_key(t) {
                assert(w.table == w0.table);
                assert forall|t1: IndexTriple, t2: IndexTriple|
                    w.table.contains_key(t1) && w.table.contains_key(t2) && t1 != t2 implies #[trigger] w.table[t1]
                    != #[trigger] w.table[t2] by {
                    assert(w0.table.contains_key(t1) && w0.table.contains_key(t2));
                    assert(w0.table[t1] != w0.table[t2]);
                }
            } else {
                assert forall|t1: IndexTriple, t2: IndexTriple|
                    w.table.contains_key(t1) && w.table.contains_key(t2) && t1 != t2 implies #[trigger] w.table[t1]
                    != #[trigger] w.table[t2] by {
                    if t1 == t {
                        assert(w0.table.contains_key(t2));
                        assert((w0.table[t2] as int) < w0.mesh.positions.len());
                        assert(w.table[t1] == w0.mesh.positions.len() as usize);
                    } else if t2 == t {
                        assert(w0.table.contains_key(t1));
                        assert((w0.table[t1] as int) < w0.mesh.positions.len());
                        assert(w.table[t2] == w0.mesh.positions.len() as usize);
                    } else {
                        assert(w0.table.contains_key(t1) && w0.table.contains_key(t2));
                        assert(w0.table[t1] != w0.table[t2]);
                    }
                }
            }
        }
    }
}

/// Every welded row is named by at least one corner's index entry: together
/// with [`lemma_weld_dedup`] this pins one row, no more, for each distinct
/// in-range triple among the corners.
pub proof fn lemma_weld_row_named(m: RawModel, n: int, r: int)
    requires
        0 <= n <= m.faces.len(),
        m.faces.len() <= usize::MAX,
        spec_weld_n(m, n) is Ok,
        0 <= r < spec_weld_n(m, n)->Ok_0.mesh.positions.len(),
    ensures
        exists|i: int|
            0 <= i < n && ((#[trigger] spec_weld_n(m, n)->Ok_0.mesh.indices[i]) as int) == r,
    decreases n,
{
    if n == 0 {
        assert(spec_weld_n(m, n)->Ok_0.mesh.positions.len() == 0);
    } else {
        lemma_weld_n_shape(m, n - 1);
        let w0 = spec_weld_n(m, n - 1)->Ok_0;
        let w = spec_weld_n(m, n)->Ok_0;
        if r < w0.mesh.positions.len() {
            lemma_weld_row_named(m, n - 1, r);
            let i = choose|i: int|
                0 <= i < n - 1 && ((#[trigger] spec_weld_n(m, n - 1)->Ok_0.mesh.indices[i]) as int)
                    == r;
            assert(0 <= i < n && ((w.mesh.indices[i]) as int) == r);
        } else {
            assert(((w.mesh.indices[n - 1]) as int) == r);
        }
    }
}

/// A corner's output row holds exactly the attribute values its triple
/// references: welding moves values and never changes them.
pub proof fn lemma_weld_gather(m: RawModel, i: int)
    requires
        m.faces.len() <= usize::MAX,
        spec_weld(m) is Ok,
        0 <= i < m.faces.len(),
    ensures
        ({
            let w = spec_weld(m)->Ok_0;
            let t = m.faces[i];
            let r = w.indices[i] as int;
            &&& triple_in_range(t, m)
            &&& w.positions[r] == m.positions[t.position as int]
            &&& w.normals[r] == m.normals[t.normal as int]
            &&& w.texcoords[r] == m.texcoords[t.texcoord as int]
        }),
{
    lemma_weld_n_rows(m, m.faces.len() as int);
}

/// Deduplication, stated of any welded mesh: two face corners name the same
/// output row exactly when they carry the same attribute-index triple.  With
/// every row named by some corner, each distinct triple has exactly one row.
pub proof fn lemma_weld_dedup(m: RawModel, i: int, j: int)
    requires
        m.faces.len() <= usize::MAX,
        spec_weld(m) is Ok,
        0 <= i < m.faces.len(),
        0 <= j < m.faces.len(),
    ensures
        spec_weld(m)->Ok_0.indices[i] == spec_weld(m)->Ok_0.indices[j] <==> m.faces[i]
            == m.faces[j],
{
    lemma_weld_n_rows(m, m.faces.len() as int);
}

proof fn lemma_weld_idem_n(m: RawModel, t: IndexTriple, n: int)
    requires
        1 <= n <= m.faces.len(),
        forall|i: int| 0 <= i < m.faces.len() ==> #[trigger] m.faces[i] == t,
        triple_in_range(t, m),
    ensures
        spec_weld_n(m, n) == Ok::<WeldState, LoadError>(
            WeldState {
                mesh: WeldedModel {
                    positions: seq![m.positions[t.position as int]],
                    normals: seq![m.normals[t.normal as int]],
                    texcoords: seq![m.texcoords[t.texcoord as int]],
                    indices: Seq::new(n as nat, |i: int| 0usize),
                },
                table: Map::<IndexTriple, usize>::empty().insert(t, 0usize),
            },
        ),
    decreases n,
{
    if n == 1 {
        assert(spec_weld_n(m, 0) == Ok::<WeldState, LoadError>(WeldState::empty()));
        assert(Seq::<Vector3<Seq<u8>>>::empty().push(m.positions[t.position as int])
            =~= seq![m.positions[t.position as int]]);
        assert(Seq::<Vector3<Seq<u8>>>::empty().push(m.normals[t.normal as int])
            =~= seq![m.normals[t.normal as int]]);
        assert(Seq::<Vector2<Seq<u8>>>::empty().push(m.texcoords[t.texcoord as int])
            =~= seq![m.texcoords[t.texcoord as int]]);
        assert(Seq::<usize>::empty().push(0usize) =~= Seq::new(1, |i: int| 0usize));
    } else {
        lemma_weld_idem_n(m, t, n - 1);
        let w = spec_weld_n(m, n - 1)->Ok_0;
        assert(w.table.contains_key(t) && w.table[t] == 0usize);
        assert(w.mesh.indices.push(0usize) =~= Seq::new(n as nat, |i: int| 0usize));
    }
}

/// Welding is idempotent on repeated identical triples: a face list that
/// repeats one in-range triple any number of times yields exactly one welded
/// row — the referenced attribute values — and one index entry per corner,
/// every entry naming that row.
pub proof fn lemma_weld_idempotent(m: RawModel, t: IndexTriple)
    requires
        m.faces.len() >= 1,
        forall|i: int| 0 <= i < m.faces.len() ==> #[trigger] m.faces[i] == t,
        triple_in_range(t, m),
    ensures
        spec_weld(m) == Ok::<WeldedModel, LoadError>(
            WeldedModel {
                positions: seq![m.positions[t.position as int]],
                normals: seq![m.normals[t.normal as int]],
                texcoords: seq![m.texcoords[t.texcoord as int]],
                indices: Seq::new(m.faces.len(), |i: int| 0usize),
            },
        ),
{
    lemma_weld_idem_n(m, t, m.faces.len() as int);
}

/// Packs a corner's three indices into one 96-bit map key.
pub open spec fn spec_key(t: IndexTriple) -> u128 {
    (t.position as u128) << 64 | (t.texcoord as u128) << 32 | (t.normal as u128)
}

fn key_of(t: &IndexTriple) -> (r: u128)
    ensures
        r == spec_key(*t),
{
    (t.position as u128) << 64 | (t.texcoord as u128) << 32 | (t.normal as u128)
}

/// Distinct triples pack to distinct keys.
proof fn lemma_key_injective(a: IndexTriple, b: IndexTriple)
    requires
        spec_key(a) == spec_key(b),
    ensures
        a == b,
{
    let ap = a.position;
    let at = a.texcoord;
    let an = a.normal;
    let bp = b.position;
    let bt = b.texcoord;
    let bn = b.normal;
    assert(((ap as u128) << 64 | (at as u128) << 32 | (an as u128)) == ((bp as u128) << 64 | (
    bt as u128) << 32 | (bn as u128)) ==> ap == bp && at == bt && an == bn) by (bit_vector);
}

/// Welds the raw mesh into deduplicated output buffers: one forward pass
/// over the face corners, in source order, probing a table keyed on the
/// packed index triple.
#[verifier::loop_isolation(false)]
pub fn weld(raw: &RawMesh) -> (r: Result<WeldedMesh, LoadError>)
    ensures
        match r {
            Ok(w) => {
                &&& spec_weld(raw@) == Ok::<WeldedModel, LoadError>(w@)
                &&& w@.normals.len() == w@.positions.len()
                &&& w@.texcoords.len() == w@.positions.len()
                &&& w@.indices.len() == raw@.faces.len()
                &&& w@.positions.len() <= raw@.faces.len()
                &&& forall|i: int|
                    0 <= i < w@.indices.len() ==> ((#[trigger] w@.indices[i]) as int)
                        < w@.positions.len()
            },
            Err(e) => spec_weld(raw@) == Err::<WeldedModel, LoadError>(e),
        },
{
    let mut out = WeldedMesh::empty();
    let mut table: HashMap<u128, usize> = HashMap::new();
    let ghost mut gtable: Map<IndexTriple, usize> = Map::empty();
    let n = raw.faces.len();
    let mut i: usize = 0;
    while i < n
        invariant
            0 <= i <= n == raw@.faces.len(),
            spec_weld_n(raw@, i as int) == Ok::<WeldState, LoadError>(
                WeldState { mesh: out@, table: gtable },
            ),
            forall|t: IndexTriple|
                #[trigger] gtable.contains_key(t) ==> table@.contains_key(spec_key(t))
                    && table@[spec_key(t)] == gtable[t],
            forall|k: u128|
                #[trigger] table@.contains_key(k) ==> exists|t: IndexTriple|
                    gtable.contains_key(t) && spec_key(t) == k,
        decreases n - i,
    {
        let ghost state0 = WeldState { mesh: out@, table: gtable };
        let t = raw.faces[i];
        let k = key_of(&t);
        let hit = match table.get(&k) {
            Some(row) => Some(*row),
            None => None,
        };
        match hit {
            Some(row) => {
                proof {
                    let t2 = choose|t2: IndexTriple|
                        gtable.contains_key(t2) && spec_key(t2) == k;
                    lemma_key_injective(t2, t);
                    assert(gtable.contains_key(t) && gtable[t] == row);
                }
                out.indices.push(row);
                proof {
                    assert(out@.positions =~= state0.mesh.positions);
                    assert(out@.normals =~= state0.mesh.normals);
                    assert(out@.texcoords =~= state0.mesh.texcoords);
                    assert(out@.indices =~= state0.mesh.indices.push(row));
                    assert(spec_weld_n(raw@, i + 1) == Ok::<WeldState, LoadError>(
                        WeldState { mesh: out@, table: gtable },
                    ));
                }
            },
            None => {
                proof {
                    if gtable.contains_key(t) {
                        assert(table@.contains_key(spec_key(t)));
                    }
                    assert(!gtable.contains_key(t));
                }
                let p = t.position as usize;
                let nn = t.normal as usize;
                let tc = t.texcoord as usize;
                if p >= raw.positions.len() || nn >= raw.normals.len() || tc
                    >= raw.texcoords.len() {
                    proof {
                        assert(!triple_in_range(t, raw@));
                        assert(spec_weld_n(raw@, i + 1) == Err::<WeldState, LoadError>(
                            LoadError::IndexOutOfRange,
                        ));
                        lemma_weld_n_err(raw@, i + 1, n as int);
                    }
                    return Err(LoadError::IndexOutOfRange);
                }
                let row = out.positions.len();
                let pv = &raw.positions[p];
                out.positions.push(
                    Vector3 { x: copy_bytes(&pv.x), y: copy_bytes(&pv.y), z: copy_bytes(&pv.z) },
                );
                let nv = &raw.normals[nn];
                out.normals.push(
                    Vector3 { x: copy_bytes(&nv.x), y: copy_bytes(&nv.y), z: copy_bytes(&nv.z) },
                );
                let uv = &raw.texcoords[tc];
                out.texcoords.push(Vector2 { x: copy_bytes(&uv.x), y: copy_bytes(&uv.y) });
                out.indices.push(row);
                table.insert(k, row);
                proof {
                    let gtable2 = gtable.insert(t, row);
                    assert(out@.positions =~= state0.mesh.positions.push(
                        raw@.positions[t.position as int],
                    ));
                    assert(out@.normals =~= state0.mesh.normals.push(
                        raw@.normals[t.normal as int],
                    ));
                    assert(out@.texcoords =~= state0.mesh.texcoords.push(
                        raw@.texcoords[t.texcoord as int],
                    ));
                    assert(out@.indices =~= state0.mesh.indices.push(row));
                    assert(spec_weld_n(raw@, i + 1) == Ok::<WeldState, LoadError>(
                        WeldState { mesh: out@, table: gtable2 },
                    ));
                    assert forall|t2: IndexTriple| #[trigger] gtable2.contains_key(t2) implies
                        table@.contains_key(spec_key(t2)) && table@[spec_key(t2)] == gtable2[t2] by {
                        if t2 == t {
                        } else {
                            assert(gtable.contains_key(t2));
                            if spec_key(t2) == spec_key(t) {
                                lemma_key_injective(t2, t);
                            }
                        }
                    }
                    assert forall|k2: u128| #[trigger] table@.contains_key(k2) implies exists|
                        t2: IndexTriple,
                    |
                        gtable2.contains_key(t2) && spec_key(t2) == k2 by {
                        if k2 == k {
                            assert(gtable2.contains_key(t) && spec_key(t) == k2);
                        } else {
                            let t2 = choose|t2: IndexTriple|
                                gtable.contains_key(t2) && spec_key(t2) == k2;
                            assert(gtable2.contains_key(t2) && spec_key(t2) == k2);
                        }
                    }
                    gtable = gtable2;
                }
            },
        }
        i = i + 1;
    }
    proof {
        lemma_weld_n_shape(raw@, n as int);
    }
    Ok(out)
}

} // verus!
