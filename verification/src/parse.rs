//! The line parser: splits the source into lines and blank-separated tokens,
//! classifies each line by its leading tag, and accumulates attribute records
//! and face index triples into a [`RawMesh`].

use vstd::prelude::*;

use crate::mesh::{IndexTriple, LoadError, RawMesh, RawModel, Vector2, Vector3};
use crate::token::{
    copy_bytes, face_component, is_float_token, is_ws, spec_face_component, spec_float_token,
};

verus! {

/// The length of the leading run of non-blank bytes.
pub open spec fn nonws_run(s: Seq<u8>) -> nat
    decreases s.len(),
{
    if s.len() == 0 || is_ws(s[0]) {
        0
    } else {
        (1 + nonws_run(s.drop_first())) as nat
    }
}

/// The blank-separated tokens of a line, in order.
pub open spec fn spec_tokens(s: Seq<u8>) -> Seq<Seq<u8>>
    decreases s.len(),
{
    if s.len() == 0 {
        Seq::empty()
    } else if is_ws(s[0]) {
        spec_tokens(s.drop_first())
    } else if nonws_run(s) >= s.len() {
        seq![s]
    } else {
        seq![s.take(nonws_run(s) as int)] + spec_tokens(s.skip(nonws_run(s) as int))
    }
}

proof fn lemma_nonws_run_is(s: Seq<u8>, k: int)
    requires
        0 <= k <= s.len(),
        forall|j: int| 0 <= j < k ==> !is_ws(#[trigger] s[j]),
        k == s.len() || is_ws(s[k]),
    ensures
        nonws_run(s) == k,
    decreases k,
{
    if k > 0 {
        assert(forall|j: int| 0 <= j < k - 1 ==> !is_ws(#[trigger] s.drop_first()[j]));
        lemma_nonws_run_is(s.drop_first(), k - 1);
    }
}

/// Every token has at least one byte.
proof fn lemma_tokens_nonempty(s: Seq<u8>)
    ensures
        forall|i: int| 0 <= i < spec_tokens(s).len() ==> (#[trigger] spec_tokens(s)[i]).len() >= 1,
    decreases s.len(),
{
    if s.len() == 0 {
    } else if is_ws(s[0]) {
        lemma_tokens_nonempty(s.drop_first());
        assert forall|i: int| 0 <= i < spec_tokens(s).len() implies (#[trigger] spec_tokens(
            s,
        )[i]).len() >= 1 by {
            assert(spec_tokens(s)[i] == spec_tokens(s.drop_first())[i]);
        }
    } else if nonws_run(s) >= s.len() {
    } else {
        lemma_tokens_nonempty(s.skip(nonws_run(s) as int));
        assert(nonws_run(s) >= 1);
        assert forall|i: int| 0 <= i < spec_tokens(s).len() implies (#[trigger] spec_tokens(
            s,
        )[i]).len() >= 1 by {
            if i > 0 {
                assert(spec_tokens(s)[i] == spec_tokens(s.skip(nonws_run(s) as int))[i - 1]);
            } else {
                assert(spec_tokens(s)[0] == s.take(nonws_run(s) as int));
            }
        }
    }
}

/// Splits a line into its blank-separated tokens.
#[verifier::loop_isolation(false)]
pub fn tokenize(line: &Vec<u8>) -> (r: Vec<Vec<u8>>)
    ensures
        r@.len() == spec_tokens(line@).len(),
        forall|i: int| 0 <= i < r@.len() ==> (#[trigger] r@[i])@ == spec_tokens(line@)[i],
{
    let mut toks: Vec<Vec<u8>> = Vec::new();
    let ghost mut done: Seq<Seq<u8>> = Seq::empty();
    let mut i: usize = 0;
    proof {
        assert(line@.skip(0) =~= line@);
    }
    while i < line.len()
        invariant
            0 <= i <= line@.len(),
            spec_tokens(line@) == done + spec_tokens(line@.skip(i as int)),
            toks@.len() == done.len(),
            forall|j: int| 0 <= j < toks@.len() ==> (#[trigger] toks@[j])@ == done[j],
        decreases line@.len() - i,
    {
        let c = line[i];
        if c == 32 || c == 9 || c == 10 || c == 11 || c == 12 || c == 13 {
            proof {
                assert(is_ws(line@.skip(i as int)[0]));
                assert(line@.skip(i as int).drop_first() =~= line@.skip(i + 1));
            }
            i = i + 1;
        } else {
            let start = i;
            let mut tok: Vec<u8> = Vec::new();
            while i < line.len() && !(line[i] == 32 || line[i] == 9 || line[i] == 10 || line[i]
                == 11 || line[i] == 12 || line[i] == 13)
                invariant
                    start <= i <= line@.len(),
                    forall|j: int| start <= j < i ==> !is_ws(#[trigger] line@[j]),
                    tok@ == line@.subrange(start as int, i as int),
                decreases line@.len() - i,
            {
                proof {
                    assert(line@.subrange(start as int, i + 1).drop_last() =~= line@.subrange(
                        start as int,
                        i as int,
                    ));
                }
                tok.push(line[i]);
                i = i + 1;
            }
            proof {
                let t = line@.skip(start as int);
                assert(forall|j: int| 0 <= j < i - start ==> !is_ws(#[trigger] t[j]));
                lemma_nonws_run_is(t, i - start);
                if i == line@.len() {
                    assert(t =~= line@.subrange(start as int, i as int));
                    assert(spec_tokens(t) == seq![tok@]);
                    assert(spec_tokens(line@.skip(i as int)) =~= Seq::<Seq<u8>>::empty());
                    assert(seq![tok@] =~= seq![tok@] + spec_tokens(line@.skip(i as int)));
                } else {
                    assert(t.take(i - start) =~= line@.subrange(start as int, i as int));
                    assert(t.skip(i - start) =~= line@.skip(i as int));
                }
                assert(spec_tokens(t) == seq![tok@] + spec_tokens(line@.skip(i as int)));
                assert(done + spec_tokens(t) =~= done.push(tok@) + spec_tokens(
                    line@.skip(i as int),
                ));
                done = done.push(tok@);
            }
            toks.push(tok);
        }
    }
    proof {
        assert(line@.skip(line@.len() as int) =~= Seq::<u8>::empty());
        assert(spec_tokens(line@) =~= done);
    }
    toks
}

/// The length of the leading run of bytes before a `/` separator.
pub open spec fn pre_slash(s: Seq<u8>) -> nat
    decreases s.len(),
{
    if s.len() == 0 || s[0] == 47 {
        0
    } else {
        (1 + pre_slash(s.drop_first())) as nat
    }
}

/// The `/`-separated fields of a face token, in order; empty fields are
/// kept, so `3//5` has three fields with an empty middle.
pub open spec fn spec_fields(s: Seq<u8>) -> Seq<Seq<u8>>
    decreases s.len(),
{
    let k = pre_slash(s) as int;
    if k >= s.len() {
        seq![s]
    } else {
        seq![s.take(k)] + spec_fields(s.skip(k + 1))
    }
}

proof fn lemma_pre_slash_is(s: Seq<u8>, k: int)
    requires
        0 <= k <= s.len(),
        forall|j: int| 0 <= j < k ==> #[trigger] s[j] != 47,
        k == s.len() || s[k] == 47,
    ensures
        pre_slash(s) == k,
    decreases k,
{
    if k > 0 {
        assert(forall|j: int| 0 <= j < k - 1 ==> #[trigger] s.drop_first()[j] != 47);
        lemma_pre_slash_is(s.drop_first(), k - 1);
    }
}

/// Splits a face token into its `/`-separated fields.
#[verifier::loop_isolation(false)]
fn split_fields(tok: &Vec<u8>) -> (r: Vec<Vec<u8>>)
    ensures
        r@.len() == spec_fields(tok@).len(),
        forall|i: int| 0 <= i < r@.len() ==> (#[trigger] r@[i])@ == spec_fields(tok@)[i],
{
    let mut fields: Vec<Vec<u8>> = Vec::new();
    let ghost mut done: Seq<Seq<u8>> = Seq::empty();
    let mut cur: Vec<u8> = Vec::new();
    let mut start: usize = 0;
    let mut i: usize = 0;
    proof {
        assert(tok@.skip(0) =~= tok@);
    }
    while i < tok.len()
        invariant
            0 <= start <= i <= tok@.len(),
            spec_fields(tok@) == done + spec_fields(tok@.skip(start as int)),
            fields@.len() == done.len(),
            forall|j: int| 0 <= j < fields@.len() ==> (#[trigger] fields@[j])@ == done[j],
            cur@ == tok@.subrange(start as int, i as int),
            forall|j: int| start <= j < i ==> #[trigger] tok@[j] != 47,
        decreases tok@.len() - i,
    {
        let c = tok[i];
        if c == 47 {
            proof {
                let t = tok@.skip(start as int);
                assert(forall|j: int| 0 <= j < i - start ==> #[trigger] t[j] != 47);
                lemma_pre_slash_is(t, i - start);
                assert(t.take(i - start) =~= tok@.subrange(start as int, i as int));
                assert(t.skip(i - start + 1) =~= tok@.skip(i + 1));
                assert(spec_fields(t) == seq![cur@] + spec_fields(tok@.skip(i + 1)));
                assert(done + spec_fields(t) =~= done.push(cur@) + spec_fields(tok@.skip(i + 1)));
                done = done.push(cur@);
            }
            fields.push(cur);
            cur = Vec::new();
            start = i + 1;
            i = i + 1;
            proof {
                assert(cur@ =~= tok@.subrange(start as int, i as int));
            }
        } else {
            proof {
                assert(tok@.subrange(start as int, i + 1).drop_last() =~= tok@.subrange(
                    start as int,
                    i as int,
                ));
            }
            cur.push(c);
            i = i + 1;
        }
    }
    proof {
        let t = tok@.skip(start as int);
        assert(forall|j: int| 0 <= j < i - start ==> #[trigger] t[j] != 47);
        lemma_pre_slash_is(t, i - start);
        assert(t =~= tok@.subrange(start as int, i as int));
        assert(spec_fields(t) == seq![cur@]);
        assert(done + spec_fields(t) =~= done.push(cur@));
        done = done.push(cur@);
    }
    fields.push(cur);
    fields
}

/// The field at `j`, or the empty (absent) field past the end.
pub open spec fn field_at(fs: Seq<Seq<u8>>, j: int) -> Seq<u8> {
    if 0 <= j < fs.len() {
        fs[j]
    } else {
        Seq::empty()
    }
}

/// The index triple one face token denotes: its first three `/`-separated
/// fields resolved to zero-based indices; fields past the third are ignored,
/// missing fields count as absent.
pub open spec fn spec_face_triple(tok: Seq<u8>) -> IndexTriple {
    (IndexTriple {
        position: spec_face_component(field_at(spec_fields(tok), 0)),
        texcoord: spec_face_component(field_at(spec_fields(tok), 1)),
        normal: spec_face_component(field_at(spec_fields(tok), 2)),
    })
}

/// Resolves one face token to its index triple.
pub fn face_triple(tok: &Vec<u8>) -> (r: IndexTriple)
    ensures
        r == spec_face_triple(tok@),
{
    let fields = split_fields(tok);
    proof {
        assert(spec_fields(tok@).len() >= 1);
        assert(crate::token::spec_parse_u32(Seq::<u8>::empty()) is None);
    }
    let position = face_component(&fields[0]);
    let texcoord = if fields.len() > 1 {
        face_component(&fields[1])
    } else {
        0
    };
    let normal = if fields.len() > 2 {
        face_component(&fields[2])
    } else {
        0
    };
    IndexTriple { position, texcoord, normal }
}

/// One classified input line.
pub enum Record {
    /// A `v` record: a position, three numeric tokens.
    Position(Vector3<Vec<u8>>),
    /// A `vn` record: a normal, three numeric tokens.
    Normal(Vector3<Vec<u8>>),
    /// A `vt` record: a texture coordinate, two numeric tokens.
    Texcoord(Vector2<Vec<u8>>),
    /// An `f` record: a triangle, three corner index triples.
    Face(IndexTriple, IndexTriple, IndexTriple),
    /// A blank line or a comment: silently ignored.
    Ignored,
    /// A line with an unrecognized tag: ignored, but worth a warning.
    Unknown,
}

/// The mathematical value of a [`Record`].
pub enum RecordModel {
    Position(Vector3<Seq<u8>>),
    Normal(Vector3<Seq<u8>>),
    Texcoord(Vector2<Seq<u8>>),
    Face(IndexTriple, IndexTriple, IndexTriple),
    Ignored,
    Unknown,
}

impl View for Record {
    type V = RecordModel;

    open spec fn view(&self) -> RecordModel {
        match self {
            Record::Position(v) => RecordModel::Position(v@),
            Record::Normal(v) => RecordModel::Normal(v@),
            Record::Texcoord(v) => RecordModel::Texcoord(v@),
            Record::Face(a, b, c) => RecordModel::Face(*a, *b, *c),
            Record::Ignored => RecordModel::Ignored,
            Record::Unknown => RecordModel::Unknown,
        }
    }
}

/// What classifying one line yields.
///
/// The first token is the tag.  A missing tag or one starting with `#` means
/// the line is ignored; `v`, `vn` and `vt` demand exactly three (`v`, `vn`)
/// or two (`vt`) further tokens, each a floating-point literal; `f` demands
/// exactly three corner tokens (triangles only); any other tag is unknown.
pub open spec fn spec_parse_line(line: Seq<u8>) -> Result<RecordModel, LoadError> {
    let toks = spec_tokens(line);
    if toks.len() == 0 {
        Ok(RecordModel::Ignored)
    } else if toks[0][0] == 35 {
        Ok(RecordModel::Ignored)
    } else if toks[0] == seq![118u8] {
        if toks.len() == 4 && spec_float_token(toks[1]) && spec_float_token(toks[2])
            && spec_float_token(toks[3]) {
            Ok(RecordModel::Position(Vector3 { x: toks[1], y: toks[2], z: toks[3] }))
        } else {
            Err(LoadError::MalformedRecord)
        }
    } else if toks[0] == seq![118u8, 110u8] {
        if toks.len() == 4 && spec_float_token(toks[1]) && spec_float_token(toks[2])
            && spec_float_token(toks[3]) {
            Ok(RecordModel::Normal(Vector3 { x: toks[1], y: toks[2], z: toks[3] }))
        } else {
            Err(LoadError::MalformedRecord)
        }
    } else if toks[0] == seq![118u8, 116u8] {
        if toks.len() == 3 && spec_float_token(toks[1]) && spec_float_token(toks[2]) {
            Ok(RecordModel::Texcoord(Vector2 { x: toks[1], y: toks[2] }))
        } else {
            Err(LoadError::MalformedRecord)
        }
    } else if toks[0] == seq![102u8] {
        if toks.len() == 4 {
            Ok(RecordModel::Face(
                spec_face_triple(toks[1]),
                spec_face_triple(toks[2]),
                spec_face_triple(toks[3]),
            ))
        } else {
            Err(LoadError::UnsupportedPolygon)
        }
    } else {
        Ok(RecordModel::Unknown)
    }
}

/// Classifies one line of input.
pub fn parse_line(line: &Vec<u8>) -> (r: Result<Record, LoadError>)
    ensures
        match r {
            Ok(rec) => spec_parse_line(line@) == Ok::<RecordModel, LoadError>(rec@),
            Err(e) => spec_parse_line(line@) == Err::<RecordModel, LoadError>(e),
        },
{
    let toks = tokenize(line);
    let ghost stoks = spec_tokens(line@);
    if toks.len() == 0 {
        return Ok(Record::Ignored);
    }
    proof {
        lemma_tokens_nonempty(line@);
    }
    let tag = &toks[0];
    if tag[0] == 35 {
        return Ok(Record::Ignored);
    }
    let is_v = tag.len() == 1 && tag[0] == 118;
    let is_vn = tag.len() == 2 && tag[0] == 118 && tag[1] == 110;
    let is_vt = tag.len() == 2 && tag[0] == 118 && tag[1] == 116;
    let is_f = tag.len() == 1 && tag[0] == 102;
    proof {
        assert(tag@ == stoks[0]);
        if is_v {
            assert(stoks[0] =~= seq![118u8]);
        }
        if is_vn {
            assert(stoks[0] =~= seq![118u8, 110u8]);
        }
        if is_vt {
            assert(stoks[0] =~= seq![118u8, 116u8]);
        }
        if is_f {
            assert(stoks[0] =~= seq![102u8]);
        }
        if stoks[0] == seq![118u8] {
            assert(stoks[0].len() == 1 && stoks[0][0] == 118);
        }
        if stoks[0] == seq![118u8, 110u8] {
            assert(stoks[0].len() == 2 && stoks[0][0] == 118 && stoks[0][1] == 110);
        }
        if stoks[0] == seq![118u8, 116u8] {
            assert(stoks[0].len() == 2 && stoks[0][0] == 118 && stoks[0][1] == 116);
        }
        if stoks[0] == seq![102u8] {
            assert(stoks[0].len() == 1 && stoks[0][0] == 102);
        }
    }
    if is_v || is_vn {
        if toks.len() != 4 {
            return Err(LoadError::MalformedRecord);
        }
        if !is_float_token(&toks[1]) {
            return Err(LoadError::MalformedRecord);
        }
        if !is_float_token(&toks[2]) {
            return Err(LoadError::MalformedRecord);
        }
        if !is_float_token(&toks[3]) {
            return Err(LoadError::MalformedRecord);
        }
        let v = Vector3 {
            x: copy_bytes(&toks[1]),
            y: copy_bytes(&toks[2]),
            z: copy_bytes(&toks[3]),
        };
        if is_v {
            return Ok(Record::Position(v));
        }
        return Ok(Record::Normal(v));
    }
    if is_vt {
        if toks.len() != 3 {
            return Err(LoadError::MalformedRecord);
        }
        if !is_float_token(&toks[1]) {
            return Err(LoadError::MalformedRecord);
        }
        if !is_float_token(&toks[2]) {
            return Err(LoadError::MalformedRecord);
        }
        return Ok(Record::Texcoord(Vector2 { x: copy_bytes(&toks[1]), y: copy_bytes(&toks[2]) }));
    }
    if is_f {
        if toks.len() != 4 {
            return Err(LoadError::UnsupportedPolygon);
        }
        return Ok(Record::Face(
            face_triple(&toks[1]),
            face_triple(&toks[2]),
            face_triple(&toks[3]),
        ));
    }
    Ok(Record::Unknown)
}

/// The length of the leading run of bytes before a line break.
pub open spec fn pre_line(s: Seq<u8>) -> nat
    decreases s.len(),
{
    if s.len() == 0 || s[0] == 10 {
        0
    } else {
        (1 + pre_line(s.drop_first())) as nat
    }
}

/// The lines of the source, split on line feeds; a final line feed closes
/// the last line rather than opening an empty one.
pub open spec fn spec_lines(s: Seq<u8>) -> Seq<Seq<u8>>
    decreases s.len(),
{
    let k = pre_line(s) as int;
    if k >= s.len() {
        if s.len() == 0 {
            Seq::empty()
        } else {
            seq![s]
        }
    } else {
        seq![s.take(k)] + spec_lines(s.skip(k + 1))
    }
}

proof fn lemma_pre_line_is(s: Seq<u8>, k: int)
    requires
        0 <= k <= s.len(),
        forall|j: int| 0 <= j < k ==> #[trigger] s[j] != 10,
        k == s.len() || s[k] == 10,
    ensures
        pre_line(s) == k,
    decreases k,
{
    if k > 0 {
        assert(forall|j: int| 0 <= j < k - 1 ==> #[trigger] s.drop_first()[j] != 10);
        lemma_pre_line_is(s.drop_first(), k - 1);
    }
}

/// How one classified record extends the accumulated raw mesh: attribute
/// records append to their array, a face appends its three corners, and
/// ignored or unknown lines change nothing.
pub open spec fn apply_record(m: RawModel, rec: RecordModel) -> RawModel {
    match rec {
        RecordModel::Position(v) => RawModel {
            positions: m.positions.push(v),
            normals: m.normals,
            texcoords: m.texcoords,
            faces: m.faces,
        },
        RecordModel::Normal(v) => RawModel {
            positions: m.positions,
            normals: m.normals.push(v),
            texcoords: m.texcoords,
            faces: m.faces,
        },
        RecordModel::Texcoord(v) => RawModel {
            positions: m.positions,
            normals: m.normals,
            texcoords: m.texcoords.push(v),
            faces: m.faces,
        },
        RecordModel::Face(a, b, c) => RawModel {
            positions: m.positions,
            normals: m.normals,
            texcoords: m.texcoords,
            faces: m.faces.push(a).push(b).push(c),
        },
        RecordModel::Ignored => m,
        RecordModel::Unknown => m,
    }
}

/// What parsing a list of lines yields: the records applied in order, or the
/// first fatal error.
pub open spec fn spec_parse_lines(lines: Seq<Seq<u8>>) -> Result<RawModel, LoadError>
    decreases lines.len(),
{
    if lines.len() == 0 {
        Ok(RawModel::empty())
    } else {
        match spec_parse_lines(lines.drop_last()) {
            Err(e) => Err(e),
            Ok(m) => match spec_parse_line(lines.last()) {
                Err(e) => Err(e),
                Ok(rec) => Ok(apply_record(m, rec)),
            },
        }
    }
}

/// What parsing a whole source text yields.
pub open spec fn spec_parse_obj(source: Seq<u8>) -> Result<RawModel, LoadError> {
    spec_parse_lines(spec_lines(source))
}

/// Once a prefix of the lines fails, the whole list fails the same way.
proof fn lemma_parse_lines_err(lines: Seq<Seq<u8>>, n: int)
    requires
        0 <= n <= lines.len(),
        spec_parse_lines(lines.take(n)) is Err,
    ensures
        spec_parse_lines(lines) == spec_parse_lines(lines.take(n)),
    decreases lines.len() - n,
{
    if n == lines.len() {
        assert(lines.take(n) =~= lines);
    } else {
        assert(lines.take(n + 1).drop_last() =~= lines.take(n));
        lemma_parse_lines_err(lines, n + 1);
    }
}

/// Parses a whole source text into its raw attribute arrays and face list,
/// or reports the first fatal error.
#[verifier::loop_isolation(false)]
pub fn parse_obj(source: &Vec<u8>) -> (r: Result<RawMesh, LoadError>)
    ensures
        match r {
            Ok(m) => spec_parse_obj(source@) == Ok::<RawModel, LoadError>(m@),
            Err(e) => spec_parse_obj(source@) == Err::<RawModel, LoadError>(e),
        },
{
    let mut mesh = RawMesh::empty();
    let ghost all_lines = spec_lines(source@);
    let ghost mut done: Seq<Seq<u8>> = Seq::empty();
    let mut i: usize = 0;
    proof {
        assert(source@.skip(0) =~= source@);
    }
    while i < source.len()
        invariant
            0 <= i <= source@.len(),
            all_lines == done + spec_lines(source@.skip(i as int)),
            spec_parse_lines(done) == Ok::<RawModel, LoadError>(mesh@),
        decreases source@.len() - i,
    {
        let mut j = i;
        while j < source.len() && source[j] != 10
            invariant
                i <= j <= source@.len(),
                forall|k: int| i <= k < j ==> #[trigger] source@[k] != 10,
            decreases source@.len() - j,
        {
            j = j + 1;
        }
        let mut line: Vec<u8> = Vec::new();
        let mut k = i;
        while k < j
            invariant
                i <= k <= j <= source@.len(),
                line@ == source@.subrange(i as int, k as int),
            decreases j - k,
        {
            proof {
                assert(source@.subrange(i as int, k + 1).drop_last() =~= source@.subrange(
                    i as int,
                    k as int,
                ));
            }
            line.push(source[k]);
            k = k + 1;
        }
        proof {
            assert(line@ =~= source@.subrange(i as int, j as int));
            let t = source@.skip(i as int);
            assert(forall|m: int| 0 <= m < j - i ==> #[trigger] t[m] != 10);
            lemma_pre_line_is(t, j - i);
            if j == source@.len() {
                assert(t =~= line@);
                assert(spec_lines(t) == seq![line@]);
                assert(spec_lines(source@.skip(source@.len() as int)) =~= Seq::<Seq<u8>>::empty());
                assert(seq![line@] =~= seq![line@] + spec_lines(
                    source@.skip(source@.len() as int),
                ));
                assert(spec_lines(t) == seq![line@] + spec_lines(
                    source@.skip(source@.len() as int),
                ));
            } else {
                assert(t.take(j - i) =~= line@);
                assert(t.skip(j - i + 1) =~= source@.skip(j + 1));
                assert(spec_lines(t) == seq![line@] + spec_lines(source@.skip(j + 1)));
            }
        }
        let ghost next: int = if j == source.len() {
            source@.len() as int
        } else {
            j + 1
        };
        proof {
            assert(spec_lines(source@.skip(i as int)) == seq![line@] + spec_lines(
                source@.skip(next),
            ));
            assert(done + spec_lines(source@.skip(i as int)) =~= done.push(line@) + spec_lines(
                source@.skip(next),
            ));
        }
        let rec = match parse_line(&line) {
            Ok(rec) => rec,
            Err(e) => {
                proof {
                    let n = done.len() as int;
                    assert(all_lines.take(n) =~= done);
                    assert(all_lines.take(n + 1) =~= done.push(line@));
                    assert(all_lines.take(n + 1).drop_last() =~= done);
                    assert(spec_parse_lines(all_lines.take(n + 1)) == Err::<RawModel, LoadError>(
                        e,
                    ));
                    lemma_parse_lines_err(all_lines, n + 1);
                }
                return Err(e);
            },
        };
        let ghost old_model = mesh@;
        let ghost recm = rec@;
        match rec {
            Record::Position(v) => {
                mesh.positions.push(v);
            },
            Record::Normal(v) => {
                mesh.normals.push(v);
            },
            Record::Texcoord(v) => {
                mesh.texcoords.push(v);
            },
            Record::Face(a, b, c) => {
                mesh.faces.push(a);
                mesh.faces.push(b);
                mesh.faces.push(c);
            },
            Record::Ignored => {},
            Record::Unknown => {},
        }
        proof {
            assert(mesh@.positions =~= apply_record(old_model, recm).positions);
            assert(mesh@.normals =~= apply_record(old_model, recm).normals);
            assert(mesh@.texcoords =~= apply_record(old_model, recm).texcoords);
            assert(mesh@.faces =~= apply_record(old_model, recm).faces);
            assert(mesh@ =~= apply_record(old_model, recm));
            let done2 = done.push(line@);
            assert(done2.drop_last() =~= done);
            assert(done2.last() == line@);
            assert(spec_parse_lines(done2) == Ok::<RawModel, LoadError>(mesh@));
            done = done2;
        }
        if j == source.len() {
            i = source.len();
        } else {
            i = j + 1;
        }
    }
    proof {
        assert(spec_lines(source@.skip(source@.len() as int)) =~= Seq::<Seq<u8>>::empty());
        assert(all_lines =~= done);
    }
    Ok(mesh)
}

} // verus!
