//! The mesh loader: parses a line-oriented model text into triangles.
//!
//! Each line is classified by its first two bytes. `v ` declares a vertex,
//! `vn` a normal, `f ` a face; every other line is skipped. Vertex and
//! normal lines carry three numeric fields, each read under the lenient
//! policy of [`crate::numeral`]; a missing field stands for zero and fields
//! beyond the third are ignored. A face line carries 1-based vertex indices:
//! three indices give one triangle, four give two (`v0 v1 v3` and
//! `v1 v2 v3`), and each face consumes one normal from a cursor that walks
//! the normals in declaration order — one step per face, not per triangle.
//! A face with any other index count aborts the parse.

use vstd::prelude::*;
use crate::fixed::Fixed;
use crate::geometry::{Vector3, Triangle};
use crate::numeral::{is_digit, digit_val, scalar_units, parse_scalar, lemma_scalar_units_range};

verus! {

/// ASCII line feed.
pub const NL: u8 = 10;

/// Whether `b` separates tokens within a line (space, tab, carriage return).
pub open spec fn is_ws(b: u8) -> bool {
    b == 32 || b == 9 || b == 13
}

/// The whitespace-separated tokens of one line, in order.
pub open spec fn spec_tokens(s: Seq<u8>) -> Seq<Seq<u8>>
    decreases s.len(),
{
    if s.len() == 0 {
        seq![]
    } else {
        let rest = spec_tokens(s.skip(1));
        if is_ws(s[0]) {
            rest
        } else if s.len() == 1 || is_ws(s[1]) {
            seq![seq![s[0]]].add(rest)
        } else {
            seq![seq![s[0]].add(rest[0])].add(rest.skip(1))
        }
    }
}

/// The lines of a text, split on line feeds; a trailing line feed closes
/// the last line without opening an empty one.
pub open spec fn spec_lines(s: Seq<u8>) -> Seq<Seq<u8>>
    decreases s.len(),
{
    if s.len() == 0 {
        seq![]
    } else if s[0] == NL {
        seq![Seq::<u8>::empty()].add(spec_lines(s.skip(1)))
    } else {
        let rest = spec_lines(s.skip(1));
        if rest.len() == 0 {
            seq![seq![s[0]]]
        } else {
            seq![seq![s[0]].add(rest[0])].add(rest.skip(1))
        }
    }
}

/// A nonempty text has at least one line.
pub proof fn lemma_lines_nonempty(s: Seq<u8>)
    requires
        s.len() > 0,
    ensures
        spec_lines(s).len() >= 1,
{
}

/// A maximal run of non-separator bytes is the text's first token.
pub proof fn lemma_tokens_run(s: Seq<u8>, e: int)
    requires
        0 < e <= s.len(),
        forall|m: int| 0 <= m < e ==> !is_ws(s[m]),
        e < s.len() ==> is_ws(s[e]),
    ensures
        spec_tokens(s) == seq![s.take(e)].add(spec_tokens(s.skip(e))),
    decreases e,
{
    if e == 1 {
        assert(s.take(1) =~= seq![s[0]]);
        if s.len() == 1 {
            assert(s.skip(1) =~= Seq::<u8>::empty());
            assert(spec_tokens(s) =~= seq![s.take(1)].add(spec_tokens(s.skip(1))));
        }
    } else {
        let t = s.skip(1);
        assert forall|m: int| 0 <= m < e - 1 implies !is_ws(t[m]) by {
            assert(t[m] == s[m + 1]);
        }
        assert(e - 1 < t.len() ==> is_ws(t[e - 1]));
        lemma_tokens_run(t, e - 1);
        let rest = spec_tokens(t);
        assert(rest[0] == t.take(e - 1));
        assert(seq![s[0]].add(t.take(e - 1)) =~= s.take(e));
        assert(rest.skip(1) =~= spec_tokens(t.skip(e - 1)));
        assert(t.skip(e - 1) =~= s.skip(e));
        assert(!is_ws(s[1]));
        assert(spec_tokens(s) == seq![seq![s[0]].add(rest[0])].add(rest.skip(1)));
    }
}

/// A maximal run of non-linefeed bytes is the text's first line.
pub proof fn lemma_lines_run(s: Seq<u8>, e: int)
    requires
        s.len() > 0,
        0 <= e <= s.len(),
        forall|m: int| 0 <= m < e ==> s[m] != NL,
        e < s.len() ==> s[e] == NL,
    ensures
        e == s.len() ==> spec_lines(s) == seq![s],
        e < s.len() ==> spec_lines(s) == seq![s.take(e)].add(spec_lines(s.skip(e + 1))),
    decreases e,
{
    if e == 0 {
        if e < s.len() {
            assert(s[0] == NL);
            assert(s.take(0) =~= Seq::<u8>::empty());
            assert(s.skip(1) =~= s.skip(e + 1));
        }
    } else {
        assert(s[0] != NL);
        if s.len() == 1 {
            assert(spec_lines(s.skip(1)).len() == 0);
            assert(spec_lines(s) == seq![seq![s[0]]]);
            assert(seq![s[0]] =~= s);
        } else {
            let t = s.skip(1);
            assert forall|m: int| 0 <= m < e - 1 implies t[m] != NL by {
                assert(t[m] == s[m + 1]);
            }
            assert(e - 1 < t.len() ==> t[e - 1] == NL);
            lemma_lines_run(t, e - 1);
            lemma_lines_nonempty(t);
            let rest = spec_lines(t);
            if e == s.len() {
                assert(rest == seq![t]);
                assert(seq![s[0]].add(t) =~= s);
                assert(rest.skip(1) =~= Seq::<Seq<u8>>::empty());
                assert(spec_lines(s) == seq![seq![s[0]].add(rest[0])].add(rest.skip(1)));
                assert(seq![s].add(Seq::<Seq<u8>>::empty()) =~= seq![s]);
            } else {
                assert(rest == seq![t.take(e - 1)].add(spec_lines(t.skip(e))));
                assert(rest[0] == t.take(e - 1));
                assert(seq![s[0]].add(t.take(e - 1)) =~= s.take(e));
                assert(rest.skip(1) =~= spec_lines(t.skip(e)));
                assert(t.skip(e) =~= s.skip(e + 1));
                assert(spec_lines(s) == seq![seq![s[0]].add(rest[0])].add(rest.skip(1)));
            }
        }
    }
}

/// A structural parse failure. Numeric leniency means malformed numbers are
/// never an error; these two conditions are.
#[derive(Clone, Copy, Debug, PartialEq, Eq, Structural)]
pub enum ParseError {
    /// A face referred to a vertex or normal that was not declared.
    IndexOutOfRange,
    /// A face declared a polygon with a vertex count other than 3 or 4.
    UnsupportedPolygon { sides: usize },
}

/// The loader's working state: the declarations seen so far and the normal
/// cursor, which names the normal the next face will take.
pub ghost struct LoaderState {
    pub vertices: Seq<Vector3>,
    pub normals: Seq<Vector3>,
    pub cursor: int,
    pub triangles: Seq<Triangle>,
}

/// The state before any line was read.
pub open spec fn init_state() -> LoaderState {
    LoaderState { vertices: seq![], normals: seq![], cursor: 0, triangles: seq![] }
}

/// The token at `i`, or the empty token when the line is shorter.
pub open spec fn tok_at(p: Seq<Seq<u8>>, i: int) -> Seq<u8> {
    if 0 <= i < p.len() {
        p[i]
    } else {
        Seq::empty()
    }
}

/// The vector a vertex or normal line declares: the three fields after the
/// directive token, each read leniently; a missing field stands for zero
/// and fields beyond the third are ignored.
pub open spec fn spec_vector(p: Seq<Seq<u8>>) -> Vector3 {
    Vector3 {
        x: Fixed { units: scalar_units(tok_at(p, 1)) as i64 },
        y: Fixed { units: scalar_units(tok_at(p, 2)) as i64 },
        z: Fixed { units: scalar_units(tok_at(p, 3)) as i64 },
    }
}

/// The 1-based vertex index a face token stands for: the value of its first
/// character when that is a digit, and zero (out of range) otherwise. Only
/// the first character counts, so indices of ten and above cannot be
/// written — a known limit of the face syntax.
pub open spec fn face_index(t: Seq<u8>) -> int {
    if t.len() > 0 && is_digit(t[0]) {
        digit_val(t[0])
    } else {
        0
    }
}

/// Whether a line declares a vertex.
pub open spec fn is_vertex_line(l: Seq<u8>) -> bool {
    l.len() >= 2 && l[0] == 118 && l[1] == 32
}

/// Whether a line declares a normal.
pub open spec fn is_normal_line(l: Seq<u8>) -> bool {
    l.len() >= 2 && l[0] == 118 && l[1] == 110
}

/// Whether a line declares a face.
pub open spec fn is_face_line(l: Seq<u8>) -> bool {
    l.len() >= 2 && l[0] == 102 && l[1] == 32
}

/// Whether a 1-based face index lands inside the declared vertices.
pub open spec fn index_ok(i: int, st: LoaderState) -> bool {
    1 <= i <= st.vertices.len()
}

/// What one line does to the loader state.
pub open spec fn spec_step(st: LoaderState, l: Seq<u8>) -> Result<LoaderState, ParseError> {
    if is_vertex_line(l) {
        Ok(
            LoaderState {
                vertices: st.vertices.push(spec_vector(spec_tokens(l))),
                normals: st.normals,
                cursor: st.cursor,
                triangles: st.triangles,
            },
        )
    } else if is_normal_line(l) {
        Ok(
            LoaderState {
                vertices: st.vertices,
                normals: st.normals.push(spec_vector(spec_tokens(l))),
                cursor: st.cursor,
                triangles: st.triangles,
            },
        )
    } else if is_face_line(l) {
        let p = spec_tokens(l);
        if p.len() == 4 {
            let i0 = face_index(p[1]);
            let i1 = face_index(p[2]);
            let i2 = face_index(p[3]);
            if !(index_ok(i0, st) && index_ok(i1, st) && index_ok(i2, st)) {
                Err(ParseError::IndexOutOfRange)
            } else if !(0 <= st.cursor < st.normals.len()) {
                Err(ParseError::IndexOutOfRange)
            } else {
                Ok(
                    LoaderState {
                        vertices: st.vertices,
                        normals: st.normals,
                        cursor: st.cursor + 1,
                        triangles: st.triangles.push(
                            Triangle {
                                a: st.vertices[i0 - 1],
                                b: st.vertices[i1 - 1],
                                c: st.vertices[i2 - 1],
                                n: st.normals[st.cursor],
                            },
                        ),
                    },
                )
            }
        } else if p.len() == 5 {
            let i0 = face_index(p[1]);
            let i1 = face_index(p[2]);
            let i2 = face_index(p[3]);
            let i3 = face_index(p[4]);
            if !(index_ok(i0, st) && index_ok(i1, st) && index_ok(i2, st) && index_ok(i3, st)) {
                Err(ParseError::IndexOutOfRange)
            } else if !(0 <= st.cursor < st.normals.len()) {
                Err(ParseError::IndexOutOfRange)
            } else {
                Ok(
                    LoaderState {
                        vertices: st.vertices,
                        normals: st.normals,
                        cursor: st.cursor + 1,
                        triangles: st.triangles.push(
                            Triangle {
                                a: st.vertices[i0 - 1],
                                b: st.vertices[i1 - 1],
                                c: st.vertices[i3 - 1],
                                n: st.normals[st.cursor],
                            },
                        ).push(
                            Triangle {
                                a: st.vertices[i1 - 1],
                                b: st.vertices[i2 - 1],
                                c: st.vertices[i3 - 1],
                                n: st.normals[st.cursor],
                            },
                        ),
                    },
                )
            }
        } else {
            Err(ParseError::UnsupportedPolygon { sides: (p.len() - 1) as usize })
        }
    } else {
        Ok(st)
    }
}

/// Each face consumes exactly one normal, whether it emitted one triangle
/// or two, and every triangle it emits carries the normal that stood under
/// the cursor; any other line leaves the cursor where it was. This keeps
/// normal assignment aligned when triangle and quad faces interleave.
pub proof fn lemma_one_normal_per_face(st: LoaderState, l: Seq<u8>)
    requires
        spec_step(st, l) is Ok,
    ensures
        is_face_line(l) ==> (spec_step(st, l)->Ok_0).cursor == st.cursor + 1,
        !is_face_line(l) ==> (spec_step(st, l)->Ok_0).cursor == st.cursor,
        (spec_step(st, l)->Ok_0).triangles.take(st.triangles.len() as int) == st.triangles,
        forall|i: int|
            st.triangles.len() <= i < (spec_step(st, l)->Ok_0).triangles.len() ==> (spec_step(
                st,
                l,
            )->Ok_0).triangles[i].n == st.normals[st.cursor],
{
    let st2 = spec_step(st, l)->Ok_0;
    assert(st2.triangles.take(st.triangles.len() as int) =~= st.triangles);
}

/// Numeric leniency never aborts: a vertex or normal line always succeeds,
/// whatever bytes its fields hold — a malformed field only reads as zero.
pub proof fn lemma_lenient_line_never_aborts(st: LoaderState, l: Seq<u8>)
    requires
        is_vertex_line(l) || is_normal_line(l) || !is_face_line(l),
    ensures
        spec_step(st, l) is Ok,
{
}

/// Folds the step over a sequence of lines, stopping at the first failure.
pub open spec fn spec_run(st: LoaderState, ls: Seq<Seq<u8>>) -> Result<LoaderState, ParseError>
    decreases ls.len(),
{
    if ls.len() == 0 {
        Ok(st)
    } else {
        match spec_step(st, ls[0]) {
            Err(e) => Err(e),
            Ok(st2) => spec_run(st2, ls.skip(1)),
        }
    }
}

/// What a whole model text parses to.
pub open spec fn spec_parse(s: Seq<u8>) -> Result<LoaderState, ParseError> {
    spec_run(init_state(), spec_lines(s))
}

/// The in-memory mesh a model text declared: vertices, normals, and the
/// triangles assembled from the faces, each in declaration order.
pub struct Model {
    pub vertices: Vec<Vector3>,
    pub normals: Vec<Vector3>,
    pub triangles: Vec<Triangle>,
}

struct Loader {
    vertices: Vec<Vector3>,
    normals: Vec<Vector3>,
    triangles: Vec<Triangle>,
    cursor: usize,
}

impl View for Loader {
    type V = LoaderState;

    closed spec fn view(&self) -> LoaderState {
        LoaderState {
            vertices: self.vertices@,
            normals: self.normals@,
            cursor: self.cursor as int,
            triangles: self.triangles@,
        }
    }
}

/// Splits one line into its whitespace-separated tokens.
fn split_tokens(line: &[u8]) -> (r: Vec<Vec<u8>>)
    ensures
        r@.map_values(|t: Vec<u8>| t@) == spec_tokens(line@),
{
    let mut toks: Vec<Vec<u8>> = Vec::new();
    let mut p: usize = 0;
    proof {
        assert(line@.skip(0) =~= line@);
        assert(toks@.map_values(|t: Vec<u8>| t@) =~= Seq::<Seq<u8>>::empty());
        assert(Seq::<Seq<u8>>::empty().add(spec_tokens(line@)) =~= spec_tokens(line@));
    }
    while p < line.len()
        invariant
            p <= line@.len(),
            spec_tokens(line@) == toks@.map_values(|t: Vec<u8>| t@).add(
                spec_tokens(line@.skip(p as int)),
            ),
        decreases line@.len() - p,
    {
        if line[p] == 32 || line[p] == 9 || line[p] == 13 {
            proof {
                assert(line@.skip(p as int)[0] == line@[p as int]);
                assert(line@.skip(p as int).skip(1) =~= line@.skip(p + 1));
            }
            p = p + 1;
        } else {
            let start = p;
            let mut q = p + 1;
            while q < line.len() && !(line[q] == 32 || line[q] == 9 || line[q] == 13)
                invariant
                    start < q <= line@.len(),
                    forall|m: int| start <= m < q ==> !is_ws(line@[m]),
                decreases line@.len() - q,
            {
                q = q + 1;
            }
            proof {
                let t = line@.skip(start as int);
                assert forall|m: int| 0 <= m < q - start implies !is_ws(t[m]) by {
                    assert(t[m] == line@[start + m]);
                }
                if (q as int) < line@.len() {
                    assert(t[q - start] == line@[q as int]);
                }
                lemma_tokens_run(t, q - start);
                assert(t.take(q - start) =~= line@.subrange(start as int, q as int));
                assert(t.skip(q - start) =~= line@.skip(q as int));
            }
            let tok = vstd::slice::slice_to_vec(&line[start..q]);
            let ghost before = toks@.map_values(|t: Vec<u8>| t@);
            toks.push(tok);
            proof {
                assert(toks@.map_values(|t: Vec<u8>| t@) =~= before.push(
                    line@.subrange(start as int, q as int),
                ));
                assert(before.push(line@.subrange(start as int, q as int)).add(
                    spec_tokens(line@.skip(q as int)),
                ) =~= before.add(
                    seq![line@.subrange(start as int, q as int)].add(
                        spec_tokens(line@.skip(q as int)),
                    ),
                ));
            }
            p = q;
        }
    }
    proof {
        assert(line@.skip(p as int) =~= Seq::<u8>::empty());
        assert(toks@.map_values(|t: Vec<u8>| t@).add(Seq::<Seq<u8>>::empty()) =~= toks@.map_values(
            |t: Vec<u8>| t@,
        ));
    }
    toks
}

/// Reads the three numeric fields after the directive token.
fn read_vector(toks: &Vec<Vec<u8>>) -> (v: Vector3)
    ensures
        v == spec_vector(toks@.map_values(|t: Vec<u8>| t@)),
{
    let ghost p = toks@.map_values(|t: Vec<u8>| t@);
    proof {
        lemma_scalar_units_range(tok_at(p, 1));
        lemma_scalar_units_range(tok_at(p, 2));
        lemma_scalar_units_range(tok_at(p, 3));
    }
    let x = if toks.len() > 1 {
        parse_scalar(toks[1].as_slice())
    } else {
        Fixed { units: 0 }
    };
    let y = if toks.len() > 2 {
        parse_scalar(toks[2].as_slice())
    } else {
        Fixed { units: 0 }
    };
    let z = if toks.len() > 3 {
        parse_scalar(toks[3].as_slice())
    } else {
        Fixed { units: 0 }
    };
    proof {
        if p.len() <= 1 {
            assert(scalar_units(Seq::<u8>::empty()) == 0);
        }
        if p.len() <= 2 {
            assert(scalar_units(Seq::<u8>::empty()) == 0);
        }
        if p.len() <= 3 {
            assert(scalar_units(Seq::<u8>::empty()) == 0);
        }
    }
    Vector3 { x, y, z }
}

/// Reads one face token as a 1-based vertex index.
fn read_face_index(t: &Vec<u8>) -> (r: usize)
    ensures
        r as int == face_index(t@),
{
    if t.len() > 0 && 48 <= t[0] && t[0] <= 57 {
        (t[0] - 48) as usize
    } else {
        0
    }
}

impl Loader {
    /// Applies one line to the working state.
    fn apply_line(&mut self, line: &[u8]) -> (r: Result<(), ParseError>)
        ensures
            match r {
                Ok(_) => spec_step(old(self)@, line@) == Ok::<LoaderState, ParseError>(final(self)@),
                Err(e) => final(self)@ == old(self)@ && spec_step(old(self)@, line@) == Err::<
                    LoaderState,
                    ParseError,
                >(e),
            },
    {
        if line.len() >= 2 && line[0] == 118 && line[1] == 32 {
            let toks = split_tokens(line);
            let v = read_vector(&toks);
            self.vertices.push(v);
            Ok(())
        } else if line.len() >= 2 && line[0] == 118 && line[1] == 110 {
            let toks = split_tokens(line);
            let v = read_vector(&toks);
            self.normals.push(v);
            Ok(())
        } else if line.len() >= 2 && line[0] == 102 && line[1] == 32 {
            let toks = split_tokens(line);
            let ghost p = spec_tokens(line@);
            proof {
                assert(!is_ws(line@[0]));
                assert(p.len() >= 1);
                assert(toks@.len() == p.len());
            }
            if toks.len() == 4 {
                let i0 = read_face_index(&toks[1]);
                let i1 = read_face_index(&toks[2]);
                let i2 = read_face_index(&toks[3]);
                if i0 == 0 || i0 > self.vertices.len() || i1 == 0 || i1 > self.vertices.len() || i2
                    == 0 || i2 > self.vertices.len() {
                    return Err(ParseError::IndexOutOfRange);
                }
                if self.cursor >= self.normals.len() {
                    return Err(ParseError::IndexOutOfRange);
                }
                let tri = Triangle {
                    a: self.vertices[i0 - 1],
                    b: self.vertices[i1 - 1],
                    c: self.vertices[i2 - 1],
                    n: self.normals[self.cursor],
                };
                self.triangles.push(tri);
                self.cursor = self.cursor + 1;
                Ok(())
            } else if toks.len() == 5 {
                let i0 = read_face_index(&toks[1]);
                let i1 = read_face_index(&toks[2]);
                let i2 = read_face_index(&toks[3]);
                let i3 = read_face_index(&toks[4]);
                if i0 == 0 || i0 > self.vertices.len() || i1 == 0 || i1 > self.vertices.len() || i2
                    == 0 || i2 > self.vertices.len() || i3 == 0 || i3 > self.vertices.len() {
                    return Err(ParseError::IndexOutOfRange);
                }
                if self.cursor >= self.normals.len() {
                    return Err(ParseError::IndexOutOfRange);
                }
                let tri1 = Triangle {
                    a: self.vertices[i0 - 1],
                    b: self.vertices[i1 - 1],
                    c: self.vertices[i3 - 1],
                    n: self.normals[self.cursor],
                };
                let tri2 = Triangle {
                    a: self.vertices[i1 - 1],
                    b: self.vertices[i2 - 1],
                    c: self.vertices[i3 - 1],
                    n: self.normals[self.cursor],
                };
                self.triangles.push(tri1);
                self.triangles.push(tri2);
                self.cursor = self.cursor + 1;
                Ok(())
            } else {
                Err(ParseError::UnsupportedPolygon { sides: toks.len() - 1 })
            }
        } else {
            Ok(())
        }
    }
}

/// Parses a whole model text. On success the returned model holds every
/// declared vertex and normal and every assembled triangle, in order; on
/// failure the text's first structural fault is reported and no mesh is
/// returned.
pub fn parse_model(input: &[u8]) -> (r: Result<Model, ParseError>)
    ensures
        match r {
            Ok(m) => spec_parse(input@) matches Ok(st) && m.vertices@ == st.vertices && m.normals@
                == st.normals && m.triangles@ == st.triangles,
            Err(e) => spec_parse(input@) == Err::<LoaderState, ParseError>(e),
        },
{
    let mut loader = Loader {
        vertices: Vec::new(),
        normals: Vec::new(),
        triangles: Vec::new(),
        cursor: 0,
    };
    proof {
        assert(loader@.vertices =~= init_state().vertices);
        assert(loader@.normals =~= init_state().normals);
        assert(loader@.triangles =~= init_state().triangles);
        assert(loader@ == init_state());
        assert(input@.skip(0) =~= input@);
    }
    let mut pos: usize = 0;
    while pos < input.len()
        invariant
            pos <= input@.len(),
            spec_run(loader@, spec_lines(input@.skip(pos as int))) == spec_parse(input@),
        decreases input@.len() - pos,
    {
        let start = pos;
        let mut e = pos;
        while e < input.len() && input[e] != NL
            invariant
                start <= e <= input@.len(),
                input@.len() == input.len(),
                forall|m: int| start <= m < e ==> input@[m] != NL,
            decreases input@.len() - e,
        {
            e = e + 1;
        }
        let ghost t = input@.skip(start as int);
        proof {
            assert forall|m: int| 0 <= m < e - start implies t[m] != NL by {
                assert(t[m] == input@[start + m]);
            }
            if (e as int) < input@.len() {
                assert(t[e - start] == input@[e as int]);
            }
            lemma_lines_run(t, e - start);
            assert(t.take(e - start) =~= input@.subrange(start as int, e as int));
        }
        let line = &input[start..e];
        let step = loader.apply_line(line);
        match step {
            Err(err) => {
                proof {
                    if e == input.len() {
                        assert(spec_lines(t) == seq![t]);
                        assert(t =~= line@);
                        assert(spec_run(loader@, spec_lines(t)) == Err::<LoaderState, ParseError>(
                            err,
                        ));
                    } else {
                        assert(spec_lines(t) == seq![line@].add(spec_lines(t.skip(e - start + 1))));
                        assert(spec_lines(t)[0] == line@);
                        assert(spec_run(loader@, spec_lines(t)) == Err::<LoaderState, ParseError>(
                            err,
                        ));
                    }
                }
                return Err(err);
            },
            Ok(_) => {},
        }
        proof {
            if e == input.len() {
                assert(spec_lines(t) == seq![t]);
                assert(t =~= line@);
                assert(spec_lines(t).skip(1) =~= Seq::<Seq<u8>>::empty());
                assert(input@.skip(input@.len() as int) =~= Seq::<u8>::empty());
            } else {
                assert(spec_lines(t) == seq![line@].add(spec_lines(t.skip(e - start + 1))));
                assert(spec_lines(t)[0] == line@);
                assert(spec_lines(t).skip(1) =~= spec_lines(t.skip(e - start + 1)));
                assert(t.skip(e - start + 1) =~= input@.skip(e + 1));
            }
        }
        pos = if e < input.len() {
            e + 1
        } else {
            e
        };
    }
    proof {
        assert(input@.skip(pos as int) =~= Seq::<u8>::empty());
    }
    Ok(Model { vertices: loader.vertices, normals: loader.normals, triangles: loader.triangles })
}

/// Parses a model text and keeps only its triangle list, in emission order.
pub fn parse_mesh(input: &[u8]) -> (r: Result<Vec<Triangle>, ParseError>)
    ensures
        match r {
            Ok(ts) => spec_parse(input@) matches Ok(st) && ts@ == st.triangles,
            Err(e) => spec_parse(input@) == Err::<LoaderState, ParseError>(e),
        },
{
    match parse_model(input) {
        Ok(m) => Ok(m.triangles),
        Err(e) => Err(e),
    }
}

} // verus!
