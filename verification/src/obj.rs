//! The line grammar of Wavefront OBJ geometry and MTL material files.
//!
//! Each line is split into whitespace-separated words; the first word
//! names a command.  Geometry commands carry either numeric literals,
//! which the caller converts, or `/`-separated vertex index tuples,
//! which are parsed and validated here.  The grammar itself — which
//! commands exist, how many arguments each takes, how a face turns into
//! triangles, and the material state machine spanning lines — is
//! verified here; reading the file and decoding the referenced images
//! are the caller's work.

use vstd::prelude::*;

verus! {

/// Whether a byte is ASCII whitespace, the separator between words.
pub open spec fn is_space(b: u8) -> bool {
    b == 32 || b == 9 || b == 10 || b == 13 || b == 11 || b == 12
}

/// The word separator: ASCII whitespace.
pub open spec fn space_sep() -> spec_fn(u8) -> bool {
    |b: u8| is_space(b)
}

/// The separator inside a face vertex word: `/`.
pub open spec fn slash_sep() -> spec_fn(u8) -> bool {
    |b: u8| b == 47
}

/// The longest prefix of `s` free of separator bytes.
pub open spec fn take_word(s: Seq<u8>, sep: spec_fn(u8) -> bool) -> Seq<u8>
    decreases s.len(),
{
    if s.len() == 0 || sep(s[0]) {
        Seq::empty()
    } else {
        seq![s[0]] + take_word(s.skip(1), sep)
    }
}

proof fn lemma_take_word_len(s: Seq<u8>, sep: spec_fn(u8) -> bool)
    ensures
        take_word(s, sep).len() <= s.len(),
    decreases s.len(),
{
    if s.len() == 0 || sep(s[0]) {
    } else {
        lemma_take_word_len(s.skip(1), sep);
    }
}

/// The maximal separator-free runs of `s`, in order: the words of a
/// line, or the segments of a face vertex word.  Empty runs between
/// adjacent separators do not appear.
pub open spec fn words_of(s: Seq<u8>, sep: spec_fn(u8) -> bool) -> Seq<Seq<u8>>
    decreases s.len(),
    via words_of_decreases
{
    if s.len() == 0 {
        Seq::empty()
    } else if sep(s[0]) {
        words_of(s.skip(1), sep)
    } else {
        seq![take_word(s, sep)] + words_of(s.skip(take_word(s, sep).len() as int), sep)
    }
}

#[via_fn]
proof fn words_of_decreases(s: Seq<u8>, sep: spec_fn(u8) -> bool) {
    if s.len() > 0 && !sep(s[0]) {
        lemma_take_word_len(s, sep);
    }
}

/// If the bytes of `s` from `i` up to `j` are free of separators and
/// `j` sits at a separator or at the end, then the word starting at `i`
/// is exactly `s[i..j]`.
proof fn lemma_word_span(s: Seq<u8>, sep: spec_fn(u8) -> bool, i: int, j: int)
    requires
        0 <= i <= j <= s.len(),
        forall|k: int| i <= k < j ==> !sep(#[trigger] s[k]),
        j == s.len() || sep(s[j]),
    ensures
        take_word(s.skip(i), sep) == s.subrange(i, j),
    decreases j - i,
{
    if i == j {
        assert(take_word(s.skip(i), sep) == Seq::<u8>::empty());
        assert(s.subrange(i, i) =~= Seq::<u8>::empty());
    } else {
        assert(s.skip(i)[0] == s[i]);
        assert(s.skip(i).skip(1) =~= s.skip(i + 1));
        lemma_word_span(s, sep, i + 1, j);
        assert(take_word(s.skip(i), sep) == seq![s[i]] + take_word(s.skip(i + 1), sep));
        assert(seq![s[i]] + s.subrange(i + 1, j) =~= s.subrange(i, j));
    }
}

/// Skipping a leading separator does not change the words.
proof fn lemma_words_skip_sep(s: Seq<u8>, sep: spec_fn(u8) -> bool, i: int)
    requires
        0 <= i < s.len(),
        sep(s[i]),
    ensures
        words_of(s.skip(i), sep) == words_of(s.skip(i + 1), sep),
{
    assert(s.skip(i)[0] == s[i]);
    assert(s.skip(i).skip(1) =~= s.skip(i + 1));
}

/// A word spanning `[i, j)` contributes itself and leaves the rest of
/// the line to continue after `j`.
proof fn lemma_words_take_word(s: Seq<u8>, sep: spec_fn(u8) -> bool, i: int, j: int)
    requires
        0 <= i < j <= s.len(),
        forall|k: int| i <= k < j ==> !sep(#[trigger] s[k]),
        j == s.len() || sep(s[j]),
    ensures
        words_of(s.skip(i), sep) == seq![s.subrange(i, j)] + words_of(s.skip(j), sep),
{
    lemma_word_span(s, sep, i, j);
    assert(s.skip(i)[0] == s[i]);
    assert(!sep(s.skip(i)[0]));
    assert(take_word(s.skip(i), sep).len() == j - i);
    assert(s.skip(i).skip(j - i) =~= s.skip(j));
}

fn byte_is_sep(b: u8, slash: bool) -> (r: bool)
    ensures
        r == if slash {
            slash_sep()(b)
        } else {
            space_sep()(b)
        },
{
    if slash {
        b == 47
    } else {
        b == 32 || b == 9 || b == 10 || b == 13 || b == 11 || b == 12
    }
}

/// The views of a sequence of byte vectors.
pub open spec fn views_of(ws: Seq<Vec<u8>>) -> Seq<Seq<u8>> {
    Seq::new(ws.len(), |i: int| ws[i]@)
}

proof fn lemma_views_of_push(ws: Seq<Vec<u8>>, v: Vec<u8>)
    ensures
        views_of(ws.push(v)) == views_of(ws).push(v@),
{
    assert(views_of(ws.push(v)) =~= views_of(ws).push(v@));
}

fn split_by(line: &[u8], slash: bool) -> (words: Vec<Vec<u8>>)
    ensures
        views_of(words@) == words_of(
            line@,
            if slash {
                slash_sep()
            } else {
                space_sep()
            },
        ),
{
    let ghost sep: spec_fn(u8) -> bool = if slash {
        slash_sep()
    } else {
        space_sep()
    };
    let n = line.len();
    let mut words: Vec<Vec<u8>> = Vec::new();
    let mut i: usize = 0;
    proof {
        assert(line@.skip(0) =~= line@);
        assert(views_of(words@) =~= Seq::<Seq<u8>>::empty());
        assert(Seq::<Seq<u8>>::empty() + words_of(line@, sep) =~= words_of(line@, sep));
    }
    while i < n
        invariant
            i <= n,
            n == line@.len(),
            sep == (if slash {
                slash_sep()
            } else {
                space_sep()
            }),
            views_of(words@) + words_of(line@.skip(i as int), sep) == words_of(line@, sep),
        decreases n - i,
    {
        if byte_is_sep(line[i], slash) {
            proof {
                lemma_words_skip_sep(line@, sep, i as int);
            }
            i = i + 1;
        } else {
            let ghost start: int = i as int;
            let ghost old_words: Seq<Seq<u8>> = views_of(words@);
            let mut w: Vec<u8> = Vec::new();
            proof {
                assert(w@ =~= line@.subrange(start, start));
            }
            while i < n && !byte_is_sep(line[i], slash)
                invariant
                    0 <= start <= i <= n,
                    n == line@.len(),
                    sep == (if slash {
                        slash_sep()
                    } else {
                        space_sep()
                    }),
                    forall|k: int| start <= k < i ==> !sep(#[trigger] line@[k]),
                    w@ == line@.subrange(start, i as int),
                decreases n - i,
            {
                let b = line[i];
                w.push(b);
                proof {
                    assert(w@ =~= line@.subrange(start, i + 1));
                }
                i = i + 1;
            }
            proof {
                lemma_words_take_word(line@, sep, start, i as int);
            }
            let ghost wv: Seq<u8> = w@;
            let ghost pre_push: Seq<Vec<u8>> = words@;
            words.push(w);
            proof {
                lemma_views_of_push(pre_push, words@.last());
                assert(views_of(words@) == old_words.push(wv));
                assert(old_words.push(wv) =~= old_words + seq![wv]);
                assert((old_words + seq![wv]) + words_of(line@.skip(i as int), sep) =~= old_words
                    + (seq![wv] + words_of(line@.skip(i as int), sep)));
            }
        }
    }
    proof {
        assert(line@.skip(n as int) =~= Seq::<u8>::empty());
        assert(views_of(words@) + words_of(Seq::<u8>::empty(), sep) =~= views_of(words@));
    }
    words
}

/// Splits a line into its whitespace-separated words.
pub fn split_words(line: &[u8]) -> (words: Vec<Vec<u8>>)
    ensures
        views_of(words@) == words_of(line@, space_sep()),
{
    split_by(line, false)
}

/// Splits a face vertex word at `/`, dropping empty segments.
pub fn split_segments(word: &[u8]) -> (segs: Vec<Vec<u8>>)
    ensures
        views_of(segs@) == words_of(word@, slash_sep()),
{
    split_by(word, true)
}

/// Whether a byte is an ASCII decimal digit.
pub open spec fn is_digit(b: u8) -> bool {
    48 <= b <= 57
}

/// Whether `s` consists of digits only.
pub open spec fn all_digits(s: Seq<u8>) -> bool {
    forall|i: int| 0 <= i < s.len() ==> is_digit(#[trigger] s[i])
}

/// The number a digit string denotes, most significant digit first.
pub open spec fn dec_val(s: Seq<u8>) -> int
    decreases s.len(),
{
    if s.len() == 0 {
        0
    } else {
        dec_val(s.drop_last()) * 10 + (s.last() - 48)
    }
}

proof fn lemma_dec_val_nonneg(s: Seq<u8>)
    requires
        all_digits(s),
    ensures
        dec_val(s) >= 0,
    decreases s.len(),
{
    if s.len() > 0 {
        assert(all_digits(s.drop_last()));
        lemma_dec_val_nonneg(s.drop_last());
    }
}

/// A digit string denotes at least what any of its prefixes denotes.
proof fn lemma_dec_val_prefix(s: Seq<u8>, k: int)
    requires
        all_digits(s),
        0 <= k <= s.len(),
    ensures
        dec_val(s) >= dec_val(s.take(k)),
    decreases s.len() - k,
{
    if k < s.len() {
        assert(all_digits(s.take(k)));
        lemma_dec_val_nonneg(s.take(k));
        assert(s.take(k + 1).drop_last() =~= s.take(k));
        assert(dec_val(s.take(k + 1)) == dec_val(s.take(k)) * 10 + (s[k] - 48));
        assert(dec_val(s.take(k)) * 10 >= dec_val(s.take(k))) by (nonlinear_arith)
            requires dec_val(s.take(k)) >= 0;
        lemma_dec_val_prefix(s, k + 1);
    } else {
        assert(s.take(k) =~= s);
    }
}

/// Whether a word is a valid index literal: nonempty, digits only, and
/// small enough to address memory.
pub open spec fn index_ok(s: Seq<u8>) -> bool {
    s.len() >= 1 && all_digits(s) && dec_val(s) <= usize::MAX
}

/// Parses an unsigned decimal literal, rejecting anything that is
/// empty, has a non-digit, or overflows.
pub fn parse_index(w: &[u8]) -> (r: Option<usize>)
    ensures
        r is Some <==> index_ok(w@),
        r is Some ==> r.unwrap() as int == dec_val(w@),
{
    let n = w.len();
    if n == 0 {
        return None;
    }
    let mut acc: usize = 0;
    let mut i: usize = 0;
    while i < n
        invariant
            i <= n,
            n == w@.len(),
            all_digits(w@.take(i as int)),
            acc as int == dec_val(w@.take(i as int)),
        decreases n - i,
    {
        let b = w[i];
        if b < 48 || b > 57 {
            return None;
        }
        let d: usize = (b - 48) as usize;
        proof {
            assert(w@.take(i + 1).drop_last() =~= w@.take(i as int));
            assert(w@.take(i + 1).last() == w@[i as int]);
        }
        if acc > (usize::MAX - d) / 10 {
            proof {
                assert(acc * 10 + d > usize::MAX) by (nonlinear_arith)
                    requires
                        acc > (usize::MAX as int - d) / 10,
                        0 <= d <= 9,
                        acc >= 0;
                assert(dec_val(w@.take(i + 1)) > usize::MAX);
                if all_digits(w@) {
                    lemma_dec_val_prefix(w@, i + 1);
                }
            }
            return None;
        }
        proof {
            assert(acc * 10 + d <= usize::MAX) by (nonlinear_arith)
                requires
                    acc <= (usize::MAX as int - d) / 10,
                    0 <= d <= 9,
                    acc >= 0;
        }
        acc = acc * 10 + d;
        i = i + 1;
    }
    proof {
        assert(w@.take(n as int) =~= w@);
    }
    Some(acc)
}

/// Whether a line is a comment: its very first byte is `#`.
pub open spec fn is_comment(s: Seq<u8>) -> bool {
    s.len() > 0 && s[0] == 35
}

/// The bytes of the keyword `newmtl`.
pub open spec fn kw_newmtl() -> Seq<u8> {
    seq![110u8, 101u8, 119u8, 109u8, 116u8, 108u8]
}

/// The bytes of the keyword `map_Kd`.
pub open spec fn kw_map_kd() -> Seq<u8> {
    seq![109u8, 97u8, 112u8, 95u8, 75u8, 100u8]
}

/// The bytes of the keyword `mtllib`.
pub open spec fn kw_mtllib() -> Seq<u8> {
    seq![109u8, 116u8, 108u8, 108u8, 105u8, 98u8]
}

/// The bytes of the keyword `usemtl`.
pub open spec fn kw_usemtl() -> Seq<u8> {
    seq![117u8, 115u8, 101u8, 109u8, 116u8, 108u8]
}

fn word_is6(w: &Vec<u8>, b0: u8, b1: u8, b2: u8, b3: u8, b4: u8, b5: u8) -> (r: bool)
    ensures
        r == (w@ == seq![b0, b1, b2, b3, b4, b5]),
{
    let r = w.len() == 6 && w[0] == b0 && w[1] == b1 && w[2] == b2 && w[3] == b3 && w[4] == b4
        && w[5] == b5;
    proof {
        let kw = seq![b0, b1, b2, b3, b4, b5];
        if r {
            assert(w@ =~= kw);
        } else if w@ == kw {
            assert(w@.len() == 6);
            assert(w@[0] == b0 && w@[1] == b1 && w@[2] == b2 && w@[3] == b3 && w@[4] == b4
                && w@[5] == b5);
        }
    }
    r
}

/// What can go wrong inside a material library.
#[derive(Clone, Copy, PartialEq, Eq, Structural, Debug)]
pub enum MtlError {
    MissingName,
    MissingMaterial,
    MissingPath,
}

/// The material state after one MTL line: the name the next `map_Kd`
/// will bind, and the finished name-to-image binding the line emitted,
/// if any.
#[derive(PartialEq, Eq, Debug)]
pub struct MtlUpdate {
    pub current: Option<Vec<u8>>,
    pub emit: Option<(Vec<u8>, Vec<u8>)>,
}

/// Runs one line of an MTL material library through its state machine:
/// `newmtl` remembers a material name, and `map_Kd` binds the
/// remembered name to an image file, consuming it.  Everything else
/// leaves the state alone.
pub fn mtl_step(current: Option<Vec<u8>>, line: &[u8]) -> (r: Result<MtlUpdate, MtlError>)
    ensures
        ({
            let ws = words_of(line@, space_sep());
            let com = is_comment(line@);
            &&& (com || ws.len() == 0 || (ws[0] != kw_newmtl() && ws[0] != kw_map_kd())) ==> (
            r matches Ok(u) && u.current == current && u.emit is None)
            &&& (!com && ws.len() >= 2 && ws[0] == kw_newmtl()) ==> (r matches Ok(u) && u.emit
                is None && (u.current matches Some(nm) && nm@ == ws[1]))
            &&& (!com && ws.len() == 1 && ws[0] == kw_newmtl()) ==> r == Err::<
                MtlUpdate,
                MtlError,
            >(MtlError::MissingName)
            &&& (!com && ws.len() >= 1 && ws[0] == kw_map_kd() && current is None) ==> r == Err::<
                MtlUpdate,
                MtlError,
            >(MtlError::MissingMaterial)
            &&& (!com && ws.len() >= 2 && ws[0] == kw_map_kd() && current is Some) ==> (
            r matches Ok(u) && u.current is None && (u.emit matches Some(e) && e.0
                == current.unwrap() && e.1@ == ws[1]))
            &&& (!com && ws.len() == 1 && ws[0] == kw_map_kd() && current is Some) ==> r == Err::<
                MtlUpdate,
                MtlError,
            >(MtlError::MissingPath)
        }),
{
    if line.len() > 0 && line[0] == 35 {
        return Ok(MtlUpdate { current, emit: None });
    }
    let mut ws = split_words(line);
    if ws.len() == 0 {
        return Ok(MtlUpdate { current, emit: None });
    }
    if word_is6(&ws[0], 110, 101, 119, 109, 116, 108) {
        if ws.len() >= 2 {
            let name = ws.remove(1);
            return Ok(MtlUpdate { current: Some(name), emit: None });
        }
        return Err(MtlError::MissingName);
    }
    if word_is6(&ws[0], 109, 97, 112, 95, 75, 100) {
        match current {
            None => {
                return Err(MtlError::MissingMaterial);
            },
            Some(name) => {
                if ws.len() >= 2 {
                    let path = ws.remove(1);
                    return Ok(MtlUpdate { current: None, emit: Some((name, path)) });
                }
                return Err(MtlError::MissingPath);
            },
        }
    }
    Ok(MtlUpdate { current, emit: None })
}

/// Which coordinate table a numeric line extends.
#[derive(Clone, Copy, PartialEq, Eq, Structural, Debug)]
pub enum CoordKind {
    Position,
    Normal,
    TexCoord,
}

/// One vertex of a face: a position index with optional texture and
/// normal indices, exactly as the `v`, `v/vt` and `v/vt/vn` word forms
/// provide them.
#[derive(Clone, Copy, PartialEq, Eq, Debug)]
pub struct FaceVertex {
    pub v: usize,
    pub vt: Option<usize>,
    pub vn: Option<usize>,
}

/// What can go wrong on a geometry line.
#[derive(Clone, Copy, PartialEq, Eq, Structural, Debug)]
pub enum ObjError {
    MissingArgument,
    CoordCount,
    BadIndex,
    FaceArity,
    FaceShape,
}

/// One parsed OBJ line.  `Coord` hands the numeric words back for the
/// caller to convert; everything else is fully decoded here.
#[derive(PartialEq, Eq, Debug)]
pub enum ObjLine {
    Blank,
    MtlLib(Vec<u8>),
    UseMtl(Vec<u8>),
    Coord { kind: CoordKind, words: Vec<Vec<u8>> },
    Face(Vec<FaceVertex>),
    Bad(ObjError),
}

/// What one `v/vt/vn` word denotes: its index tuple, or the first
/// error hit while reading its segments.
pub open spec fn face_vertex_spec(w: Seq<u8>) -> Result<FaceVertex, ObjError> {
    let segs = words_of(w, slash_sep());
    if !(forall|i: int| 0 <= i < segs.len() ==> index_ok(#[trigger] segs[i])) {
        Err(ObjError::BadIndex)
    } else if segs.len() == 1 {
        Ok(FaceVertex { v: dec_val(segs[0]) as usize, vt: None, vn: None })
    } else if segs.len() == 2 {
        Ok(
            FaceVertex {
                v: dec_val(segs[0]) as usize,
                vt: Some(dec_val(segs[1]) as usize),
                vn: None,
            },
        )
    } else if segs.len() == 3 {
        Ok(
            FaceVertex {
                v: dec_val(segs[0]) as usize,
                vt: Some(dec_val(segs[1]) as usize),
                vn: Some(dec_val(segs[2]) as usize),
            },
        )
    } else {
        Err(ObjError::FaceArity)
    }
}

/// Parses one face vertex word such as `7/2/3`, `7/2` or `7`.
pub fn parse_face_vertex(word: &[u8]) -> (r: Result<FaceVertex, ObjError>)
    ensures
        r == face_vertex_spec(word@),
{
    let ghost segs_spec: Seq<Seq<u8>> = words_of(word@, slash_sep());
    let segs = split_segments(word);
    let n = segs.len();
    let mut vals: Vec<usize> = Vec::new();
    let mut i: usize = 0;
    while i < n
        invariant
            i <= n,
            n == segs@.len(),
            segs_spec == words_of(word@, slash_sep()),
            views_of(segs@) == segs_spec,
            forall|k: int| 0 <= k < i ==> index_ok(#[trigger] segs_spec[k]),
            vals@.len() == i,
            forall|k: int| 0 <= k < i ==> (#[trigger] vals@[k]) as int == dec_val(segs_spec[k]),
        decreases n - i,
    {
        match parse_index(segs[i].as_slice()) {
            Some(v) => {
                vals.push(v);
            },
            None => {
                proof {
                    assert(views_of(segs@)[i as int] == segs@[i as int]@);
                    assert(!index_ok(segs_spec[i as int]));
                    assert(!(forall|k: int|
                        0 <= k < segs_spec.len() ==> index_ok(#[trigger] segs_spec[k])));
                }
                return Err(ObjError::BadIndex);
            },
        }
        i = i + 1;
    }
    if n == 1 {
        Ok(FaceVertex { v: vals[0], vt: None, vn: None })
    } else if n == 2 {
        Ok(FaceVertex { v: vals[0], vt: Some(vals[1]), vn: None })
    } else if n == 3 {
        Ok(FaceVertex { v: vals[0], vt: Some(vals[1]), vn: Some(vals[2]) })
    } else {
        Err(ObjError::FaceArity)
    }
}

/// What a face's word list denotes: its vertices in order, or the
/// first error among them.
pub open spec fn face_list_spec(rest: Seq<Seq<u8>>) -> Result<Seq<FaceVertex>, ObjError>
    decreases rest.len(),
{
    if rest.len() == 0 {
        Ok(Seq::empty())
    } else {
        match face_vertex_spec(rest[0]) {
            Err(e) => Err(e),
            Ok(fv) => match face_list_spec(rest.skip(1)) {
                Err(e) => Err(e),
                Ok(tail) => Ok(seq![fv] + tail),
            },
        }
    }
}

proof fn lemma_face_list_ok(rest: Seq<Seq<u8>>, vals: Seq<FaceVertex>)
    requires
        rest.len() == vals.len(),
        forall|k: int|
            0 <= k < rest.len() ==> face_vertex_spec(#[trigger] rest[k]) == Ok::<
                FaceVertex,
                ObjError,
            >(vals[k]),
    ensures
        face_list_spec(rest) == Ok::<Seq<FaceVertex>, ObjError>(vals),
    decreases rest.len(),
{
    if rest.len() == 0 {
        assert(vals =~= Seq::<FaceVertex>::empty());
    } else {
        lemma_face_list_ok(rest.skip(1), vals.skip(1));
        assert(seq![vals[0]] + vals.skip(1) =~= vals);
    }
}

proof fn lemma_face_list_err(rest: Seq<Seq<u8>>, j: int, e: ObjError)
    requires
        0 <= j < rest.len(),
        forall|k: int| 0 <= k < j ==> (face_vertex_spec(#[trigger] rest[k]) is Ok),
        face_vertex_spec(rest[j]) == Err::<FaceVertex, ObjError>(e),
    ensures
        face_list_spec(rest) == Err::<Seq<FaceVertex>, ObjError>(e),
    decreases rest.len(),
{
    if j > 0 {
        lemma_face_list_err(rest.skip(1), j - 1, e);
    }
}

/// Parses one OBJ line into its command.
#[verifier::rlimit(50)]
pub fn parse_obj_line(line: &[u8]) -> (r: ObjLine)
    ensures
        ({
            let ws = words_of(line@, space_sep());
            let com = is_comment(line@);
            &&& (com || ws.len() == 0 || (ws[0] != kw_mtllib() && ws[0] != kw_usemtl() && ws[0]
                != seq![118u8] && ws[0] != seq![118u8, 110u8] && ws[0] != seq![118u8, 116u8]
                && ws[0] != seq![102u8])) ==> r is Blank
            &&& (!com && ws.len() >= 2 && ws[0] == kw_mtllib()) ==> (r matches ObjLine::MtlLib(p)
                && p@ == ws[1])
            &&& (!com && ws.len() == 1 && ws[0] == kw_mtllib()) ==> r == ObjLine::Bad(
                ObjError::MissingArgument,
            )
            &&& (!com && ws.len() >= 2 && ws[0] == kw_usemtl()) ==> (r matches ObjLine::UseMtl(nm)
                && nm@ == ws[1])
            &&& (!com && ws.len() == 1 && ws[0] == kw_usemtl()) ==> r == ObjLine::Bad(
                ObjError::MissingArgument,
            )
            &&& (!com && ws.len() >= 1 && ws[0] == seq![118u8]) ==> (if ws.len() >= 4 {
                r matches ObjLine::Coord { kind, words } && kind == CoordKind::Position
                    && views_of(words@) == ws.subrange(1, 4)
            } else {
                r == ObjLine::Bad(ObjError::CoordCount)
            })
            &&& (!com && ws.len() >= 1 && ws[0] == seq![118u8, 110u8]) ==> (if ws.len() >= 4 {
                r matches ObjLine::Coord { kind, words } && kind == CoordKind::Normal
                    && views_of(words@) == ws.subrange(1, 4)
            } else {
                r == ObjLine::Bad(ObjError::CoordCount)
            })
            &&& (!com && ws.len() >= 1 && ws[0] == seq![118u8, 116u8]) ==> (if ws.len() >= 3 {
                r matches ObjLine::Coord { kind, words } && kind == CoordKind::TexCoord
                    && views_of(words@) == ws.subrange(1, 3)
            } else {
                r == ObjLine::Bad(ObjError::CoordCount)
            })
            &&& (!com && ws.len() >= 1 && ws[0] == seq![102u8]) ==> (match face_list_spec(
                ws.skip(1),
            ) {
                Ok(l) => r matches ObjLine::Face(verts) && verts@ == l,
                Err(e) => r == ObjLine::Bad(e),
            })
        }),
{
    if line.len() > 0 && line[0] == 35 {
        return ObjLine::Blank;
    }
    let ghost ws_spec: Seq<Seq<u8>> = words_of(line@, space_sep());
    let mut ws = split_words(line);
    if ws.len() == 0 {
        return ObjLine::Blank;
    }
    let w0_len = ws[0].len();
    let is_v = w0_len == 1 && ws[0][0] == 118;
    let is_vn = w0_len == 2 && ws[0][0] == 118 && ws[0][1] == 110;
    let is_vt = w0_len == 2 && ws[0][0] == 118 && ws[0][1] == 116;
    let is_f = w0_len == 1 && ws[0][0] == 102;
    proof {
        assert(ws_spec[0] == ws@[0]@);
        if is_v {
            assert(ws_spec[0] =~= seq![118u8]);
        }
        if is_vn {
            assert(ws_spec[0] =~= seq![118u8, 110u8]);
        }
        if is_vt {
            assert(ws_spec[0] =~= seq![118u8, 116u8]);
        }
        if is_f {
            assert(ws_spec[0] =~= seq![102u8]);
        }
        if ws_spec[0] == seq![118u8] {
            assert(ws@[0]@.len() == 1 && ws@[0]@[0] == 118u8);
        }
        if ws_spec[0] == seq![118u8, 110u8] {
            assert(ws@[0]@.len() == 2 && ws@[0]@[0] == 118u8 && ws@[0]@[1] == 110u8);
        }
        if ws_spec[0] == seq![118u8, 116u8] {
            assert(ws@[0]@.len() == 2 && ws@[0]@[0] == 118u8 && ws@[0]@[1] == 116u8);
        }
        if ws_spec[0] == seq![102u8] {
            assert(ws@[0]@.len() == 1 && ws@[0]@[0] == 102u8);
        }
    }
    if word_is6(&ws[0], 109, 116, 108, 108, 105, 98) {
        if ws.len() >= 2 {
            let p = ws.remove(1);
            return ObjLine::MtlLib(p);
        }
        return ObjLine::Bad(ObjError::MissingArgument);
    }
    if word_is6(&ws[0], 117, 115, 101, 109, 116, 108) {
        if ws.len() >= 2 {
            let nm = ws.remove(1);
            return ObjLine::UseMtl(nm);
        }
        return ObjLine::Bad(ObjError::MissingArgument);
    }
    if is_v || is_vn {
        if ws.len() >= 4 {
            let ghost ws0: Seq<Vec<u8>> = ws@;
            let w1 = ws.remove(1);
            let w2 = ws.remove(1);
            let w3 = ws.remove(1);
            let mut words: Vec<Vec<u8>> = Vec::new();
            words.push(w1);
            words.push(w2);
            words.push(w3);
            proof {
                assert(w2@ == ws0[2]@);
                assert(w3@ == ws0[3]@);
                assert(views_of(words@) =~= ws_spec.subrange(1, 4));
            }
            let kind = if is_v {
                CoordKind::Position
            } else {
                CoordKind::Normal
            };
            return ObjLine::Coord { kind, words };
        }
        return ObjLine::Bad(ObjError::CoordCount);
    }
    if is_vt {
        if ws.len() >= 3 {
            let ghost ws0: Seq<Vec<u8>> = ws@;
            let w1 = ws.remove(1);
            let w2 = ws.remove(1);
            let mut words: Vec<Vec<u8>> = Vec::new();
            words.push(w1);
            words.push(w2);
            proof {
                assert(w2@ == ws0[2]@);
                assert(views_of(words@) =~= ws_spec.subrange(1, 3));
            }
            return ObjLine::Coord { kind: CoordKind::TexCoord, words };
        }
        return ObjLine::Bad(ObjError::CoordCount);
    }
    if is_f {
        let ghost rest: Seq<Seq<u8>> = ws_spec.skip(1);
        let n = ws.len();
        let mut verts: Vec<FaceVertex> = Vec::new();
        let mut i: usize = 1;
        while i < n
            invariant
                1 <= i <= n,
                n == ws@.len(),
                ws_spec == words_of(line@, space_sep()),
                !is_comment(line@),
                ws_spec.len() == n,
                ws_spec[0] == seq![102u8],
                views_of(ws@) == ws_spec,
                rest == ws_spec.skip(1),
                verts@.len() == i - 1,
                forall|k: int|
                    0 <= k < i - 1 ==> face_vertex_spec(#[trigger] rest[k]) == Ok::<
                        FaceVertex,
                        ObjError,
                    >(verts@[k]),
            decreases n - i,
        {
            proof {
                assert(views_of(ws@)[i as int] == ws@[i as int]@);
                assert(rest[i - 1] == ws_spec[i as int]);
            }
            match parse_face_vertex(ws[i].as_slice()) {
                Ok(fv) => {
                    verts.push(fv);
                },
                Err(e) => {
                    proof {
                        assert(face_vertex_spec(rest[i - 1]) == Err::<FaceVertex, ObjError>(e));
                        lemma_face_list_err(rest, i - 1, e);
                        assert(face_list_spec(ws_spec.skip(1)) == Err::<Seq<FaceVertex>, ObjError>(
                            e,
                        ));
                        assert(kw_mtllib().len() == 6 && kw_usemtl().len() == 6);
                        assert(ws_spec[0].len() == 1 && ws_spec[0][0] == 102u8);
                        assert(ws_spec[0] != kw_mtllib() && ws_spec[0] != kw_usemtl());
                        assert(ws_spec[0] != seq![118u8] && ws_spec[0] != seq![118u8, 110u8]
                            && ws_spec[0] != seq![118u8, 116u8]);
                    }
                    return ObjLine::Bad(e);
                },
            }
            i = i + 1;
        }
        proof {
            assert(rest.len() == n - 1);
            lemma_face_list_ok(rest, verts@);
        }
        return ObjLine::Face(verts);
    }
    ObjLine::Blank
}

/// How a polygonal face is covered by triangles: a triangle stays
/// itself, a quadrilateral becomes the two triangles `(0, 1, 3)` and
/// `(1, 2, 3)` over its corners, and any other vertex count is
/// rejected.
pub fn face_fan(n: usize) -> (r: Result<Vec<(usize, usize, usize)>, ObjError>)
    ensures
        n == 3 ==> (r matches Ok(v) && v@ == seq![(0usize, 1usize, 2usize)]),
        n == 4 ==> (r matches Ok(v) && v@ == seq![(0usize, 1usize, 3usize), (1usize, 2usize, 3usize)]),
        !(n == 3 || n == 4) ==> r == Err::<Vec<(usize, usize, usize)>, ObjError>(
            ObjError::FaceShape,
        ),
{
    if n == 3 {
        let mut v: Vec<(usize, usize, usize)> = Vec::new();
        v.push((0, 1, 2));
        proof {
            assert(v@ =~= seq![(0usize, 1usize, 2usize)]);
        }
        Ok(v)
    } else if n == 4 {
        let mut v: Vec<(usize, usize, usize)> = Vec::new();
        v.push((0, 1, 3));
        v.push((1, 2, 3));
        proof {
            assert(v@ =~= seq![(0usize, 1usize, 3usize), (1usize, 2usize, 3usize)]);
        }
        Ok(v)
    } else {
        Err(ObjError::FaceShape)
    }
}

} // verus!
