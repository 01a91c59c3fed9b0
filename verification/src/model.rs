use vstd::prelude::*;

verus! {

/// A numeric field of the model file could not be read as a number (a
/// face index that is not a positive integer, or one too large).
#[derive(Clone, Copy, PartialEq, Eq, Structural, Debug)]
pub enum ModelError {
    BadNumber,
}

/// A triangular mesh as the model file stores it: vertex positions, each
/// kept as the three raw numeral tokens of its line, and faces, each a
/// triple of 0-based indices into the vertex list.  The vertex numerals
/// stay text here; the caller converts them to its floating-point type.
#[derive(Debug)]
pub struct Model {
    pub vertexes: Vec<(Vec<u8>, Vec<u8>, Vec<u8>)>,
    pub faces: Vec<(u32, u32, u32)>,
}

/// ASCII whitespace, as trimmed from the ends of each line.
pub open spec fn is_ws(b: u8) -> bool {
    b == 32 || b == 9 || b == 10 || b == 11 || b == 12 || b == 13
}

/// An ASCII decimal digit.
pub open spec fn is_digit(b: u8) -> bool {
    48 <= b <= 57
}

/// `s` split at every occurrence of `sep`; consecutive separators yield
/// empty pieces, and the result always has one piece more than `s` has
/// separators.
pub open spec fn split_on(s: Seq<u8>, sep: u8) -> Seq<Seq<u8>>
    decreases s.len(),
{
    if s.len() == 0 {
        seq![Seq::empty()]
    } else if s[0] == sep {
        seq![Seq::<u8>::empty()] + split_on(s.skip(1), sep)
    } else {
        let rest = split_on(s.skip(1), sep);
        seq![seq![s[0]] + rest[0]] + rest.skip(1)
    }
}

/// `s` without leading and trailing ASCII whitespace.
pub open spec fn trim_spec(s: Seq<u8>) -> Seq<u8>
    decreases s.len(),
{
    if s.len() > 0 && is_ws(s[0]) {
        trim_spec(s.skip(1))
    } else if s.len() > 0 && is_ws(s.last()) {
        trim_spec(s.drop_last())
    } else {
        s
    }
}

/// The number the digit string denotes, most significant digit first.
pub open spec fn dec_value(s: Seq<u8>) -> int
    decreases s.len(),
{
    if s.len() == 0 {
        0
    } else {
        dec_value(s.drop_last()) * 10 + (s.last() - 48)
    }
}

/// The digits of an unsigned numeral: everything after an optional
/// leading plus sign.
pub open spec fn u32_body(s: Seq<u8>) -> Seq<u8> {
    if s.len() > 0 && s[0] == 43 {
        s.skip(1)
    } else {
        s
    }
}

/// `s` is a numeral that a 32-bit unsigned integer can hold: an optional
/// plus sign, then at least one digit, denoting at most `u32::MAX`.
pub open spec fn u32_token(s: Seq<u8>) -> bool {
    let t = u32_body(s);
    &&& t.len() >= 1
    &&& forall|j: int| 0 <= j < t.len() ==> is_digit(t[j])
    &&& dec_value(t) <= u32::MAX
}

/// The value of a `u32_token` numeral.
pub open spec fn token_value(s: Seq<u8>) -> int {
    dec_value(u32_body(s))
}

/// The index part of a face token: what stands before the first slash.
pub open spec fn face_tok(t: Seq<u8>) -> Seq<u8> {
    split_on(t, 47)[0]
}

/// The face token carries a valid 1-based vertex index.
pub open spec fn face_token_ok(t: Seq<u8>) -> bool {
    u32_token(face_tok(t)) && token_value(face_tok(t)) >= 1
}

/// The 0-based index the face token denotes.
pub open spec fn face_token_val(t: Seq<u8>) -> int {
    token_value(face_tok(t)) - 1
}

/// The whitespace-trimmed line split at single spaces.
pub open spec fn line_chunks(line: Seq<u8>) -> Seq<Seq<u8>> {
    split_on(trim_spec(line), 32)
}

/// The line has exactly four chunks and starts a face record.
pub open spec fn is_face_line(line: Seq<u8>) -> bool {
    line_chunks(line).len() == 4 && line_chunks(line)[0] == seq![102u8]
}

/// The line has exactly four chunks and starts a vertex record.
pub open spec fn is_vertex_line(line: Seq<u8>) -> bool {
    line_chunks(line).len() == 4 && line_chunks(line)[0] == seq![118u8]
}

/// All three index tokens of the face line are valid.
pub open spec fn face_line_ok(line: Seq<u8>) -> bool {
    let c = line_chunks(line);
    face_token_ok(c[1]) && face_token_ok(c[2]) && face_token_ok(c[3])
}

/// The face triple a valid face line denotes.
pub open spec fn face_of_line(line: Seq<u8>) -> (u32, u32, u32) {
    let c = line_chunks(line);
    (face_token_val(c[1]) as u32, face_token_val(c[2]) as u32, face_token_val(c[3]) as u32)
}

/// The three raw numeral tokens of a vertex line.
pub open spec fn vertex_of_line(line: Seq<u8>) -> (Seq<u8>, Seq<u8>, Seq<u8>) {
    let c = line_chunks(line);
    (c[1], c[2], c[3])
}

/// What parsing a sequence of lines yields: the vertex and face records
/// in file order.  A line that does not have exactly four chunks, or
/// whose first chunk is neither a face nor a vertex mark, is skipped; a
/// face line with a bad index token fails the whole parse.
pub open spec fn parse_model(lines: Seq<Seq<u8>>) -> Option<
    (Seq<(Seq<u8>, Seq<u8>, Seq<u8>)>, Seq<(u32, u32, u32)>),
>
    decreases lines.len(),
{
    if lines.len() == 0 {
        Some((Seq::empty(), Seq::empty()))
    } else {
        let l = lines[0];
        let rest = parse_model(lines.drop_first());
        if is_face_line(l) {
            if face_line_ok(l) {
                match rest {
                    Some(p) => Some((p.0, seq![face_of_line(l)] + p.1)),
                    None => None,
                }
            } else {
                None
            }
        } else if is_vertex_line(l) {
            match rest {
                Some(p) => Some((seq![vertex_of_line(l)] + p.0, p.1)),
                None => None,
            }
        } else {
            rest
        }
    }
}

proof fn lemma_split_on_nonempty(s: Seq<u8>, sep: u8)
    ensures
        split_on(s, sep).len() >= 1,
    decreases s.len(),
{
    if s.len() > 0 {
        lemma_split_on_nonempty(s.skip(1), sep);
    }
}

proof fn lemma_dec_value_nonneg(s: Seq<u8>)
    requires
        forall|j: int| 0 <= j < s.len() ==> is_digit(s[j]),
    ensures
        dec_value(s) >= 0,
    decreases s.len(),
{
    if s.len() > 0 {
        assert(forall|j: int| 0 <= j < s.drop_last().len() ==> is_digit(#[trigger] s.drop_last()[j]));
        lemma_dec_value_nonneg(s.drop_last());
    }
}

proof fn lemma_dec_value_prefix(s: Seq<u8>, i: int)
    requires
        0 <= i <= s.len(),
        forall|j: int| 0 <= j < s.len() ==> is_digit(s[j]),
    ensures
        dec_value(s.take(i)) <= dec_value(s),
    decreases s.len() - i,
{
    if i < s.len() {
        lemma_dec_value_prefix(s, i + 1);
        assert(s.take(i + 1).drop_last() =~= s.take(i));
        assert(forall|j: int| 0 <= j < s.take(i).len() ==> is_digit(#[trigger] s.take(i)[j]));
        lemma_dec_value_nonneg(s.take(i));
        assert(dec_value(s.take(i + 1)) == dec_value(s.take(i)) * 10 + (s[i] - 48));
        assert(dec_value(s.take(i)) * 10 >= dec_value(s.take(i))) by (nonlinear_arith)
            requires
                dec_value(s.take(i)) >= 0,
        ;
    } else {
        assert(s.take(i) =~= s);
    }
}

/// Splits `s` at every occurrence of `sep`.
fn split_bytes(s: &Vec<u8>, sep: u8) -> (r: Vec<Vec<u8>>)
    ensures
        r@.map_values(|v: Vec<u8>| v@) == split_on(s@, sep),
        r@.len() >= 1,
{
    let mut out: Vec<Vec<u8>> = Vec::new();
    let mut cur: Vec<u8> = Vec::new();
    let mut i: usize = 0;
    proof {
        lemma_split_on_nonempty(s@, sep);
        assert(s@.skip(0) =~= s@);
        let rem = split_on(s@, sep);
        assert(out@.map_values(|v: Vec<u8>| v@) =~= Seq::<Seq<u8>>::empty());
        assert(cur@ + rem[0] =~= rem[0]);
        assert(Seq::<Seq<u8>>::empty() + seq![rem[0]] + rem.skip(1) =~~= rem);
    }
    while i < s.len()
        invariant
            i <= s@.len(),
            split_on(s@, sep).len() >= 1,
            ({
                let rem = split_on(s@.skip(i as int), sep);
                &&& rem.len() >= 1
                &&& split_on(s@, sep) == out@.map_values(|v: Vec<u8>| v@) + seq![cur@ + rem[0]]
                    + rem.skip(1)
            }),
        decreases s@.len() - i,
    {
        let ghost rem = split_on(s@.skip(i as int), sep);
        let ghost remn = split_on(s@.skip(i as int + 1), sep);
        proof {
            lemma_split_on_nonempty(s@.skip(i as int + 1), sep);
            assert(s@.skip(i as int)[0] == s@[i as int]);
            assert(s@.skip(i as int).skip(1) =~= s@.skip(i as int + 1));
        }
        let b = s[i];
        if b == sep {
            proof {
                assert(rem == seq![Seq::<u8>::empty()] + remn);
                assert(rem.skip(1) =~= remn);
                assert(remn =~= seq![remn[0]] + remn.skip(1));
                assert(cur@ + rem[0] =~= cur@);
            }
            let ghost out_pre = out@.map_values(|v: Vec<u8>| v@);
            let ghost cur_pre = cur@;
            let moved = cur;
            cur = Vec::new();
            out.push(moved);
            proof {
                assert(out@.map_values(|v: Vec<u8>| v@) =~= out_pre.push(cur_pre));
                assert(out_pre.push(cur_pre) + seq![cur@ + remn[0]] + remn.skip(1) =~~= out_pre
                    + seq![cur_pre + rem[0]] + rem.skip(1));
            }
        } else {
            let ghost cur_pre = cur@;
            cur.push(b);
            proof {
                assert(rem == seq![seq![s@[i as int]] + remn[0]] + remn.skip(1));
                assert(rem.skip(1) =~= remn.skip(1));
                assert(cur@ + remn[0] =~= cur_pre + rem[0]);
            }
        }
        i = i + 1;
    }
    proof {
        assert(s@.skip(s@.len() as int) =~= Seq::<u8>::empty());
        let rem = split_on(s@.skip(s@.len() as int), sep);
        assert(rem == seq![Seq::<u8>::empty()]);
        assert(cur@ + rem[0] =~= cur@);
    }
    let ghost out_pre = out@.map_values(|v: Vec<u8>| v@);
    let ghost cur_pre = cur@;
    out.push(cur);
    proof {
        assert(out@.map_values(|v: Vec<u8>| v@) =~= out_pre.push(cur_pre));
        assert(out_pre.push(cur_pre) =~~= out_pre + seq![cur_pre] + Seq::<Seq<u8>>::empty().skip(
            0,
        ));
        assert(out_pre + seq![cur_pre] =~~= split_on(s@, sep));
    }
    out
}

/// The byte is ASCII whitespace.
fn is_ws_byte(b: u8) -> (r: bool)
    ensures
        r == is_ws(b),
{
    b == 32 || b == 9 || b == 10 || b == 11 || b == 12 || b == 13
}

/// Removes leading and trailing ASCII whitespace.
fn trim_bytes(s: &Vec<u8>) -> (r: Vec<u8>)
    ensures
        r@ == trim_spec(s@),
{
    let mut lo: usize = 0;
    proof {
        assert(s@.skip(0) =~= s@);
    }
    while lo < s.len() && is_ws_byte(s[lo])
        invariant
            lo <= s@.len(),
            trim_spec(s@) == trim_spec(s@.skip(lo as int)),
        decreases s@.len() - lo,
    {
        proof {
            assert(s@.skip(lo as int).skip(1) =~= s@.skip(lo as int + 1));
        }
        lo = lo + 1;
    }
    let mut hi: usize = s.len();
    proof {
        assert(s@.subrange(lo as int, hi as int) =~= s@.skip(lo as int));
    }
    while hi > lo && is_ws_byte(s[hi - 1])
        invariant
            lo <= hi <= s@.len(),
            lo < s@.len() ==> !is_ws(s@[lo as int]),
            trim_spec(s@) == trim_spec(s@.subrange(lo as int, hi as int)),
        decreases hi,
    {
        proof {
            assert(s@.subrange(lo as int, hi as int).drop_last() =~= s@.subrange(
                lo as int,
                hi as int - 1,
            ));
        }
        hi = hi - 1;
    }
    let mut out: Vec<u8> = Vec::new();
    let mut k: usize = lo;
    while k < hi
        invariant
            lo <= k <= hi <= s@.len(),
            out@ == s@.subrange(lo as int, k as int),
        decreases hi - k,
    {
        out.push(s[k]);
        proof {
            assert(s@.subrange(lo as int, k as int + 1) =~= s@.subrange(lo as int, k as int).push(
                s@[k as int],
            ));
        }
        k = k + 1;
    }
    out
}

/// Reads an unsigned decimal numeral, with `str::parse::<u32>`'s shape:
/// an optional plus sign, then digits; anything else, or a value beyond
/// `u32::MAX`, is refused.
fn parse_u32(tok: &Vec<u8>) -> (r: Option<u32>)
    ensures
        r is Some <==> u32_token(tok@),
        r is Some ==> r->0 == token_value(tok@),
{
    let mut start: usize = 0;
    if tok.len() > 0 && tok[0] == 43 {
        start = 1;
    }
    let ghost t = u32_body(tok@);
    proof {
        assert(t =~= tok@.skip(start as int));
    }
    if start >= tok.len() {
        return None;
    }
    let mut acc: u64 = 0;
    let mut i: usize = start;
    while i < tok.len()
        invariant
            start <= i <= tok@.len(),
            start < tok@.len(),
            t == u32_body(tok@),
            t == tok@.skip(start as int),
            forall|j: int| 0 <= j < i - start ==> is_digit(t[j]),
            acc == dec_value(t.take(i - start)),
            acc <= u32::MAX,
        decreases tok@.len() - i,
    {
        let b = tok[i];
        proof {
            assert(t[i - start] == tok@[i as int]);
        }
        if b < 48 || b > 57 {
            return None;
        }
        proof {
            assert(t.take(i - start + 1).drop_last() =~= t.take(i - start));
            assert(t.take(i - start + 1).last() == t[i - start]);
        }
        acc = acc * 10 + (b - 48) as u64;
        if acc > 4294967295 {
            proof {
                if u32_token(tok@) {
                    lemma_dec_value_prefix(t, i - start + 1);
                }
            }
            return None;
        }
        i = i + 1;
    }
    proof {
        assert(t.take(t.len() as int) =~= t);
    }
    Some(acc as u32)
}

/// Reads the 1-based vertex index before the first slash of a face token
/// and converts it to 0-based; an index of zero, like any unreadable
/// numeral, is refused.
fn face_index(tok: &Vec<u8>) -> (r: Option<u32>)
    ensures
        r is Some <==> face_token_ok(tok@),
        r is Some ==> r->0 == face_token_val(tok@),
{
    let parts = split_bytes(tok, 47);
    proof {
        assert(parts@.map_values(|v: Vec<u8>| v@)[0] == parts@[0]@);
    }
    let first = &parts[0];
    match parse_u32(first) {
        Some(v) => if v >= 1 {
            Some(v - 1)
        } else {
            None
        },
        None => None,
    }
}

impl Model {
    /// The vertex records as sequences of raw numeral bytes.
    pub open spec fn vertexes_view(self) -> Seq<(Seq<u8>, Seq<u8>, Seq<u8>)> {
        self.vertexes@.map_values(|t: (Vec<u8>, Vec<u8>, Vec<u8>)| (t.0@, t.1@, t.2@))
    }

    /// Reads a model from the text of its file: one record per line,
    /// vertex lines keeping their three numeral tokens as text, face
    /// lines converted from 1-based to 0-based index triples.  Lines of
    /// any other shape are skipped; a face line with a bad index token
    /// fails the parse.  [`parse_model`] states the exact result.
    pub fn parse(text: &Vec<u8>) -> (r: Result<Model, ModelError>)
        ensures
            r is Ok <==> parse_model(split_on(text@, 10)) is Some,
            r is Ok ==> r->Ok_0.vertexes_view() == (parse_model(split_on(text@, 10))->0).0,
            r is Ok ==> r->Ok_0.faces@ == (parse_model(split_on(text@, 10))->0).1,
            r is Err ==> r->Err_0 == ModelError::BadNumber,
    {
        let lines = split_bytes(text, 10);
        let ghost ls = lines@.map_values(|v: Vec<u8>| v@);
        let mut vertexes: Vec<(Vec<u8>, Vec<u8>, Vec<u8>)> = Vec::new();
        let mut faces: Vec<(u32, u32, u32)> = Vec::new();
        let mut i: usize = 0;
        proof {
            assert(ls.skip(0) =~= ls);
            assert(vertexes@.map_values(|t: (Vec<u8>, Vec<u8>, Vec<u8>)| (t.0@, t.1@, t.2@))
                =~= Seq::<(Seq<u8>, Seq<u8>, Seq<u8>)>::empty());
        }
        while i < lines.len()
            invariant
                i <= lines@.len(),
                ls == lines@.map_values(|v: Vec<u8>| v@),
                ls == split_on(text@, 10),
                parse_model(ls) is Some <==> parse_model(ls.skip(i as int)) is Some,
                parse_model(ls.skip(i as int)) is Some ==> (parse_model(ls)->0).0 == vertexes@
                    .map_values(|t: (Vec<u8>, Vec<u8>, Vec<u8>)| (t.0@, t.1@, t.2@)) + (parse_model(
                    ls.skip(i as int),
                )->0).0,
                parse_model(ls.skip(i as int)) is Some ==> (parse_model(ls)->0).1 == faces@
                    + (parse_model(ls.skip(i as int))->0).1,
            decreases lines@.len() - i,
        {
            let ghost rest = parse_model(ls.skip(i as int));
            let ghost restn = parse_model(ls.skip(i as int + 1));
            proof {
                assert(ls.skip(i as int)[0] == ls[i as int]);
                assert(ls.skip(i as int).drop_first() =~= ls.skip(i as int + 1));
                assert(ls[i as int] == lines@[i as int]@);
            }
            let line = &lines[i];
            let trimmed = trim_bytes(line);
            let mut chunks = split_bytes(&trimmed, 32);
            proof {
                assert(chunks@.map_values(|v: Vec<u8>| v@) == line_chunks(ls[i as int]));
                assert forall|j: int| 0 <= j < chunks@.len() implies #[trigger] chunks@[j]@
                    == line_chunks(ls[i as int])[j] by {
                    assert(chunks@.map_values(|v: Vec<u8>| v@)[j] == chunks@[j]@);
                }
            }
            if chunks.len() == 4 {
                let is_f = chunks[0].len() == 1 && chunks[0][0] == 102;
                let is_v = chunks[0].len() == 1 && chunks[0][0] == 118;
                proof {
                    assert(chunks@[0]@ =~= seq![102u8] ==> chunks@[0]@ == seq![102u8]);
                    assert(chunks@[0]@ =~= seq![118u8] ==> chunks@[0]@ == seq![118u8]);
                    assert(is_f == is_face_line(ls[i as int]));
                    assert(is_v == is_vertex_line(ls[i as int]));
                }
                if is_f {
                    let f1 = match face_index(&chunks[1]) {
                        Some(v) => v,
                        None => {
                            return Err(ModelError::BadNumber);
                        },
                    };
                    let f2 = match face_index(&chunks[2]) {
                        Some(v) => v,
                        None => {
                            return Err(ModelError::BadNumber);
                        },
                    };
                    let f3 = match face_index(&chunks[3]) {
                        Some(v) => v,
                        None => {
                            return Err(ModelError::BadNumber);
                        },
                    };
                    let ghost faces_pre = faces@;
                    faces.push((f1, f2, f3));
                    proof {
                        assert(rest is Some ==> (rest->0).1 == seq![face_of_line(ls[i as int])]
                            + (restn->0).1);
                        assert(rest is Some ==> faces_pre + (rest->0).1 =~= faces@ + (restn->0).1);
                    }
                } else if is_v {
                    let z = chunks.remove(3);
                    let y = chunks.remove(2);
                    let x = chunks.remove(1);
                    let ghost v_pre = vertexes@.map_values(
                        |t: (Vec<u8>, Vec<u8>, Vec<u8>)| (t.0@, t.1@, t.2@),
                    );
                    vertexes.push((x, y, z));
                    proof {
                        assert(vertexes@.map_values(
                            |t: (Vec<u8>, Vec<u8>, Vec<u8>)| (t.0@, t.1@, t.2@),
                        ) =~= v_pre.push(vertex_of_line(ls[i as int])));
                        assert(rest is Some ==> (rest->0).0 == seq![vertex_of_line(ls[i as int])]
                            + (restn->0).0);
                        assert(rest is Some ==> v_pre + (rest->0).0 =~= vertexes@.map_values(
                            |t: (Vec<u8>, Vec<u8>, Vec<u8>)| (t.0@, t.1@, t.2@),
                        ) + (restn->0).0);
                    }
                }
            }
            i = i + 1;
        }
        proof {
            assert(ls.skip(ls.len() as int) =~= Seq::<Seq<u8>>::empty());
            assert((parse_model(ls)->0).0 =~= vertexes@.map_values(
                |t: (Vec<u8>, Vec<u8>, Vec<u8>)| (t.0@, t.1@, t.2@),
            ) + Seq::<(Seq<u8>, Seq<u8>, Seq<u8>)>::empty());
        }
        let m = Model { vertexes, faces };
        proof {
            assert((parse_model(ls)->0).0 =~= m.vertexes_view());
            assert((parse_model(ls)->0).1 =~= m.faces@);
        }
        Ok(m)
    }
}

} // verus!
