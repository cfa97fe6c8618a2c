use vstd::prelude::*;

verus! {

/// ASCII white space: space, tab, line feed, vertical tab, form feed, carriage return.
pub open spec fn is_space(b: u8) -> bool {
    b == 32 || (9 <= b && b <= 13)
}

/// An ASCII decimal digit.
pub open spec fn is_digit(b: u8) -> bool {
    48 <= b && b <= 57
}

/// The end of the token that starts at `i`: the first white space at or after `i`.
pub open spec fn token_end(s: Seq<u8>, i: int) -> int
    decreases s.len() - i,
{
    if i < 0 || i >= s.len() || is_space(s[i]) {
        i
    } else {
        token_end(s, i + 1)
    }
}

/// The tokens of `s` from position `i` on, as `[start, end)` ranges: the
/// maximal runs of bytes that are not white space.
pub open spec fn tokens_from(s: Seq<u8>, i: int) -> Seq<(int, int)>
    decreases s.len() - i,
{
    if i < 0 || i >= s.len() {
        Seq::empty()
    } else if is_space(s[i]) {
        tokens_from(s, i + 1)
    } else {
        let e = token_end(s, i);
        if e <= i || e > s.len() {
            Seq::empty()
        } else {
            seq![(i, e)] + tokens_from(s, e)
        }
    }
}

/// The position of the first `/` in `[a, b)`, or `b` if there is none.
pub open spec fn first_slash(s: Seq<u8>, a: int, b: int) -> int
    decreases b - a,
{
    if a >= b || s[a] == 47 {
        a
    } else {
        first_slash(s, a + 1, b)
    }
}

/// Every byte in `[a, b)` is a decimal digit.
pub open spec fn all_digits(s: Seq<u8>, a: int, b: int) -> bool {
    forall|k: int| a <= k < b ==> #[trigger] is_digit(s[k])
}

/// The decimal number written by the digits in `[a, b)`.
pub open spec fn digits_value(s: Seq<u8>, a: int, b: int) -> int
    decreases b - a,
{
    if b <= a {
        0
    } else {
        digits_value(s, a, b - 1) * 10 + (s[b - 1] - 48)
    }
}

/// The vertex that a face token in `[a, b)` names, counted from 0: the part
/// before any `/` is a decimal number from 1 to `usize::MAX`, with an optional
/// leading `+`; `None` when it is not.
pub open spec fn face_index(s: Seq<u8>, a: int, b: int) -> Option<usize> {
    let f = first_slash(s, a, b);
    let d = if f > a && s[a] == 43 {
        a + 1
    } else {
        a
    };
    if d < f && all_digits(s, d, f) && 1 <= digits_value(s, d, f) <= usize::MAX {
        Some((digits_value(s, d, f) - 1) as usize)
    } else {
        None
    }
}

/// The vertex indices named by the tokens `toks`, or `None` if one of them names none.
pub open spec fn face_indices(s: Seq<u8>, toks: Seq<(int, int)>) -> Option<Seq<usize>>
    decreases toks.len(),
{
    if toks.len() == 0 {
        Some(Seq::empty())
    } else {
        match (face_indices(s, toks.drop_last()), face_index(s, toks.last().0, toks.last().1)) {
            (Some(v), Some(k)) => Some(v.push(k)),
            _ => None,
        }
    }
}

/// A vertex line starts with `v` and a space.
pub open spec fn is_vertex_line(s: Seq<u8>) -> bool {
    s.len() >= 2 && s[0] == 118 && s[1] == 32
}

/// A face line starts with `f`.
pub open spec fn is_face_line(s: Seq<u8>) -> bool {
    s.len() >= 1 && s[0] == 102
}

/// What a line of a mesh file holds, as far as the vertex indices go.
#[derive(Debug)]
pub enum ObjLine {
    /// A vertex position; its three numbers are read by the caller.
    Vertex,
    /// A polygon, as 0-based vertex indices.
    Face(Vec<usize>),
    /// Anything else, ignored.
    Other,
}

/// Why a line of a mesh file was refused.
#[derive(Clone, Copy, Debug, PartialEq, Eq, Structural)]
pub enum ObjError {
    /// A face token whose index part is not a number from 1 up.
    BadIndex,
}

proof fn lemma_token_end_bounds(s: Seq<u8>, i: int)
    requires
        0 <= i <= s.len(),
    ensures
        i <= token_end(s, i) <= s.len(),
        forall|k: int| i <= k < token_end(s, i) ==> !is_space(#[trigger] s[k]),
    decreases s.len() - i,
{
    if i < s.len() && !is_space(s[i]) {
        lemma_token_end_bounds(s, i + 1);
    }
}

proof fn lemma_digits_grow(s: Seq<u8>, a: int, m: int, b: int)
    requires
        a <= m <= b,
        all_digits(s, a, b),
    ensures
        digits_value(s, a, m) <= digits_value(s, a, b),
        digits_value(s, a, m) >= 0,
    decreases b - m,
{
    if m < b {
        lemma_digits_grow(s, a, m, b - 1);
        assert(is_digit(s[b - 1]));
    } else {
        lemma_digits_nonneg(s, a, b);
    }
}

proof fn lemma_digits_nonneg(s: Seq<u8>, a: int, b: int)
    requires
        all_digits(s, a, b),
    ensures
        digits_value(s, a, b) >= 0,
    decreases b - a,
{
    if b > a {
        lemma_digits_nonneg(s, a, b - 1);
        assert(is_digit(s[b - 1]));
    }
}

/// The index named by the token `[a, b)` of `s`.
fn parse_face_index(s: &Vec<u8>, a: usize, b: usize) -> (r: Option<usize>)
    requires
        a <= b <= s@.len(),
    ensures
        r == face_index(s@, a as int, b as int),
{
    let mut f = a;
    while f < b && s[f] != 47
        invariant
            a <= f <= b,
            b <= s@.len(),
            first_slash(s@, f as int, b as int) == first_slash(s@, a as int, b as int),
        decreases b - f,
    {
        f = f + 1;
    }
    assert(first_slash(s@, f as int, b as int) == f);
    let d = if f > a && s[a] == 43 { a + 1 } else { a };
    if d >= f {
        return None;
    }
    let mut value: usize = 0;
    let mut k = d;
    while k < f
        invariant
            d <= k <= f,
            f <= b,
            b <= s@.len(),
            f == first_slash(s@, a as int, b as int),
            a <= d < f,
            d as int == (if f > a && s@[a as int] == 43 {
                a + 1
            } else {
                a as int
            }),
            all_digits(s@, d as int, k as int),
            value == digits_value(s@, d as int, k as int),
        decreases f - k,
    {
        let c = s[k];
        if c < 48 || c > 57 {
            assert(!is_digit(s@[k as int]));
            assert(!all_digits(s@, d as int, f as int));
            return None;
        }
        let step = value.checked_mul(10);
        let next = match step {
            Some(m) => m.checked_add((c - 48) as usize),
            None => None,
        };
        match next {
            Some(v) => {
                value = v;
            },
            None => {
                proof {
                    lemma_digits_nonneg(s@, d as int, k as int);
                    assert(digits_value(s@, d as int, k as int + 1) > usize::MAX);
                    if all_digits(s@, d as int, f as int) {
                        lemma_digits_grow(s@, d as int, k as int + 1, f as int);
                    }
                }
                return None;
            },
        }
        k = k + 1;
    }
    if value == 0 {
        return None;
    }
    Some(value - 1)
}

/// Reads a line of a mesh file: a vertex line (`v` and a space), a face line
/// (`f`, then tokens whose part before any `/` is a 1-based vertex index), or
/// anything else. A face token that names no vertex makes the line an error.
pub fn parse_obj_line(line: &Vec<u8>) -> (r: Result<ObjLine, ObjError>)
    ensures
        is_vertex_line(line@) ==> r matches Ok(ObjLine::Vertex),
        !is_vertex_line(line@) && !is_face_line(line@) ==> r matches Ok(ObjLine::Other),
        !is_vertex_line(line@) && is_face_line(line@) ==> match face_indices(line@, tokens_from(line@, 0).drop_first()) {
            Some(v) => r matches Ok(ObjLine::Face(f)) && f@ == v,
            None => r == Err::<ObjLine, ObjError>(ObjError::BadIndex),
        },
{
    let n = line.len();
    if n >= 2 && line[0] == 118 && line[1] == 32 {
        return Ok(ObjLine::Vertex);
    }
    if n == 0 || line[0] != 102 {
        return Ok(ObjLine::Other);
    }
    let ghost s = line@;
    assert(!is_vertex_line(s) && is_face_line(s));
    let mut starts: Vec<usize> = Vec::new();
    let mut ends: Vec<usize> = Vec::new();
    let ghost seen: Seq<(int, int)> = Seq::empty();
    let mut i: usize = 0;
    while i < n
        invariant
            n == s.len(),
            s == line@,
            !is_vertex_line(s),
            is_face_line(s),
            i <= n,
            starts@.len() == seen.len(),
            ends@.len() == seen.len(),
            forall|t: int|
                0 <= t < seen.len() ==> #[trigger] seen[t] == (starts@[t] as int, ends@[t] as int) && starts@[t]
                    <= ends@[t] <= n,
            seen + tokens_from(s, i as int) == tokens_from(s, 0),
        decreases n - i,
    {
        if line[i] == 32 || (9 <= line[i] && line[i] <= 13) {
            i = i + 1;
        } else {
            let st = i;
            while i < n && !(line[i] == 32 || (9 <= line[i] && line[i] <= 13))
                invariant
                    st < n,
                    n == s.len(),
                    s == line@,
                    st <= i <= n,
                    st < i || i == st,
                    !is_space(s[st as int]),
                    token_end(s, i as int) == token_end(s, st as int),
                decreases n - i,
            {
                i = i + 1;
            }
            proof {
                if i == st {
                    assert(false);
                }
                lemma_token_end_bounds(s, st as int);
                assert(token_end(s, st as int) == i);
                assert(tokens_from(s, st as int) == seq![(st as int, i as int)] + tokens_from(s, i as int));
                let seen2 = seen.push((st as int, i as int));
                assert(seen2 + tokens_from(s, i as int) =~= seen + tokens_from(s, st as int));
                seen = seen2;
            }
            starts.push(st);
            ends.push(i);
        }
    }
    proof {
        assert(seen =~= tokens_from(s, 0));
    }
    let mut face: Vec<usize> = Vec::new();
    proof {
        lemma_token_end_bounds(s, 1);
        assert(token_end(s, 0) == token_end(s, 1));
        assert(tokens_from(s, 0).len() > 0);
    }
    let ghost toks = tokens_from(s, 0).drop_first();
    let mut t: usize = 1;
    while t < starts.len()
        invariant
            1 <= t <= starts@.len(),
            starts@.len() == seen.len(),
            ends@.len() == seen.len(),
            seen == tokens_from(s, 0),
            toks == seen.drop_first(),
            s == line@,
            n == s.len(),
            !is_vertex_line(s),
            is_face_line(s),
            forall|u: int|
                0 <= u < seen.len() ==> #[trigger] seen[u] == (starts@[u] as int, ends@[u] as int) && starts@[u]
                    <= ends@[u] <= n,
            face_indices(s, toks.subrange(0, t - 1)) == Some(face@),
        decreases starts@.len() - t,
    {
        assert(seen[t as int] == (starts@[t as int] as int, ends@[t as int] as int));
        let idx = parse_face_index(line, starts[t], ends[t]);
        proof {
            let sub = toks.subrange(0, t as int);
            assert(sub.drop_last() =~= toks.subrange(0, t - 1));
            assert(sub.last() == seen[t as int]);
        }
        match idx {
            Some(k) => {
                face.push(k);
            },
            None => {
                proof {
                    lemma_face_indices_prefix_none(s, toks, t as int);
                    assert(!is_vertex_line(line@));
                }
                return Err(ObjError::BadIndex);
            },
        }
        t = t + 1;
    }
    proof {
        assert(toks.subrange(0, t - 1) =~= toks);
    }
    Ok(ObjLine::Face(face))
}

/// Once a prefix of the tokens names no vertex, neither do all of them.
proof fn lemma_face_indices_prefix_none(s: Seq<u8>, toks: Seq<(int, int)>, t: int)
    requires
        1 <= t <= toks.len(),
        face_indices(s, toks.subrange(0, t)) is None,
    ensures
        face_indices(s, toks) is None,
    decreases toks.len() - t,
{
    if t < toks.len() {
        let sub = toks.subrange(0, t + 1);
        assert(sub.drop_last() =~= toks.subrange(0, t));
        lemma_face_indices_prefix_none(s, toks, t + 1);
    } else {
        assert(toks.subrange(0, t) =~= toks);
    }
}

} // verus!
