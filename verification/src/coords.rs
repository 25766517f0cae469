//! Coordinate-line handling shared with the text front end.
//!
//! Terrain files carry one coordinate per line, in the shape `(x,y,z)`.
//! [`split_coord_line`] checks the shape of a line and hands back its three
//! fields, stripped of surrounding blanks; turning the fields into numbers
//! is the front end's business. Every way a line can be malformed is
//! reported as [`CoordError`].

use vstd::prelude::*;

verus! {

/// Raised when a coordinate line is malformed: wrong delimiters, wrong
/// field count, or an unreadable number.
#[derive(Clone, Copy, PartialEq, Eq, Structural, Debug)]
pub struct CoordError;

impl CoordError {
    /// The message shown for any malformed coordinate.
    pub fn message(&self) -> (m: String)
        ensures
            m@ == "Invalid Coordinate"@,
    {
        "Invalid Coordinate".to_owned()
    }
}

/// An opening or closing parenthesis.
pub open spec fn is_paren(c: u8) -> bool {
    c == 40 || c == 41
}

/// An ASCII blank: space, tab, carriage return or line feed.
pub open spec fn is_blank(c: u8) -> bool {
    c == 32 || c == 9 || c == 13 || c == 10
}

/// Index of the first byte at or after `from` that is not a parenthesis,
/// or the length when all remaining bytes are parentheses.
pub open spec fn skip_parens(s: Seq<u8>, from: int) -> int
    decreases s.len() - from, when 0 <= from <= s.len()
{
    if from >= s.len() {
        from
    } else if is_paren(s[from]) {
        skip_parens(s, from + 1)
    } else {
        from
    }
}

/// One past the last byte before `upto`, but not before `floor`, that is
/// not a parenthesis.
pub open spec fn skip_parens_rev(s: Seq<u8>, upto: int, floor: int) -> int
    decreases upto, when 0 <= floor <= upto
{
    if upto <= floor {
        upto
    } else if is_paren(s[upto - 1]) {
        skip_parens_rev(s, upto - 1, floor)
    } else {
        upto
    }
}

/// Index of the first byte at or after `from` that is not a blank.
pub open spec fn skip_blanks(s: Seq<u8>, from: int) -> int
    decreases s.len() - from, when 0 <= from <= s.len()
{
    if from >= s.len() {
        from
    } else if is_blank(s[from]) {
        skip_blanks(s, from + 1)
    } else {
        from
    }
}

/// One past the last byte before `upto`, but not before `floor`, that is
/// not a blank.
pub open spec fn skip_blanks_rev(s: Seq<u8>, upto: int, floor: int) -> int
    decreases upto, when 0 <= floor <= upto
{
    if upto <= floor {
        upto
    } else if is_blank(s[upto - 1]) {
        skip_blanks_rev(s, upto - 1, floor)
    } else {
        upto
    }
}

/// `s` without leading and trailing blanks.
pub open spec fn trim_blanks(s: Seq<u8>) -> Seq<u8> {
    let lo = skip_blanks(s, 0);
    let hi = skip_blanks_rev(s, s.len() as int, lo);
    s.subrange(lo, hi)
}

/// Index of the first comma at or after `from`, or the length when there is
/// none.
pub open spec fn first_comma(s: Seq<u8>, from: int) -> int
    decreases s.len() - from, when 0 <= from <= s.len()
{
    if from >= s.len() {
        from
    } else if s[from] == 44 {
        from
    } else {
        first_comma(s, from + 1)
    }
}

/// The line between its outer parentheses: everything after the leading run
/// of parentheses and before the trailing run.
pub open spec fn coord_interior(s: Seq<u8>) -> Seq<u8> {
    let lo = skip_parens(s, 0);
    let hi = skip_parens_rev(s, s.len() as int, lo);
    s.subrange(lo, hi)
}

/// A well-shaped coordinate line: long enough, wrapped in parentheses, and
/// exactly three comma-separated fields between them.
pub open spec fn coord_line_shape_ok(s: Seq<u8>) -> bool {
    let t = coord_interior(s);
    let c1 = first_comma(t, 0);
    let c2 = if c1 < t.len() {
        first_comma(t, c1 + 1)
    } else {
        t.len() as int
    };
    &&& s.len() >= 7
    &&& s[0] == 40
    &&& s[s.len() - 1] == 41
    &&& c1 < t.len()
    &&& c2 < t.len()
    &&& first_comma(t, c2 + 1) == t.len()
}

/// The three fields of a well-shaped coordinate line, blanks stripped.
pub open spec fn coord_fields(s: Seq<u8>) -> (Seq<u8>, Seq<u8>, Seq<u8>)
    recommends
        coord_line_shape_ok(s),
{
    let t = coord_interior(s);
    let c1 = first_comma(t, 0);
    let c2 = first_comma(t, c1 + 1);
    (
        trim_blanks(t.subrange(0, c1)),
        trim_blanks(t.subrange(c1 + 1, c2)),
        trim_blanks(t.subrange(c2 + 1, t.len() as int)),
    )
}

proof fn lemma_skip_parens_bounds(s: Seq<u8>, from: int)
    requires
        0 <= from <= s.len(),
    ensures
        from <= skip_parens(s, from) <= s.len(),
    decreases s.len() - from,
{
    if from < s.len() && is_paren(s[from]) {
        lemma_skip_parens_bounds(s, from + 1);
    }
}

proof fn lemma_skip_parens_rev_bounds(s: Seq<u8>, upto: int, floor: int)
    requires
        0 <= floor <= upto,
    ensures
        floor <= skip_parens_rev(s, upto, floor) <= upto,
    decreases upto,
{
    if upto > floor && is_paren(s[upto - 1]) {
        lemma_skip_parens_rev_bounds(s, upto - 1, floor);
    }
}

proof fn lemma_skip_blanks_bounds(s: Seq<u8>, from: int)
    requires
        0 <= from <= s.len(),
    ensures
        from <= skip_blanks(s, from) <= s.len(),
    decreases s.len() - from,
{
    if from < s.len() && is_blank(s[from]) {
        lemma_skip_blanks_bounds(s, from + 1);
    }
}

proof fn lemma_skip_blanks_rev_bounds(s: Seq<u8>, upto: int, floor: int)
    requires
        0 <= floor <= upto,
    ensures
        floor <= skip_blanks_rev(s, upto, floor) <= upto,
    decreases upto,
{
    if upto > floor && is_blank(s[upto - 1]) {
        lemma_skip_blanks_rev_bounds(s, upto - 1, floor);
    }
}

proof fn lemma_first_comma_bounds(s: Seq<u8>, from: int)
    requires
        0 <= from <= s.len(),
    ensures
        from <= first_comma(s, from) <= s.len(),
    decreases s.len() - from,
{
    if from < s.len() && s[from] != 44 {
        lemma_first_comma_bounds(s, from + 1);
    }
}

/// Copy of `s[from..to]`.
fn copy_range(s: &Vec<u8>, from: usize, to: usize) -> (out: Vec<u8>)
    requires
        from <= to <= s@.len(),
    ensures
        out@ == s@.subrange(from as int, to as int),
{
    let mut out: Vec<u8> = Vec::new();
    let mut k: usize = from;
    while k < to
        invariant
            from <= k <= to <= s@.len(),
            out@ == s@.subrange(from as int, k as int),
        decreases to - k,
    {
        out.push(s[k]);
        proof {
            assert(out@ =~= s@.subrange(from as int, (k + 1) as int));
        }
        k = k + 1;
    }
    out
}

/// Copy of `s[from..to]` without its leading and trailing blanks.
#[verifier::loop_isolation(false)]
fn trimmed_range(s: &Vec<u8>, from: usize, to: usize) -> (out: Vec<u8>)
    requires
        from <= to <= s@.len(),
    ensures
        out@ == trim_blanks(s@.subrange(from as int, to as int)),
{
    let ghost sub = s@.subrange(from as int, to as int);
    let mut f_lo: usize = from;
    while f_lo < to && (s[f_lo] == 32 || s[f_lo] == 9 || s[f_lo] == 13 || s[f_lo] == 10)
        invariant
            from <= f_lo <= to <= s@.len(),
            skip_blanks(sub, 0) == skip_blanks(sub, f_lo - from),
        decreases to - f_lo,
    {
        proof {
            assert(sub[f_lo - from] == s@[f_lo as int]);
            assert(skip_blanks(sub, f_lo - from) == skip_blanks(sub, f_lo - from + 1));
        }
        f_lo = f_lo + 1;
    }
    proof {
        lemma_skip_blanks_bounds(sub, 0);
        assert(skip_blanks(sub, 0) == f_lo - from);
    }
    let mut f_hi: usize = to;
    while f_hi > f_lo && (s[f_hi - 1] == 32 || s[f_hi - 1] == 9 || s[f_hi - 1] == 13 || s[f_hi - 1]
        == 10)
        invariant
            from <= f_lo <= f_hi <= to <= s@.len(),
            skip_blanks(sub, 0) == f_lo - from,
            skip_blanks_rev(sub, sub.len() as int, f_lo - from) == skip_blanks_rev(
                sub,
                f_hi - from,
                f_lo - from,
            ),
        decreases f_hi,
    {
        proof {
            let k: int = f_hi as int - from as int - 1;
            assert(0 <= k < sub.len());
            assert(sub[k] == s@[from + k]);
            assert(is_blank(sub[k]));
            assert(skip_blanks_rev(sub, f_hi - from, f_lo - from) == skip_blanks_rev(
                sub,
                f_hi - from - 1,
                f_lo - from,
            ));
        }
        f_hi = f_hi - 1;
    }
    proof {
        lemma_skip_blanks_rev_bounds(sub, sub.len() as int, f_lo - from);
        assert(skip_blanks_rev(sub, sub.len() as int, f_lo - from) == f_hi - from);
    }
    let out = copy_range(s, f_lo, f_hi);
    proof {
        assert(out@ =~= sub.subrange(f_lo - from, f_hi - from));
    }
    out
}

/// Splits a coordinate line of the shape `(x,y,z)` into its three fields,
/// stripped of surrounding blanks. Mirrors how the viewer reads terrain
/// files: the line must be at least seven bytes, start with `(` and end
/// with `)`; every leading and trailing parenthesis is then dropped and the
/// rest must hold exactly two commas. Succeeds exactly on well-shaped
/// lines; what the fields hold (a number or not) is the caller's concern.
pub fn split_coord_line(line: &Vec<u8>) -> (r: Result<(Vec<u8>, Vec<u8>, Vec<u8>), CoordError>)
    ensures
        r is Ok <==> coord_line_shape_ok(line@),
        r matches Ok(fields) ==> (fields.0@, fields.1@, fields.2@) == coord_fields(line@),
{
    let n: usize = line.len();
    if n < 7 {
        return Err(CoordError);
    }
    if line[0] != 40 || line[n - 1] != 41 {
        return Err(CoordError);
    }

    // Drop every leading and trailing parenthesis.
    let mut lo: usize = 0;
    while lo < n && (line[lo] == 40 || line[lo] == 41)
        invariant
            0 <= lo <= n == line@.len(),
            skip_parens(line@, 0) == skip_parens(line@, lo as int),
        decreases n - lo,
    {
        lo = lo + 1;
    }
    proof {
        lemma_skip_parens_bounds(line@, 0);
        assert(skip_parens(line@, 0) == lo as int);
    }
    let mut hi: usize = n;
    while hi > lo && (line[hi - 1] == 40 || line[hi - 1] == 41)
        invariant
            0 <= lo <= hi <= n == line@.len(),
            skip_parens(line@, 0) == lo as int,
            skip_parens_rev(line@, n as int, lo as int) == skip_parens_rev(
                line@,
                hi as int,
                lo as int,
            ),
        decreases hi,
    {
        hi = hi - 1;
    }
    proof {
        lemma_skip_parens_rev_bounds(line@, n as int, lo as int);
        assert(skip_parens_rev(line@, n as int, lo as int) == hi as int);
    }
    let interior = copy_range(line, lo, hi);
    proof {
        assert(interior@ == coord_interior(line@));
    }
    let m: usize = interior.len();

    // Exactly two commas divide the interior into three fields.
    let mut c1: usize = 0;
    while c1 < m && interior[c1] != 44
        invariant
            0 <= c1 <= m == interior@.len(),
            first_comma(interior@, 0) == first_comma(interior@, c1 as int),
        decreases m - c1,
    {
        c1 = c1 + 1;
    }
    proof {
        assert(first_comma(interior@, 0) == c1 as int);
    }
    if c1 == m {
        return Err(CoordError);
    }
    let mut c2: usize = c1 + 1;
    while c2 < m && interior[c2] != 44
        invariant
            c1 + 1 <= c2 <= m == interior@.len(),
            first_comma(interior@, c1 + 1) == first_comma(interior@, c2 as int),
        decreases m - c2,
    {
        c2 = c2 + 1;
    }
    proof {
        assert(first_comma(interior@, c1 + 1) == c2 as int);
    }
    if c2 == m {
        return Err(CoordError);
    }
    let mut c3: usize = c2 + 1;
    while c3 < m && interior[c3] != 44
        invariant
            c2 + 1 <= c3 <= m == interior@.len(),
            first_comma(interior@, c2 + 1) == first_comma(interior@, c3 as int),
        decreases m - c3,
    {
        c3 = c3 + 1;
    }
    proof {
        assert(first_comma(interior@, c2 + 1) == c3 as int);
    }
    if c3 < m {
        return Err(CoordError);
    }

    let f1 = trimmed_range(&interior, 0, c1);
    let f2 = trimmed_range(&interior, c1 + 1, c2);
    let f3 = trimmed_range(&interior, c2 + 1, m);
    Ok((f1, f2, f3))
}

} // verus!
