//! Decoding of the metadata text attached to a mesh node.
//!
//! The expected payload is a JSON object with a `"collider"` member, a
//! `"rigid_body"` member, and an optional `"cube_size"` member holding an
//! object with number members `"x"`, `"y"` and `"z"`:
//!
//! `{ "collider": "Cuboid", "rigid_body": "Static",
//!    "cube_size": {"x": 2, "y": 1, "z": 2} }`
//!
//! Members may come in any order, separated by JSON whitespace; a duplicate
//! member, an unexpected member, or any other text is malformed. The grammar
//! is stated by the `spec` functions in this module, and `decode_mesh_extras`
//! is proved to return exactly what the grammar says.
use vstd::prelude::*;
use crate::extras::{BCollider, BRigidBody, BMeshExtras, CubeSize, CubeSizeView, MeshExtrasView,
    cube_size_view};

verus! {

/// Malformed metadata text: the payload did not match the expected schema.
#[derive(Clone, Copy, Debug, PartialEq, Eq, Structural)]
pub struct DecodeError;

// ---------------------------------------------------------------------------
// Scanning primitives.
// ---------------------------------------------------------------------------

/// JSON whitespace.
pub open spec fn is_ws_char(c: char) -> bool {
    c == ' ' || c == '\t' || c == '\n' || c == '\r'
}

/// An ASCII decimal digit.
pub open spec fn is_digit_char(c: char) -> bool {
    48 <= (c as u32) && (c as u32) <= 57
}

/// The first index at or after `i` holding no whitespace.
pub open spec fn skip_ws(s: Seq<char>, i: int) -> int
    decreases s.len() - i,
{
    if 0 <= i && i < s.len() && is_ws_char(s[i]) {
        skip_ws(s, i + 1)
    } else {
        i
    }
}

/// The first index at or after `i` holding no digit.
pub open spec fn skip_digits(s: Seq<char>, i: int) -> int
    decreases s.len() - i,
{
    if 0 <= i && i < s.len() && is_digit_char(s[i]) {
        skip_digits(s, i + 1)
    } else {
        i
    }
}

/// `lit` occurs in `s` starting at index `i`.
pub open spec fn lit_at(s: Seq<char>, i: int, lit: Seq<char>) -> bool {
    0 <= i && i + lit.len() <= s.len() && s.subrange(i, i + lit.len()) == lit
}

proof fn lemma_skip_ws_range(s: Seq<char>, i: int)
    requires
        0 <= i <= s.len(),
    ensures
        i <= skip_ws(s, i) <= s.len(),
    decreases s.len() - i,
{
    if i < s.len() && is_ws_char(s[i]) {
        lemma_skip_ws_range(s, i + 1);
    }
}

proof fn lemma_skip_digits_range(s: Seq<char>, i: int)
    requires
        0 <= i <= s.len(),
    ensures
        i <= skip_digits(s, i) <= s.len(),
    decreases s.len() - i,
{
    if i < s.len() && is_digit_char(s[i]) {
        lemma_skip_digits_range(s, i + 1);
    }
}

fn exec_is_ws(c: char) -> (b: bool)
    ensures
        b == is_ws_char(c),
{
    c == ' ' || c == '\t' || c == '\n' || c == '\r'
}

fn exec_is_digit(c: char) -> (b: bool)
    ensures
        b == is_digit_char(c),
{
    let u = c as u32;
    48 <= u && u <= 57
}

fn exec_skip_ws(s: &[char], i: usize) -> (j: usize)
    requires
        i <= s@.len(),
    ensures
        i <= j <= s@.len(),
        j == skip_ws(s@, i as int),
{
    let mut j = i;
    while j < s.len() && exec_is_ws(s[j])
        invariant
            i <= j <= s@.len(),
            skip_ws(s@, i as int) == skip_ws(s@, j as int),
        decreases s@.len() - j,
    {
        j += 1;
    }
    j
}

fn exec_skip_digits(s: &[char], i: usize) -> (j: usize)
    requires
        i <= s@.len(),
    ensures
        i <= j <= s@.len(),
        j == skip_digits(s@, i as int),
{
    let mut j = i;
    while j < s.len() && exec_is_digit(s[j])
        invariant
            i <= j <= s@.len(),
            skip_digits(s@, i as int) == skip_digits(s@, j as int),
        decreases s@.len() - j,
    {
        j += 1;
    }
    j
}

/// Returns true when `lit` occurs in `s` starting at index `i`.
fn match_lit(s: &[char], i: usize, lit: &[char]) -> (r: bool)
    ensures
        r == lit_at(s@, i as int, lit@),
{
    if i > s.len() || s.len() - i < lit.len() {
        return false;
    }
    let mut k: usize = 0;
    while k < lit.len()
        invariant
            0 <= k <= lit.len(),
            i + lit.len() <= s.len(),
            forall|m: int| 0 <= m < k ==> s@[i + m] == lit@[m],
        decreases lit.len() - k,
    {
        if s[i + k] != lit[k] {
            assert(s@.subrange(i as int, i + lit@.len())[k as int] != lit@[k as int]);
            return false;
        }
        k += 1;
    }
    assert(s@.subrange(i as int, i + lit@.len()) =~= lit@);
    true
}

/// The characters of `s` from `lo` (inclusive) to `hi` (exclusive), owned.
fn copy_span(s: &[char], lo: usize, hi: usize) -> (v: Vec<char>)
    requires
        lo <= hi <= s@.len(),
    ensures
        v@ == s@.subrange(lo as int, hi as int),
{
    let mut v: Vec<char> = Vec::new();
    let mut k = lo;
    while k < hi
        invariant
            lo <= k <= hi <= s@.len(),
            v@ == s@.subrange(lo as int, k as int),
        decreases hi - k,
    {
        v.push(s[k]);
        assert(v@ =~= s@.subrange(lo as int, k + 1));
        k += 1;
    }
    v
}

/// The characters of `s`, collected into a vector.
fn chars_of(s: &str) -> (v: Vec<char>)
    ensures
        v@ == s@,
{
    let n = s.unicode_len();
    let mut v: Vec<char> = Vec::new();
    let mut i: usize = 0;
    while i < n
        invariant
            i <= n,
            n == s@.len(),
            v@ == s@.subrange(0, i as int),
        decreases n - i,
    {
        let c = s.get_char(i);
        v.push(c);
        assert(v@ =~= s@.subrange(0, i + 1));
        i += 1;
    }
    assert(v@ =~= s@);
    v
}

// ---------------------------------------------------------------------------
// The JSON number grammar. A number token is an optional minus sign, an
// integer part (`0`, or a nonzero digit followed by digits), an optional
// fraction, and an optional exponent.
// ---------------------------------------------------------------------------

/// End of an optional fraction part starting at `i`, or `None` when a decimal
/// point is present but carries no digit.
pub open spec fn frac_end(s: Seq<char>, i: int) -> Option<int> {
    if 0 <= i && i < s.len() && s[i] == '.' {
        let j = skip_digits(s, i + 1);
        if j == i + 1 {
            Option::None
        } else {
            Option::Some(j)
        }
    } else {
        Option::Some(i)
    }
}

/// End of an optional exponent part starting at `i`, or `None` when an
/// exponent marker is present but carries no digit.
pub open spec fn exp_end(s: Seq<char>, i: int) -> Option<int> {
    if 0 <= i && i < s.len() && (s[i] == 'e' || s[i] == 'E') {
        let j = if i + 1 < s.len() && (s[i + 1] == '+' || s[i + 1] == '-') {
            i + 2
        } else {
            i + 1
        };
        let k = skip_digits(s, j);
        if k == j {
            Option::None
        } else {
            Option::Some(k)
        }
    } else {
        Option::Some(i)
    }
}

/// End of a JSON number token starting at `i`, or `None` when no such token
/// starts there.
pub open spec fn number_end(s: Seq<char>, i: int) -> Option<int> {
    let j = if 0 <= i && i < s.len() && s[i] == '-' {
        i + 1
    } else {
        i
    };
    if !(0 <= j && j < s.len() && is_digit_char(s[j])) {
        Option::None
    } else {
        let k = if s[j] == '0' {
            j + 1
        } else {
            skip_digits(s, j)
        };
        match frac_end(s, k) {
            Option::None => Option::None,
            Option::Some(m) => exp_end(s, m),
        }
    }
}

fn exec_frac_end(s: &[char], i: usize) -> (r: Option<usize>)
    requires
        i <= s@.len(),
    ensures
        match r {
            Option::Some(j) => frac_end(s@, i as int) == Option::Some(j as int) && i <= j
                <= s@.len(),
            Option::None => frac_end(s@, i as int) is None,
        },
{
    if i < s.len() && s[i] == '.' {
        let j = exec_skip_digits(s, i + 1);
        if j == i + 1 {
            None
        } else {
            Some(j)
        }
    } else {
        Some(i)
    }
}

fn exec_exp_end(s: &[char], i: usize) -> (r: Option<usize>)
    requires
        i <= s@.len(),
    ensures
        match r {
            Option::Some(j) => exp_end(s@, i as int) == Option::Some(j as int) && i <= j
                <= s@.len(),
            Option::None => exp_end(s@, i as int) is None,
        },
{
    if i < s.len() && (s[i] == 'e' || s[i] == 'E') {
        let j = if i + 1 < s.len() && (s[i + 1] == '+' || s[i + 1] == '-') {
            i + 2
        } else {
            i + 1
        };
        let k = exec_skip_digits(s, j);
        if k == j {
            None
        } else {
            Some(k)
        }
    } else {
        Some(i)
    }
}

/// `t` is exactly one JSON number token, the whole of it.
pub open spec fn is_number_token(t: Seq<char>) -> bool {
    number_end(t, 0) == Option::Some(t.len() as int)
}

proof fn lemma_skip_digits_shift(s: Seq<char>, i: int, e: int, p: int)
    requires
        0 <= i <= p <= e <= s.len(),
        skip_digits(s, p) <= e,
    ensures
        skip_digits(s.subrange(i, e), p - i) == skip_digits(s, p) - i,
    decreases e - p,
{
    if p < e && is_digit_char(s[p]) {
        lemma_skip_digits_shift(s, i, e, p + 1);
    } else if p == e {
        if p < s.len() && is_digit_char(s[p]) {
            lemma_skip_digits_range(s, p + 1);
        }
    }
}

proof fn lemma_frac_end_shift(s: Seq<char>, i: int, e: int, p: int, m: int)
    requires
        0 <= i <= p <= e <= s.len(),
        frac_end(s, p) == Option::Some(m),
        m <= e,
    ensures
        frac_end(s.subrange(i, e), p - i) == Option::Some(m - i),
{
    if 0 <= p && p < s.len() && s[p] == '.' {
        lemma_skip_digits_range(s, p + 1);
        if p == e {
            // the fraction would run past `e`, against `m <= e`
            assert(false);
        } else {
            lemma_skip_digits_shift(s, i, e, p + 1);
        }
    }
}

proof fn lemma_exp_end_shift(s: Seq<char>, i: int, e: int, p: int, m: int)
    requires
        0 <= i <= p <= e <= s.len(),
        exp_end(s, p) == Option::Some(m),
        m <= e,
    ensures
        exp_end(s.subrange(i, e), p - i) == Option::Some(m - i),
{
    if 0 <= p && p < s.len() && (s[p] == 'e' || s[p] == 'E') {
        let j = if p + 1 < s.len() && (s[p + 1] == '+' || s[p + 1] == '-') {
            p + 2
        } else {
            p + 1
        };
        lemma_skip_digits_range(s, j);
        // `m` is a digit run that starts after the marker and ends by `e`,
        // so the marker, any sign, and the first digit all sit before `e`.
        assert(j < m <= e);
        lemma_skip_digits_shift(s, i, e, j);
    }
}

/// Locality of the number grammar: a token recognized inside `s` is
/// recognized whole when cut out of `s`.
proof fn lemma_number_end_shift(s: Seq<char>, i: int, e: int)
    requires
        0 <= i <= s.len(),
        number_end(s, i) == Option::Some(e),
    ensures
        i < e <= s.len(),
        is_number_token(s.subrange(i, e)),
{
    lemma_number_end_range(s, i);
    let t = s.subrange(i, e);
    let j = if s[i] == '-' {
        i + 1
    } else {
        i
    };
    let k = if s[j] == '0' {
        j + 1
    } else {
        skip_digits(s, j)
    };
    if s[j] != '0' {
        lemma_skip_digits_range(s, j + 1);
    }
    let m = frac_end(s, k)->Some_0;
    lemma_frac_end_range(s, k);
    lemma_exp_end_range(s, m);
    assert(j < k <= m <= e);
    if s[j] != '0' {
        lemma_skip_digits_shift(s, i, e, j);
    }
    lemma_frac_end_shift(s, i, e, k, m);
    lemma_exp_end_shift(s, i, e, m, e);
}

proof fn lemma_frac_end_range(s: Seq<char>, i: int)
    requires
        0 <= i <= s.len(),
        frac_end(s, i) is Some,
    ensures
        i <= frac_end(s, i)->Some_0 <= s.len(),
{
    if i < s.len() && s[i] == '.' {
        lemma_skip_digits_range(s, i + 1);
    }
}

proof fn lemma_exp_end_range(s: Seq<char>, i: int)
    requires
        0 <= i <= s.len(),
        exp_end(s, i) is Some,
    ensures
        i <= exp_end(s, i)->Some_0 <= s.len(),
{
    if i < s.len() && (s[i] == 'e' || s[i] == 'E') {
        let j = if i + 1 < s.len() && (s[i + 1] == '+' || s[i + 1] == '-') {
            i + 2
        } else {
            i + 1
        };
        if j <= s.len() {
            lemma_skip_digits_range(s, j);
        }
    }
}

proof fn lemma_number_end_range(s: Seq<char>, i: int)
    requires
        0 <= i <= s.len(),
        number_end(s, i) is Some,
    ensures
        i < number_end(s, i)->Some_0 <= s.len(),
{
    let j = if 0 <= i && i < s.len() && s[i] == '-' {
        i + 1
    } else {
        i
    };
    let k = if s[j] == '0' {
        j + 1
    } else {
        skip_digits(s, j)
    };
    if s[j] != '0' {
        lemma_skip_digits_range(s, j + 1);
    }
    lemma_frac_end_range(s, k);
    lemma_exp_end_range(s, frac_end(s, k)->Some_0);
}

fn exec_number_end(s: &[char], i: usize) -> (r: Option<usize>)
    requires
        i <= s@.len(),
    ensures
        match r {
            Option::Some(e) => number_end(s@, i as int) == Option::Some(e as int) && i < e
                <= s@.len(),
            Option::None => number_end(s@, i as int) is None,
        },
{
    let j = if i < s.len() && s[i] == '-' {
        i + 1
    } else {
        i
    };
    if !(j < s.len() && exec_is_digit(s[j])) {
        return None;
    }
    let k = if s[j] == '0' {
        j + 1
    } else {
        exec_skip_digits(s, j)
    };
    proof {
        if s@[j as int] != '0' {
            lemma_skip_digits_range(s@, j as int + 1);
        }
    }
    match exec_frac_end(s, k) {
        None => None,
        Some(m) => exec_exp_end(s, m),
    }
}

// ---------------------------------------------------------------------------
// The fixed tokens of the payload: member keys and enum tags, each quoted as
// it stands in the text.
// ---------------------------------------------------------------------------

pub open spec fn kw_collider() -> Seq<char> {
    seq!['"', 'c', 'o', 'l', 'l', 'i', 'd', 'e', 'r', '"']
}

pub open spec fn kw_rigid_body() -> Seq<char> {
    seq!['"', 'r', 'i', 'g', 'i', 'd', '_', 'b', 'o', 'd', 'y', '"']
}

pub open spec fn kw_cube_size() -> Seq<char> {
    seq!['"', 'c', 'u', 'b', 'e', '_', 's', 'i', 'z', 'e', '"']
}

pub open spec fn kw_trimesh_from_mesh() -> Seq<char> {
    seq!['"', 'T', 'r', 'i', 'm', 'e', 's', 'h', 'F', 'r', 'o', 'm', 'M', 'e', 's', 'h', '"']
}

pub open spec fn kw_cuboid() -> Seq<char> {
    seq!['"', 'C', 'u', 'b', 'o', 'i', 'd', '"']
}

pub open spec fn kw_static() -> Seq<char> {
    seq!['"', 'S', 't', 'a', 't', 'i', 'c', '"']
}

pub open spec fn kw_dynamic() -> Seq<char> {
    seq!['"', 'D', 'y', 'n', 'a', 'm', 'i', 'c', '"']
}

pub open spec fn kw_x() -> Seq<char> {
    seq!['"', 'x', '"']
}

pub open spec fn kw_y() -> Seq<char> {
    seq!['"', 'y', '"']
}

pub open spec fn kw_z() -> Seq<char> {
    seq!['"', 'z', '"']
}

fn match_kw_collider(s: &[char], i: usize) -> (r: bool)
    ensures
        r == lit_at(s@, i as int, kw_collider()),
{
    let lit: [char; 10] = ['"', 'c', 'o', 'l', 'l', 'i', 'd', 'e', 'r', '"'];
    let r = match_lit(s, i, lit.as_slice());
    proof {
        assert(lit@ =~= kw_collider());
    }
    r
}

fn match_kw_rigid_body(s: &[char], i: usize) -> (r: bool)
    ensures
        r == lit_at(s@, i as int, kw_rigid_body()),
{
    let lit: [char; 12] = ['"', 'r', 'i', 'g', 'i', 'd', '_', 'b', 'o', 'd', 'y', '"'];
    let r = match_lit(s, i, lit.as_slice());
    proof {
        assert(lit@ =~= kw_rigid_body());
    }
    r
}

fn match_kw_cube_size(s: &[char], i: usize) -> (r: bool)
    ensures
        r == lit_at(s@, i as int, kw_cube_size()),
{
    let lit: [char; 11] = ['"', 'c', 'u', 'b', 'e', '_', 's', 'i', 'z', 'e', '"'];
    let r = match_lit(s, i, lit.as_slice());
    proof {
        assert(lit@ =~= kw_cube_size());
    }
    r
}

fn match_kw_trimesh_from_mesh(s: &[char], i: usize) -> (r: bool)
    ensures
        r == lit_at(s@, i as int, kw_trimesh_from_mesh()),
{
    let lit: [char; 17] = [
        '"', 'T', 'r', 'i', 'm', 'e', 's', 'h', 'F', 'r', 'o', 'm', 'M', 'e', 's', 'h', '"',
    ];
    let r = match_lit(s, i, lit.as_slice());
    proof {
        assert(lit@ =~= kw_trimesh_from_mesh());
    }
    r
}

fn match_kw_cuboid(s: &[char], i: usize) -> (r: bool)
    ensures
        r == lit_at(s@, i as int, kw_cuboid()),
{
    let lit: [char; 8] = ['"', 'C', 'u', 'b', 'o', 'i', 'd', '"'];
    let r = match_lit(s, i, lit.as_slice());
    proof {
        assert(lit@ =~= kw_cuboid());
    }
    r
}

fn match_kw_static(s: &[char], i: usize) -> (r: bool)
    ensures
        r == lit_at(s@, i as int, kw_static()),
{
    let lit: [char; 8] = ['"', 'S', 't', 'a', 't', 'i', 'c', '"'];
    let r = match_lit(s, i, lit.as_slice());
    proof {
        assert(lit@ =~= kw_static());
    }
    r
}

fn match_kw_dynamic(s: &[char], i: usize) -> (r: bool)
    ensures
        r == lit_at(s@, i as int, kw_dynamic()),
{
    let lit: [char; 9] = ['"', 'D', 'y', 'n', 'a', 'm', 'i', 'c', '"'];
    let r = match_lit(s, i, lit.as_slice());
    proof {
        assert(lit@ =~= kw_dynamic());
    }
    r
}

fn match_kw_x(s: &[char], i: usize) -> (r: bool)
    ensures
        r == lit_at(s@, i as int, kw_x()),
{
    let lit: [char; 3] = ['"', 'x', '"'];
    let r = match_lit(s, i, lit.as_slice());
    proof {
        assert(lit@ =~= kw_x());
    }
    r
}

fn match_kw_y(s: &[char], i: usize) -> (r: bool)
    ensures
        r == lit_at(s@, i as int, kw_y()),
{
    let lit: [char; 3] = ['"', 'y', '"'];
    let r = match_lit(s, i, lit.as_slice());
    proof {
        assert(lit@ =~= kw_y());
    }
    r
}

fn match_kw_z(s: &[char], i: usize) -> (r: bool)
    ensures
        r == lit_at(s@, i as int, kw_z()),
{
    let lit: [char; 3] = ['"', 'z', '"'];
    let r = match_lit(s, i, lit.as_slice());
    proof {
        assert(lit@ =~= kw_z());
    }
    r
}

// ---------------------------------------------------------------------------
// Members. A member is a key, a colon, and a value; members accumulate into
// a partial record, and a key seen twice is malformed.
// ---------------------------------------------------------------------------

/// Position of a member's value: whitespace, a colon, then whitespace, all
/// after the key ending at `i`; `None` when the colon is missing.
pub open spec fn after_key_colon(s: Seq<char>, i: int) -> Option<int> {
    let j = skip_ws(s, i);
    if 0 <= j && j < s.len() && s[j] == ':' {
        Option::Some(skip_ws(s, j + 1))
    } else {
        Option::None
    }
}

fn exec_after_key_colon(s: &[char], i: usize) -> (r: Option<usize>)
    requires
        i <= s@.len(),
    ensures
        match r {
            Option::Some(j) => after_key_colon(s@, i as int) == Option::Some(j as int) && j
                <= s@.len(),
            Option::None => after_key_colon(s@, i as int) is None,
        },
{
    let j = exec_skip_ws(s, i);
    if j < s.len() && s[j] == ':' {
        Some(exec_skip_ws(s, j + 1))
    } else {
        None
    }
}

/// A collider tag and the index just past it, or `None` when neither tag
/// starts at `i`.
pub open spec fn parse_collider_value(s: Seq<char>, i: int) -> Option<(BCollider, int)> {
    if lit_at(s, i, kw_trimesh_from_mesh()) {
        Option::Some((BCollider::TrimeshFromMesh, i + kw_trimesh_from_mesh().len()))
    } else if lit_at(s, i, kw_cuboid()) {
        Option::Some((BCollider::Cuboid, i + kw_cuboid().len()))
    } else {
        Option::None
    }
}

fn exec_parse_collider_value(s: &[char], i: usize) -> (r: Option<(BCollider, usize)>)
    requires
        i <= s@.len(),
    ensures
        match r {
            Option::Some((c, j)) => parse_collider_value(s@, i as int) == Option::Some(
                (c, j as int),
            ) && j <= s@.len(),
            Option::None => parse_collider_value(s@, i as int) is None,
        },
{
    // binds s@.len() to a usize, which bounds the token-end arithmetic below
    let _n = s.len();
    if match_kw_trimesh_from_mesh(s, i) {
        proof {
            assert(kw_trimesh_from_mesh().len() == 17);
        }
        Some((BCollider::TrimeshFromMesh, i + 17))
    } else if match_kw_cuboid(s, i) {
        proof {
            assert(kw_cuboid().len() == 8);
        }
        Some((BCollider::Cuboid, i + 8))
    } else {
        None
    }
}

/// A rigid-body tag and the index just past it, or `None` when neither tag
/// starts at `i`.
pub open spec fn parse_rigid_body_value(s: Seq<char>, i: int) -> Option<(BRigidBody, int)> {
    if lit_at(s, i, kw_static()) {
        Option::Some((BRigidBody::Static, i + kw_static().len()))
    } else if lit_at(s, i, kw_dynamic()) {
        Option::Some((BRigidBody::Dynamic, i + kw_dynamic().len()))
    } else {
        Option::None
    }
}

fn exec_parse_rigid_body_value(s: &[char], i: usize) -> (r: Option<(BRigidBody, usize)>)
    requires
        i <= s@.len(),
    ensures
        match r {
            Option::Some((b, j)) => parse_rigid_body_value(s@, i as int) == Option::Some(
                (b, j as int),
            ) && j <= s@.len(),
            Option::None => parse_rigid_body_value(s@, i as int) is None,
        },
{
    // binds s@.len() to a usize, which bounds the token-end arithmetic below
    let _n = s.len();
    if match_kw_static(s, i) {
        proof {
            assert(kw_static().len() == 8);
        }
        Some((BRigidBody::Static, i + 8))
    } else if match_kw_dynamic(s, i) {
        proof {
            assert(kw_dynamic().len() == 9);
        }
        Some((BRigidBody::Dynamic, i + 9))
    } else {
        None
    }
}

/// The dimensions gathered so far while reading a `cube_size` object.
pub ghost struct AxesView {
    pub x: Option<Seq<char>>,
    pub y: Option<Seq<char>>,
    pub z: Option<Seq<char>>,
}

struct Axes {
    x: Option<Vec<char>>,
    y: Option<Vec<char>>,
    z: Option<Vec<char>>,
}

impl View for Axes {
    type V = AxesView;

    closed spec fn view(&self) -> AxesView {
        AxesView {
            x: match self.x {
                Option::Some(v) => Option::Some(v@),
                Option::None => Option::None,
            },
            y: match self.y {
                Option::Some(v) => Option::Some(v@),
                Option::None => Option::None,
            },
            z: match self.z {
                Option::Some(v) => Option::Some(v@),
                Option::None => Option::None,
            },
        }
    }
}

/// One `"x"`, `"y"` or `"z"` member starting (after whitespace) at `i`: its
/// number token joins `a`, and the result carries the index just past the
/// token. `None` on an unknown key, a repeated key, or a malformed value.
pub open spec fn parse_axis_member(s: Seq<char>, i: int, a: AxesView) -> Option<(AxesView, int)> {
    let j = skip_ws(s, i);
    if lit_at(s, j, kw_x()) {
        if a.x is Some {
            Option::None
        } else {
            match after_key_colon(s, j + kw_x().len()) {
                Option::None => Option::None,
                Option::Some(k) => match number_end(s, k) {
                    Option::None => Option::None,
                    Option::Some(e) => Option::Some(
                        (AxesView { x: Option::Some(s.subrange(k, e)), ..a }, e),
                    ),
                },
            }
        }
    } else if lit_at(s, j, kw_y()) {
        if a.y is Some {
            Option::None
        } else {
            match after_key_colon(s, j + kw_y().len()) {
                Option::None => Option::None,
                Option::Some(k) => match number_end(s, k) {
                    Option::None => Option::None,
                    Option::Some(e) => Option::Some(
                        (AxesView { y: Option::Some(s.subrange(k, e)), ..a }, e),
                    ),
                },
            }
        }
    } else if lit_at(s, j, kw_z()) {
        if a.z is Some {
            Option::None
        } else {
            match after_key_colon(s, j + kw_z().len()) {
                Option::None => Option::None,
                Option::Some(k) => match number_end(s, k) {
                    Option::None => Option::None,
                    Option::Some(e) => Option::Some(
                        (AxesView { z: Option::Some(s.subrange(k, e)), ..a }, e),
                    ),
                },
            }
        }
    } else {
        Option::None
    }
}

fn exec_parse_axis_member(s: &[char], i: usize, a: Axes) -> (r: Option<(Axes, usize)>)
    requires
        i <= s@.len(),
    ensures
        match r {
            Option::Some((a2, j)) => parse_axis_member(s@, i as int, a@) == Option::Some(
                (a2@, j as int),
            ) && j <= s@.len(),
            Option::None => parse_axis_member(s@, i as int, a@) is None,
        },
{
    // binds s@.len() to a usize, which bounds the key-end arithmetic below
    let _n = s.len();
    let j = exec_skip_ws(s, i);
    if match_kw_x(s, j) {
        proof {
            assert(kw_x().len() == 3);
        }
        if a.x.is_some() {
            None
        } else {
            match exec_after_key_colon(s, j + 3) {
                None => None,
                Some(k) => match exec_number_end(s, k) {
                    None => None,
                    Some(e) => {
                        let tok = copy_span(s, k, e);
                        Some((Axes { x: Some(tok), ..a }, e))
                    },
                },
            }
        }
    } else if match_kw_y(s, j) {
        proof {
            assert(kw_y().len() == 3);
        }
        if a.y.is_some() {
            None
        } else {
            match exec_after_key_colon(s, j + 3) {
                None => None,
                Some(k) => match exec_number_end(s, k) {
                    None => None,
                    Some(e) => {
                        let tok = copy_span(s, k, e);
                        Some((Axes { y: Some(tok), ..a }, e))
                    },
                },
            }
        }
    } else if match_kw_z(s, j) {
        proof {
            assert(kw_z().len() == 3);
        }
        if a.z.is_some() {
            None
        } else {
            match exec_after_key_colon(s, j + 3) {
                None => None,
                Some(k) => match exec_number_end(s, k) {
                    None => None,
                    Some(e) => {
                        let tok = copy_span(s, k, e);
                        Some((Axes { z: Some(tok), ..a }, e))
                    },
                },
            }
        }
    } else {
        None
    }
}

/// A comma-separated run of axis members starting at `i`, gathered into `a`;
/// the result's index sits on the character after the run's trailing
/// whitespace. `fuel` bounds the commas taken; the object form needs at most
/// two.
pub open spec fn parse_axes(s: Seq<char>, i: int, a: AxesView, fuel: nat) -> Option<
    (AxesView, int),
>
    decreases fuel,
{
    match parse_axis_member(s, i, a) {
        Option::None => Option::None,
        Option::Some((a2, j)) => {
            let k = skip_ws(s, j);
            if 0 <= k && k < s.len() && s[k] == ',' {
                if fuel == 0 {
                    Option::None
                } else {
                    parse_axes(s, k + 1, a2, (fuel - 1) as nat)
                }
            } else {
                Option::Some((a2, k))
            }
        },
    }
}

fn exec_parse_axes(s: &[char], i: usize, a: Axes, fuel: u8) -> (r: Option<(Axes, usize)>)
    requires
        i <= s@.len(),
    ensures
        match r {
            Option::Some((a2, j)) => parse_axes(s@, i as int, a@, fuel as nat) == Option::Some(
                (a2@, j as int),
            ) && j <= s@.len(),
            Option::None => parse_axes(s@, i as int, a@, fuel as nat) is None,
        },
    decreases fuel,
{
    match exec_parse_axis_member(s, i, a) {
        None => None,
        Some((a2, j)) => {
            let k = exec_skip_ws(s, j);
            if k < s.len() && s[k] == ',' {
                if fuel == 0 {
                    None
                } else {
                    exec_parse_axes(s, k + 1, a2, fuel - 1)
                }
            } else {
                Some((a2, k))
            }
        },
    }
}

/// A `cube_size` value starting at `i`: an object whose members give each of
/// the three dimensions exactly once, in any order.
pub open spec fn parse_cube_size_value(s: Seq<char>, i: int) -> Option<(CubeSizeView, int)> {
    if 0 <= i && i < s.len() && s[i] == '{' {
        match parse_axes(s, i + 1, AxesView { x: Option::None, y: Option::None, z: Option::None },
            2) {
            Option::None => Option::None,
            Option::Some((a, j)) => {
                if 0 <= j && j < s.len() && s[j] == '}' {
                    match (a.x, a.y, a.z) {
                        (Option::Some(x), Option::Some(y), Option::Some(z)) => Option::Some(
                            (CubeSizeView { x, y, z }, j + 1),
                        ),
                        _ => Option::None,
                    }
                } else {
                    Option::None
                }
            },
        }
    } else {
        Option::None
    }
}

fn exec_parse_cube_size_value(s: &[char], i: usize) -> (r: Option<(CubeSize, usize)>)
    requires
        i <= s@.len(),
    ensures
        match r {
            Option::Some((c, j)) => parse_cube_size_value(s@, i as int) == Option::Some(
                (c@, j as int),
            ) && j <= s@.len(),
            Option::None => parse_cube_size_value(s@, i as int) is None,
        },
{
    if i < s.len() && s[i] == '{' {
        match exec_parse_axes(s, i + 1, Axes { x: None, y: None, z: None }, 2) {
            None => None,
            Some((a, j)) => {
                if j < s.len() && s[j] == '}' {
                    match (a.x, a.y, a.z) {
                        (Some(x), Some(y), Some(z)) => Some((CubeSize { x, y, z }, j + 1)),
                        _ => None,
                    }
                } else {
                    None
                }
            },
        }
    } else {
        None
    }
}

/// The payload fields gathered so far while reading the top-level object.
pub ghost struct FieldsView {
    pub collider: Option<BCollider>,
    pub rigid_body: Option<BRigidBody>,
    pub cube_size: Option<CubeSizeView>,
}

struct Fields {
    collider: Option<BCollider>,
    rigid_body: Option<BRigidBody>,
    cube_size: Option<CubeSize>,
}

impl View for Fields {
    type V = FieldsView;

    closed spec fn view(&self) -> FieldsView {
        FieldsView {
            collider: self.collider,
            rigid_body: self.rigid_body,
            cube_size: cube_size_view(self.cube_size),
        }
    }
}

/// One top-level member starting (after whitespace) at `i`: its value joins
/// `f`, and the result carries the index just past the value. `None` on an
/// unknown key, a repeated key, or a malformed value.
pub open spec fn parse_field_member(s: Seq<char>, i: int, f: FieldsView) -> Option<
    (FieldsView, int),
> {
    let j = skip_ws(s, i);
    if lit_at(s, j, kw_collider()) {
        if f.collider is Some {
            Option::None
        } else {
            match after_key_colon(s, j + kw_collider().len()) {
                Option::None => Option::None,
                Option::Some(k) => match parse_collider_value(s, k) {
                    Option::None => Option::None,
                    Option::Some((c, e)) => Option::Some(
                        (FieldsView { collider: Option::Some(c), ..f }, e),
                    ),
                },
            }
        }
    } else if lit_at(s, j, kw_rigid_body()) {
        if f.rigid_body is Some {
            Option::None
        } else {
            match after_key_colon(s, j + kw_rigid_body().len()) {
                Option::None => Option::None,
                Option::Some(k) => match parse_rigid_body_value(s, k) {
                    Option::None => Option::None,
                    Option::Some((b, e)) => Option::Some(
                        (FieldsView { rigid_body: Option::Some(b), ..f }, e),
                    ),
                },
            }
        }
    } else if lit_at(s, j, kw_cube_size()) {
        if f.cube_size is Some {
            Option::None
        } else {
            match after_key_colon(s, j + kw_cube_size().len()) {
                Option::None => Option::None,
                Option::Some(k) => match parse_cube_size_value(s, k) {
                    Option::None => Option::None,
                    Option::Some((c, e)) => Option::Some(
                        (FieldsView { cube_size: Option::Some(c), ..f }, e),
                    ),
                },
            }
        }
    } else {
        Option::None
    }
}

#[verifier::rlimit(30)]
fn exec_parse_field_member(s: &[char], i: usize, f: Fields) -> (r: Option<(Fields, usize)>)
    requires
        i <= s@.len(),
    ensures
        match r {
            Option::Some((f2, j)) => parse_field_member(s@, i as int, f@) == Option::Some(
                (f2@, j as int),
            ) && j <= s@.len(),
            Option::None => parse_field_member(s@, i as int, f@) is None,
        },
{
    // binds s@.len() to a usize, which bounds the key-end arithmetic below
    let _n = s.len();
    let j = exec_skip_ws(s, i);
    if match_kw_collider(s, j) {
        proof {
            assert(kw_collider().len() == 10);
        }
        if f.collider.is_some() {
            None
        } else {
            match exec_after_key_colon(s, j + 10) {
                None => None,
                Some(k) => match exec_parse_collider_value(s, k) {
                    None => None,
                    Some((c, e)) => Some((Fields { collider: Some(c), ..f }, e)),
                },
            }
        }
    } else if match_kw_rigid_body(s, j) {
        proof {
            assert(kw_rigid_body().len() == 12);
        }
        if f.rigid_body.is_some() {
            None
        } else {
            match exec_after_key_colon(s, j + 12) {
                None => None,
                Some(k) => match exec_parse_rigid_body_value(s, k) {
                    None => None,
                    Some((b, e)) => Some((Fields { rigid_body: Some(b), ..f }, e)),
                },
            }
        }
    } else if match_kw_cube_size(s, j) {
        proof {
            assert(kw_cube_size().len() == 11);
        }
        if f.cube_size.is_some() {
            None
        } else {
            match exec_after_key_colon(s, j + 11) {
                None => None,
                Some(k) => match exec_parse_cube_size_value(s, k) {
                    None => None,
                    Some((c, e)) => Some((Fields { cube_size: Some(c), ..f }, e)),
                },
            }
        }
    } else {
        None
    }
}

/// A comma-separated run of top-level members starting at `i`, gathered into
/// `f`; the result's index sits on the character after the run's trailing
/// whitespace. `fuel` bounds the commas taken; the payload needs at most two.
pub open spec fn parse_fields(s: Seq<char>, i: int, f: FieldsView, fuel: nat) -> Option<
    (FieldsView, int),
>
    decreases fuel,
{
    match parse_field_member(s, i, f) {
        Option::None => Option::None,
        Option::Some((f2, j)) => {
            let k = skip_ws(s, j);
            if 0 <= k && k < s.len() && s[k] == ',' {
                if fuel == 0 {
                    Option::None
                } else {
                    parse_fields(s, k + 1, f2, (fuel - 1) as nat)
                }
            } else {
                Option::Some((f2, k))
            }
        },
    }
}

fn exec_parse_fields(s: &[char], i: usize, f: Fields, fuel: u8) -> (r: Option<(Fields, usize)>)
    requires
        i <= s@.len(),
    ensures
        match r {
            Option::Some((f2, j)) => parse_fields(s@, i as int, f@, fuel as nat) == Option::Some(
                (f2@, j as int),
            ) && j <= s@.len(),
            Option::None => parse_fields(s@, i as int, f@, fuel as nat) is None,
        },
    decreases fuel,
{
    match exec_parse_field_member(s, i, f) {
        None => None,
        Some((f2, j)) => {
            let k = exec_skip_ws(s, j);
            if k < s.len() && s[k] == ',' {
                if fuel == 0 {
                    None
                } else {
                    exec_parse_fields(s, k + 1, f2, fuel - 1)
                }
            } else {
                Some((f2, k))
            }
        },
    }
}

// ---------------------------------------------------------------------------
// The whole payload.
// ---------------------------------------------------------------------------

/// The metadata a payload decodes to, or `None` when the text is malformed:
/// not a single object of known, unrepeated members with the `collider` and
/// `rigid_body` members present.
pub open spec fn spec_decode(s: Seq<char>) -> Option<MeshExtrasView> {
    let i = skip_ws(s, 0);
    if 0 <= i && i < s.len() && s[i] == '{' {
        match parse_fields(
            s,
            i + 1,
            FieldsView { collider: Option::None, rigid_body: Option::None, cube_size: Option::None },
            2,
        ) {
            Option::None => Option::None,
            Option::Some((f, j)) => {
                if 0 <= j && j < s.len() && s[j] == '}' && skip_ws(s, j + 1) == s.len() {
                    match (f.collider, f.rigid_body) {
                        (Option::Some(c), Option::Some(b)) => Option::Some(
                            MeshExtrasView { collider: c, rigid_body: b, cube_size: f.cube_size },
                        ),
                        _ => Option::None,
                    }
                } else {
                    Option::None
                }
            },
        }
    } else {
        Option::None
    }
}

/// Decodes one node's metadata text. Returns the decoded metadata exactly
/// when the text matches the payload grammar (`spec_decode`), and
/// `DecodeError` otherwise.
pub fn decode_mesh_extras(metadata: &str) -> (r: Result<BMeshExtras, DecodeError>)
    ensures
        match r {
            Result::Ok(e) => spec_decode(metadata@) == Option::Some(e@),
            Result::Err(_) => spec_decode(metadata@) is None,
        },
{
    let chars = chars_of(metadata);
    let s = chars.as_slice();
    let i = exec_skip_ws(s, 0);
    if !(i < s.len() && s[i] == '{') {
        return Err(DecodeError);
    }
    match exec_parse_fields(s, i + 1, Fields { collider: None, rigid_body: None, cube_size: None },
        2) {
        None => Err(DecodeError),
        Some((f, j)) => {
            if j < s.len() && s[j] == '}' && exec_skip_ws(s, j + 1) == s.len() {
                match (f.collider, f.rigid_body) {
                    (Some(c), Some(b)) => Ok(
                        BMeshExtras { collider: c, rigid_body: b, cube_size: f.cube_size },
                    ),
                    _ => Err(DecodeError),
                }
            } else {
                Err(DecodeError)
            }
        },
    }
}

// ---------------------------------------------------------------------------
// Well-formedness of decoded tokens: every dimension a payload decodes to is
// a whole JSON number token, so a host can hand it to a numeric parser as it
// stands.
// ---------------------------------------------------------------------------

/// Every dimension gathered so far is a whole number token.
spec fn axes_wf(a: AxesView) -> bool {
    &&& (a.x is Some ==> is_number_token(a.x->0))
    &&& (a.y is Some ==> is_number_token(a.y->0))
    &&& (a.z is Some ==> is_number_token(a.z->0))
}

/// Every dimension is a whole number token.
spec fn cube_size_wf(c: CubeSizeView) -> bool {
    is_number_token(c.x) && is_number_token(c.y) && is_number_token(c.z)
}

proof fn lemma_after_key_colon_range(s: Seq<char>, i: int)
    requires
        0 <= i <= s.len(),
        after_key_colon(s, i) is Some,
    ensures
        0 <= after_key_colon(s, i)->Some_0 <= s.len(),
{
    lemma_skip_ws_range(s, i);
    let j = skip_ws(s, i);
    if j < s.len() && s[j] == ':' {
        lemma_skip_ws_range(s, j + 1);
    }
}

proof fn lemma_parse_axis_member_wf(s: Seq<char>, i: int, a: AxesView, a2: AxesView, j: int)
    requires
        0 <= i <= s.len(),
        axes_wf(a),
        parse_axis_member(s, i, a) == Option::Some((a2, j)),
    ensures
        axes_wf(a2),
{
    let p = skip_ws(s, i);
    lemma_skip_ws_range(s, i);
    if lit_at(s, p, kw_x()) && a.x is None {
        let k = after_key_colon(s, p + kw_x().len())->Some_0;
        lemma_after_key_colon_range(s, p + kw_x().len());
        lemma_number_end_shift(s, k, number_end(s, k)->Some_0);
    } else if lit_at(s, p, kw_y()) && a.y is None {
        let k = after_key_colon(s, p + kw_y().len())->Some_0;
        lemma_after_key_colon_range(s, p + kw_y().len());
        lemma_number_end_shift(s, k, number_end(s, k)->Some_0);
    } else if lit_at(s, p, kw_z()) && a.z is None {
        let k = after_key_colon(s, p + kw_z().len())->Some_0;
        lemma_after_key_colon_range(s, p + kw_z().len());
        lemma_number_end_shift(s, k, number_end(s, k)->Some_0);
    }
}

proof fn lemma_parse_axes_wf(s: Seq<char>, i: int, a: AxesView, a2: AxesView, j: int, fuel: nat)
    requires
        0 <= i <= s.len(),
        axes_wf(a),
        parse_axes(s, i, a, fuel) == Option::Some((a2, j)),
    ensures
        axes_wf(a2),
    decreases fuel,
{
    let step = parse_axis_member(s, i, a)->Some_0;
    lemma_parse_axis_member_wf(s, i, a, step.0, step.1);
    let k = skip_ws(s, step.1);
    if 0 <= k && k < s.len() && s[k] == ',' {
        lemma_parse_axes_wf(s, k + 1, step.0, a2, j, (fuel - 1) as nat);
    }
}

proof fn lemma_parse_cube_size_wf(s: Seq<char>, i: int, c: CubeSizeView, j: int)
    requires
        0 <= i <= s.len(),
        parse_cube_size_value(s, i) == Option::Some((c, j)),
    ensures
        cube_size_wf(c),
{
    let none = AxesView { x: Option::None, y: Option::None, z: Option::None };
    let step = parse_axes(s, i + 1, none, 2)->Some_0;
    lemma_parse_axes_wf(s, i + 1, none, step.0, step.1, 2);
}

/// Every `cube_size` gathered so far holds whole number tokens.
spec fn fields_wf(f: FieldsView) -> bool {
    f.cube_size is Some ==> cube_size_wf(f.cube_size->0)
}

proof fn lemma_parse_field_member_wf(s: Seq<char>, i: int, f: FieldsView, f2: FieldsView, j: int)
    requires
        0 <= i <= s.len(),
        fields_wf(f),
        parse_field_member(s, i, f) == Option::Some((f2, j)),
    ensures
        fields_wf(f2),
{
    let p = skip_ws(s, i);
    lemma_skip_ws_range(s, i);
    if lit_at(s, p, kw_cube_size()) && f.cube_size is None {
        let k = after_key_colon(s, p + kw_cube_size().len())->Some_0;
        lemma_after_key_colon_range(s, p + kw_cube_size().len());
        let step = parse_cube_size_value(s, k)->Some_0;
        lemma_parse_cube_size_wf(s, k, step.0, step.1);
    }
}

proof fn lemma_parse_fields_wf(
    s: Seq<char>,
    i: int,
    f: FieldsView,
    f2: FieldsView,
    j: int,
    fuel: nat,
)
    requires
        0 <= i <= s.len(),
        fields_wf(f),
        parse_fields(s, i, f, fuel) == Option::Some((f2, j)),
    ensures
        fields_wf(f2),
    decreases fuel,
{
    let step = parse_field_member(s, i, f)->Some_0;
    lemma_parse_field_member_wf(s, i, f, step.0, step.1);
    let k = skip_ws(s, step.1);
    if 0 <= k && k < s.len() && s[k] == ',' {
        lemma_parse_fields_wf(s, k + 1, step.0, f2, j, (fuel - 1) as nat);
    }
}

/// Every dimension of a decoded `cube_size` is a whole JSON number token:
/// what `decode_mesh_extras` hands out can go to a numeric parser as it
/// stands.
pub proof fn lemma_decoded_size_tokens(s: Seq<char>, e: MeshExtrasView, c: CubeSizeView)
    requires
        spec_decode(s) == Option::Some(e),
        e.cube_size == Option::Some(c),
    ensures
        is_number_token(c.x),
        is_number_token(c.y),
        is_number_token(c.z),
{
    let i = skip_ws(s, 0);
    lemma_skip_ws_range(s, 0);
    let none = FieldsView {
        collider: Option::None,
        rigid_body: Option::None,
        cube_size: Option::None,
    };
    let step = parse_fields(s, i + 1, none, 2)->Some_0;
    lemma_parse_fields_wf(s, i + 1, none, step.0, step.1, 2);
}

} // verus!
