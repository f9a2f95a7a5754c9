//! Byte-level text helpers shared by the codec, the router and the
//! configuration parser: ASCII case folding, whitespace trimming and
//! searching inside byte strings.

use vstd::prelude::*;
use vstd::slice::{slice_subrange, slice_to_vec};
use vstd::string::StringSliceAdditionalSpecFns;

verus! {

/// ASCII whitespace as the parsers understand it: space, tab, CR, LF.
pub open spec fn is_ws(b: u8) -> bool {
    b == 32 || b == 9 || b == 13 || b == 10
}

/// Lower-case a single ASCII byte; other bytes are unchanged.
pub open spec fn spec_to_lower(b: u8) -> u8 {
    if 65 <= b <= 90 {
        (b + 32) as u8
    } else {
        b
    }
}

/// Lower-case every byte of a string.
pub open spec fn lower(s: Seq<u8>) -> Seq<u8> {
    s.map_values(|b: u8| spec_to_lower(b))
}

/// Executable ASCII lower-casing of one byte.
pub fn to_lower(b: u8) -> (r: u8)
    ensures
        r == spec_to_lower(b),
{
    if 65 <= b && b <= 90 {
        b + 32
    } else {
        b
    }
}

/// Lower-case a whole byte string.
pub fn lower_bytes(s: &[u8]) -> (r: Vec<u8>)
    ensures
        r@ == lower(s@),
{
    let mut out: Vec<u8> = Vec::new();
    let mut i: usize = 0;
    while i < s.len()
        invariant
            i <= s.len(),
            out@ == lower(s@).subrange(0, i as int),
        decreases s.len() - i,
    {
        out.push(to_lower(s[i]));
        i = i + 1;
        assert(out@ =~= lower(s@).subrange(0, i as int));
    }
    assert(out@ =~= lower(s@));
    out
}

/// Byte-string equality, usable where no specification of `==` on slices
/// is available.
pub fn bytes_eq(a: &[u8], b: &[u8]) -> (r: bool)
    ensures
        r == (a@ == b@),
{
    if a.len() != b.len() {
        assert(a@.len() != b@.len());
        return false;
    }
    let mut i: usize = 0;
    while i < a.len()
        invariant
            i <= a.len(),
            a@.len() == b@.len(),
            forall|j: int| 0 <= j < i ==> a@[j] == b@[j],
        decreases a.len() - i,
    {
        if a[i] != b[i] {
            return false;
        }
        i = i + 1;
    }
    assert(a@ =~= b@);
    true
}

/// Index of the first occurrence of `b` in `s`, or `-1` if absent.
pub open spec fn spec_find(s: Seq<u8>, b: u8) -> int
    decreases s.len(),
{
    if s.len() == 0 {
        -1
    } else if s[0] == b {
        0
    } else {
        let r = spec_find(s.drop_first(), b);
        if r < 0 {
            -1
        } else {
            1 + r
        }
    }
}

/// `spec_find` returns the first index holding `b`.
pub proof fn lemma_spec_find_at(s: Seq<u8>, b: u8, i: int)
    requires
        0 <= i < s.len(),
        s[i] == b,
        forall|j: int| 0 <= j < i ==> s[j] != b,
    ensures
        spec_find(s, b) == i,
    decreases s.len(),
{
    if i > 0 {
        lemma_spec_find_at(s.drop_first(), b, i - 1);
    }
}

/// `spec_find` reports absence as `-1`.
pub proof fn lemma_spec_find_none(s: Seq<u8>, b: u8)
    requires
        forall|j: int| 0 <= j < s.len() ==> s[j] != b,
    ensures
        spec_find(s, b) == -1,
    decreases s.len(),
{
    if s.len() > 0 {
        lemma_spec_find_none(s.drop_first(), b);
    }
}

/// Find the first occurrence of a byte.
pub fn find_byte(s: &[u8], b: u8) -> (r: Option<usize>)
    ensures
        match r {
            Some(i) => spec_find(s@, b) == i && i < s@.len() && s@[i as int] == b,
            None => spec_find(s@, b) == -1,
        },
{
    let mut i: usize = 0;
    while i < s.len()
        invariant
            i <= s.len(),
            forall|j: int| 0 <= j < i ==> s@[j] != b,
        decreases s.len() - i,
    {
        if s[i] == b {
            proof {
                lemma_spec_find_at(s@, b, i as int);
            }
            return Some(i);
        }
        i = i + 1;
    }
    proof {
        lemma_spec_find_none(s@, b);
    }
    None
}

/// Index of the last occurrence of `b` in `s`, or `-1` if absent.
pub open spec fn spec_rfind(s: Seq<u8>, b: u8) -> int
    decreases s.len(),
{
    if s.len() == 0 {
        -1
    } else if s.last() == b {
        s.len() - 1
    } else {
        spec_rfind(s.drop_last(), b)
    }
}

/// `spec_rfind` returns the last index holding `b`.
pub proof fn lemma_spec_rfind_at(s: Seq<u8>, b: u8, i: int)
    requires
        0 <= i < s.len(),
        s[i] == b,
        forall|j: int| i < j < s.len() ==> s[j] != b,
    ensures
        spec_rfind(s, b) == i,
    decreases s.len(),
{
    if i < s.len() - 1 {
        assert(s.drop_last()[i] == s[i]);
        lemma_spec_rfind_at(s.drop_last(), b, i);
    }
}

/// `spec_rfind` reports absence as `-1`.
pub proof fn lemma_spec_rfind_none(s: Seq<u8>, b: u8)
    requires
        forall|j: int| 0 <= j < s.len() ==> s[j] != b,
    ensures
        spec_rfind(s, b) == -1,
    decreases s.len(),
{
    if s.len() > 0 {
        lemma_spec_rfind_none(s.drop_last(), b);
    }
}

/// Basic bounds of `spec_rfind`: a hit is in range and holds `b`.
pub proof fn lemma_spec_rfind_range(s: Seq<u8>, b: u8)
    ensures
        spec_rfind(s, b) >= 0 ==> spec_rfind(s, b) < s.len() && s[spec_rfind(s, b)] == b,
        -1 <= spec_rfind(s, b),
    decreases s.len(),
{
    if s.len() > 0 && s.last() != b {
        lemma_spec_rfind_range(s.drop_last(), b);
        if spec_rfind(s, b) >= 0 {
            assert(s.drop_last()[spec_rfind(s, b)] == s[spec_rfind(s, b)]);
        }
    }
}

/// Find the last occurrence of a byte.
pub fn rfind_byte(s: &[u8], b: u8) -> (r: Option<usize>)
    ensures
        match r {
            Some(i) => spec_rfind(s@, b) == i && i < s@.len() && s@[i as int] == b,
            None => spec_rfind(s@, b) == -1,
        },
{
    let mut i: usize = s.len();
    while i > 0
        invariant
            i <= s.len(),
            forall|j: int| i <= j < s.len() ==> s@[j] != b,
        decreases i,
    {
        i = i - 1;
        if s[i] == b {
            proof {
                lemma_spec_rfind_at(s@, b, i as int);
            }
            return Some(i);
        }
    }
    proof {
        lemma_spec_rfind_none(s@, b);
    }
    None
}

/// Drop leading ASCII whitespace.
pub open spec fn spec_trim_start(s: Seq<u8>) -> Seq<u8>
    decreases s.len(),
{
    if s.len() > 0 && is_ws(s[0]) {
        spec_trim_start(s.drop_first())
    } else {
        s
    }
}

/// Drop trailing ASCII whitespace.
pub open spec fn spec_trim_end(s: Seq<u8>) -> Seq<u8>
    decreases s.len(),
{
    if s.len() > 0 && is_ws(s.last()) {
        spec_trim_end(s.drop_last())
    } else {
        s
    }
}

/// Drop whitespace from both ends.
pub open spec fn spec_trim(s: Seq<u8>) -> Seq<u8> {
    spec_trim_end(spec_trim_start(s))
}

proof fn lemma_trim_start_skip(s: Seq<u8>, a: int)
    requires
        0 <= a <= s.len(),
        forall|j: int| 0 <= j < a ==> is_ws(s[j]),
        a < s.len() ==> !is_ws(s[a]),
    ensures
        spec_trim_start(s) == s.skip(a),
    decreases a,
{
    if a == 0 {
        assert(s.skip(0) =~= s);
    } else {
        lemma_trim_start_skip(s.drop_first(), a - 1);
        assert(s.drop_first().skip(a - 1) =~= s.skip(a));
    }
}

proof fn lemma_trim_end_take(s: Seq<u8>, b: int)
    requires
        0 <= b <= s.len(),
        forall|j: int| b <= j < s.len() ==> is_ws(s[j]),
        b > 0 ==> !is_ws(s[b - 1]),
    ensures
        spec_trim_end(s) == s.take(b),
    decreases s.len() - b,
{
    if b == s.len() {
        assert(s.take(b) =~= s);
    } else {
        lemma_trim_end_take(s.drop_last(), b);
        assert(s.drop_last().take(b) =~= s.take(b));
    }
}

/// Copy `s` with ASCII whitespace removed from both ends.
pub fn trim(s: &[u8]) -> (r: Vec<u8>)
    ensures
        r@ == spec_trim(s@),
{
    let mut a: usize = 0;
    while a < s.len() && (s[a] == 32 || s[a] == 9 || s[a] == 13 || s[a] == 10)
        invariant
            a <= s.len(),
            forall|j: int| 0 <= j < a ==> is_ws(s@[j]),
        decreases s.len() - a,
    {
        a = a + 1;
    }
    proof {
        lemma_trim_start_skip(s@, a as int);
    }
    let mut b: usize = s.len();
    while b > a && (s[b - 1] == 32 || s[b - 1] == 9 || s[b - 1] == 13 || s[b - 1] == 10)
        invariant
            a <= b <= s.len(),
            forall|j: int| b <= j < s.len() ==> is_ws(s@[j]),
            spec_trim_start(s@) == s@.skip(a as int),
            a < s@.len() ==> !is_ws(s@[a as int]),
        decreases b,
    {
        b = b - 1;
    }
    proof {
        let st = s@.skip(a as int);
        lemma_trim_end_take(st, b - a);
        assert(st.take(b - a) =~= s@.subrange(a as int, b as int));
    }
    vstd::slice::slice_to_vec(vstd::slice::slice_subrange(s, a, b))
}

/// Drop every leading occurrence of `b`.
pub open spec fn spec_trim_start_b(s: Seq<u8>, b: u8) -> Seq<u8>
    decreases s.len(),
{
    if s.len() > 0 && s[0] == b {
        spec_trim_start_b(s.drop_first(), b)
    } else {
        s
    }
}

/// Drop every trailing occurrence of `b`.
pub open spec fn spec_trim_end_b(s: Seq<u8>, b: u8) -> Seq<u8>
    decreases s.len(),
{
    if s.len() > 0 && s.last() == b {
        spec_trim_end_b(s.drop_last(), b)
    } else {
        s
    }
}

/// Drop every occurrence of `b` from both ends.
pub open spec fn spec_trim_b(s: Seq<u8>, b: u8) -> Seq<u8> {
    spec_trim_end_b(spec_trim_start_b(s, b), b)
}

proof fn lemma_trim_start_b_skip(s: Seq<u8>, b: u8, a: int)
    requires
        0 <= a <= s.len(),
        forall|j: int| 0 <= j < a ==> s[j] == b,
        a < s.len() ==> s[a] != b,
    ensures
        spec_trim_start_b(s, b) == s.skip(a),
    decreases a,
{
    if a == 0 {
        assert(s.skip(0) =~= s);
    } else {
        lemma_trim_start_b_skip(s.drop_first(), b, a - 1);
        assert(s.drop_first().skip(a - 1) =~= s.skip(a));
    }
}

proof fn lemma_trim_end_b_take(s: Seq<u8>, b: u8, e: int)
    requires
        0 <= e <= s.len(),
        forall|j: int| e <= j < s.len() ==> s[j] == b,
        e > 0 ==> s[e - 1] != b,
    ensures
        spec_trim_end_b(s, b) == s.take(e),
    decreases s.len() - e,
{
    if e == s.len() {
        assert(s.take(e) =~= s);
    } else {
        lemma_trim_end_b_take(s.drop_last(), b, e);
        assert(s.drop_last().take(e) =~= s.take(e));
    }
}

/// Copy `s` with every occurrence of `b` removed from both ends.
pub fn trim_matching(s: &[u8], b: u8) -> (r: Vec<u8>)
    ensures
        r@ == spec_trim_b(s@, b),
{
    let mut a: usize = 0;
    while a < s.len() && s[a] == b
        invariant
            a <= s.len(),
            forall|j: int| 0 <= j < a ==> s@[j] == b,
        decreases s.len() - a,
    {
        a = a + 1;
    }
    proof {
        lemma_trim_start_b_skip(s@, b, a as int);
    }
    let mut e: usize = s.len();
    while e > a && s[e - 1] == b
        invariant
            a <= e <= s.len(),
            forall|j: int| e <= j < s.len() ==> s@[j] == b,
            spec_trim_start_b(s@, b) == s@.skip(a as int),
            a < s@.len() ==> s@[a as int] != b,
        decreases e,
    {
        e = e - 1;
    }
    proof {
        let st = s@.skip(a as int);
        lemma_trim_end_b_take(st, b, e - a);
        assert(st.take(e - a) =~= s@.subrange(a as int, e as int));
    }
    slice_to_vec(slice_subrange(s, a, e))
}

/// The decimal digits of `n`, most significant first.
pub open spec fn spec_decimal(n: nat) -> Seq<u8>
    decreases n,
{
    if n < 10 {
        seq![(48 + n) as u8]
    } else {
        spec_decimal(n / 10).push((48 + n % 10) as u8)
    }
}

/// Render a number in decimal.
pub fn usize_to_decimal(n: usize) -> (r: Vec<u8>)
    ensures
        r@ == spec_decimal(n as nat),
    decreases n,
{
    if n < 10 {
        let mut out: Vec<u8> = Vec::new();
        out.push(48 + (n as u8));
        assert(out@ =~= spec_decimal(n as nat));
        out
    } else {
        let mut out = usize_to_decimal(n / 10);
        out.push(48 + ((n % 10) as u8));
        out
    }
}

/// Drop one carriage return from the end of a line, if present.
pub open spec fn strip_cr(l: Seq<u8>) -> Seq<u8> {
    if l.len() > 0 && l.last() == 13 {
        l.drop_last()
    } else {
        l
    }
}

/// Split text into lines at each LF, dropping one CR before the LF; a
/// last line without a terminator is kept, and a trailing terminator
/// adds no empty line.
pub open spec fn spec_lines(s: Seq<u8>) -> Seq<Seq<u8>>
    decreases s.len(),
{
    if s.len() == 0 {
        Seq::<Seq<u8>>::empty()
    } else {
        let i = spec_find(s, 10);
        if i < 0 || i >= s.len() {
            seq![s]
        } else {
            seq![strip_cr(s.take(i))] + spec_lines(s.skip(i + 1))
        }
    }
}

/// Split `s` at every occurrence of `b`; `n` separators give `n + 1`
/// (possibly empty) tokens.
pub open spec fn spec_split(s: Seq<u8>, b: u8) -> Seq<Seq<u8>>
    decreases s.len(),
{
    let i = spec_find(s, b);
    if i < 0 || i >= s.len() {
        seq![s]
    } else {
        seq![s.take(i)] + spec_split(s.skip(i + 1), b)
    }
}

/// Split text into lines, as `spec_lines` describes.
pub fn split_lines(s: &[u8]) -> (r: Vec<Vec<u8>>)
    ensures
        r@.map_values(|v: Vec<u8>| v@) == spec_lines(s@),
{
    let mut out: Vec<Vec<u8>> = Vec::new();
    let mut pos: usize = 0;
    proof {
        assert(s@.skip(0) =~= s@);
        assert(out@.map_values(|v: Vec<u8>| v@) + spec_lines(s@) =~~= spec_lines(s@));
    }
    while pos < s.len()
        invariant
            pos <= s.len(),
            spec_lines(s@) == out@.map_values(|v: Vec<u8>| v@) + spec_lines(s@.skip(pos as int)),
        decreases s.len() - pos,
    {
        let ghost prev = out@.map_values(|v: Vec<u8>| v@);
        let rest = slice_subrange(s, pos, s.len());
        match find_byte(rest, 10) {
            None => {
                out.push(slice_to_vec(rest));
                proof {
                    assert(spec_lines(rest@) =~~= seq![rest@]);
                    assert(out@.map_values(|v: Vec<u8>| v@) =~~= prev + seq![rest@]);
                    assert(s@.skip(s@.len() as int) =~= Seq::<u8>::empty());
                    assert(prev + seq![rest@] + spec_lines(Seq::<u8>::empty()) =~~= prev + seq![
                        rest@,
                    ]);
                }
                pos = s.len();
            },
            Some(i) => {
                let mut end = i;
                if end > 0 && rest[end - 1] == 13 {
                    end = end - 1;
                }
                out.push(slice_to_vec(slice_subrange(rest, 0, end)));
                proof {
                    assert(strip_cr(rest@.take(i as int)) =~= rest@.subrange(0, end as int));
                    assert(spec_lines(rest@) =~~= seq![rest@.subrange(0, end as int)] + spec_lines(
                        rest@.skip(i + 1),
                    ));
                    assert(rest@.skip(i + 1) =~= s@.skip(pos + i + 1));
                    assert(out@.map_values(|v: Vec<u8>| v@) =~~= prev + seq![
                        rest@.subrange(0, end as int),
                    ]);
                }
                pos = pos + i + 1;
            },
        }
    }
    proof {
        assert(s@.skip(pos as int) =~= Seq::<u8>::empty());
        assert(out@.map_values(|v: Vec<u8>| v@) + spec_lines(Seq::<u8>::empty()) =~~= out@.map_values(
            |v: Vec<u8>| v@,
        ));
    }
    out
}

/// Split at every occurrence of `b`, as `spec_split` describes.
pub fn split_on(s: &[u8], b: u8) -> (r: Vec<Vec<u8>>)
    ensures
        r@.map_values(|v: Vec<u8>| v@) == spec_split(s@, b),
        r@.len() >= 1,
{
    let mut out: Vec<Vec<u8>> = Vec::new();
    let mut pos: usize = 0;
    let mut done = false;
    proof {
        assert(s@.skip(0) =~= s@);
        assert(out@.map_values(|v: Vec<u8>| v@) + spec_split(s@, b) =~~= spec_split(s@, b));
    }
    while !done
        invariant
            pos <= s.len(),
            !done ==> spec_split(s@, b) == out@.map_values(|v: Vec<u8>| v@) + spec_split(
                s@.skip(pos as int),
                b,
            ),
            done ==> spec_split(s@, b) == out@.map_values(|v: Vec<u8>| v@) && out@.len() >= 1,
        decreases s.len() - pos + (if done {
            0int
        } else {
            1int
        }),
    {
        let ghost prev = out@.map_values(|v: Vec<u8>| v@);
        let rest = slice_subrange(s, pos, s.len());
        match find_byte(rest, b) {
            None => {
                out.push(slice_to_vec(rest));
                proof {
                    assert(spec_split(rest@, b) =~~= seq![rest@]);
                    assert(out@.map_values(|v: Vec<u8>| v@) =~~= prev + seq![rest@]);
                }
                done = true;
            },
            Some(i) => {
                out.push(slice_to_vec(slice_subrange(rest, 0, i)));
                proof {
                    assert(spec_split(rest@, b) =~~= seq![rest@.take(i as int)] + spec_split(
                        rest@.skip(i + 1),
                        b,
                    ));
                    assert(rest@.skip(i + 1) =~= s@.skip(pos + i + 1));
                    assert(out@.map_values(|v: Vec<u8>| v@) =~~= prev + seq![rest@.take(i as int)]);
                }
                pos = pos + i + 1;
            },
        }
    }
    out
}

/// String equality through the byte encoding.
pub fn str_eq(a: &str, b: &str) -> (r: bool)
    ensures
        r == (a@ == b@),
{
    let r = bytes_eq(a.as_bytes(), b.as_bytes());
    proof {
        vstd::utf8::encode_utf8_decode_utf8(a@);
        vstd::utf8::encode_utf8_decode_utf8(b@);
    }
    r
}

/// Does the byte string `a` spell exactly the text `s`?
pub fn bytes_is(a: &[u8], s: &str) -> (r: bool)
    ensures
        r == (a@ == s.spec_bytes()),
{
    bytes_eq(a, s.as_bytes())
}

} // verus!
