//! Lines, trimming and whitespace-separated fields of byte text.
use vstd::prelude::*;

verus! {

/// ASCII whitespace: space, tab, line feed, vertical tab, form feed, carriage
/// return.
pub open spec fn is_space(b: u8) -> bool {
    b == 0x20 || (0x09 <= b && b <= 0x0d)
}

/// A line without its trailing carriage return, if any.
pub open spec fn strip_cr(l: Seq<u8>) -> Seq<u8> {
    if l.len() > 0 && l.last() == 0x0d {
        l.drop_last()
    } else {
        l
    }
}

/// The lines of `s` from position `i` on, the current one starting at `start`:
/// split at line feeds, each without a trailing carriage return, and no empty
/// line after a final line feed.
pub open spec fn lines_from(s: Seq<u8>, i: int, start: int) -> Seq<Seq<u8>>
    decreases s.len() - i,
{
    if i >= s.len() {
        if start < s.len() {
            seq![strip_cr(s.subrange(start, s.len() as int))]
        } else {
            Seq::empty()
        }
    } else if s[i] == 0x0a {
        seq![strip_cr(s.subrange(start, i))] + lines_from(s, i + 1, i + 1)
    } else {
        lines_from(s, i + 1, start)
    }
}

/// The lines of `s`.
pub open spec fn lines(s: Seq<u8>) -> Seq<Seq<u8>> {
    lines_from(s, 0, 0)
}

/// The whitespace-separated fields of `l` from position `i` on, the current
/// field starting at `start` if there is one.
pub open spec fn fields_from(l: Seq<u8>, i: int, start: Option<int>) -> Seq<Seq<u8>>
    decreases l.len() - i,
{
    if i >= l.len() {
        match start {
            Some(b) => seq![l.subrange(b, l.len() as int)],
            None => Seq::empty(),
        }
    } else if is_space(l[i]) {
        match start {
            Some(b) => seq![l.subrange(b, i)] + fields_from(l, i + 1, None),
            None => fields_from(l, i + 1, None),
        }
    } else {
        match start {
            Some(b) => fields_from(l, i + 1, Some(b)),
            None => fields_from(l, i + 1, Some(i)),
        }
    }
}

/// The whitespace-separated fields of `l`.
pub open spec fn fields(l: Seq<u8>) -> Seq<Seq<u8>> {
    fields_from(l, 0, None)
}

/// Number of leading whitespace bytes of `l` from `i` on.
pub open spec fn trim_start(l: Seq<u8>, i: int) -> int
    decreases l.len() - i,
{
    if i >= l.len() || i < 0 {
        l.len() as int
    } else if is_space(l[i]) {
        trim_start(l, i + 1)
    } else {
        i
    }
}

/// End of `l.subrange(0, j)` without its trailing whitespace.
pub open spec fn trim_end(l: Seq<u8>, j: int) -> int
    decreases j,
{
    if j <= 0 {
        0
    } else if is_space(l[j - 1]) {
        trim_end(l, j - 1)
    } else {
        j
    }
}

/// `l` without leading and trailing whitespace.
pub open spec fn trim(l: Seq<u8>) -> Seq<u8> {
    let a = trim_start(l, 0);
    if a >= l.len() {
        Seq::empty()
    } else {
        l.subrange(a, trim_end(l, l.len() as int))
    }
}

proof fn lemma_trim_end_above(l: Seq<u8>, a: int, j: int)
    requires
        0 <= a < j <= l.len(),
        !is_space(l[a]),
    ensures
        a < trim_end(l, j),
    decreases j,
{
    if is_space(l[j - 1]) {
        lemma_trim_end_above(l, a, j - 1);
    }
}

/// The lines of `s`.
pub fn split_lines(s: &[u8]) -> (r: Vec<Vec<u8>>)
    ensures
        r@.map_values(|v: Vec<u8>| v@) == lines(s@),
{
    let mut out: Vec<Vec<u8>> = Vec::new();
    let mut cur: Vec<u8> = Vec::new();
    let mut start: usize = 0;
    let mut i: usize = 0;
    while i < s.len()
        invariant
            i <= s@.len(),
            start <= i,
            cur@ == s@.subrange(start as int, i as int),
            lines(s@) == out@.map_values(|v: Vec<u8>| v@) + lines_from(s@, i as int, start as int),
        decreases s@.len() - i,
    {
        if s[i] == 0x0a {
            let line = strip_cr_exec(cur);
            let ghost before = out@;
            out.push(line);
            assert(out@.map_values(|v: Vec<u8>| v@) =~= before.map_values(|v: Vec<u8>| v@).push(
                strip_cr(s@.subrange(start as int, i as int)),
            ));
            assert(before.map_values(|v: Vec<u8>| v@) + (seq![
                strip_cr(s@.subrange(start as int, i as int)),
            ] + lines_from(s@, i + 1, i + 1)) =~= out@.map_values(|v: Vec<u8>| v@) + lines_from(
                s@,
                i + 1,
                i + 1,
            ));
            cur = Vec::new();
            start = i + 1;
            assert(cur@ =~= s@.subrange(start as int, i + 1));
        } else {
            cur.push(s[i]);
            assert(cur@ =~= s@.subrange(start as int, i + 1));
        }
        i = i + 1;
    }
    if start < s.len() {
        let line = strip_cr_exec(cur);
        let ghost before = out@;
        out.push(line);
        assert(out@.map_values(|v: Vec<u8>| v@) =~= before.map_values(|v: Vec<u8>| v@) + seq![
            strip_cr(s@.subrange(start as int, s@.len() as int)),
        ]);
    } else {
        assert(out@.map_values(|v: Vec<u8>| v@) + Seq::empty() =~= out@.map_values(
            |v: Vec<u8>| v@,
        ));
    }
    out
}

fn strip_cr_exec(l: Vec<u8>) -> (r: Vec<u8>)
    ensures
        r@ == strip_cr(l@),
{
    let mut l = l;
    if l.len() > 0 && l[l.len() - 1] == 0x0d {
        l.pop();
    }
    l
}

/// Whether `b` is ASCII whitespace.
pub fn is_space_exec(b: u8) -> (r: bool)
    ensures
        r == is_space(b),
{
    b == 0x20 || (0x09 <= b && b <= 0x0d)
}

/// The whitespace-separated fields of `l`.
pub fn split_fields(l: &[u8]) -> (r: Vec<Vec<u8>>)
    ensures
        r@.map_values(|v: Vec<u8>| v@) == fields(l@),
{
    let mut out: Vec<Vec<u8>> = Vec::new();
    let mut cur: Vec<u8> = Vec::new();
    let mut in_field = false;
    let ghost mut start: int = 0;
    let mut i: usize = 0;
    while i < l.len()
        invariant
            i <= l@.len(),
            in_field ==> 0 <= start <= i && cur@ == l@.subrange(start, i as int),
            fields(l@) == out@.map_values(|v: Vec<u8>| v@) + fields_from(
                l@,
                i as int,
                if in_field {
                    Some(start)
                } else {
                    None
                },
            ),
        decreases l@.len() - i,
    {
        if is_space_exec(l[i]) {
            if in_field {
                let ghost before = out@;
                out.push(cur);
                cur = Vec::new();
                in_field = false;
                assert(before.map_values(|v: Vec<u8>| v@) + (seq![l@.subrange(start, i as int)]
                    + fields_from(l@, i + 1, None)) =~= out@.map_values(|v: Vec<u8>| v@)
                    + fields_from(l@, i + 1, None));
            }
        } else {
            if !in_field {
                in_field = true;
                proof {
                    start = i as int;
                }
                cur = Vec::new();
            }
            cur.push(l[i]);
            assert(cur@ =~= l@.subrange(start, i + 1));
        }
        i = i + 1;
    }
    if in_field {
        let ghost before = out@;
        out.push(cur);
        assert(out@.map_values(|v: Vec<u8>| v@) =~= before.map_values(|v: Vec<u8>| v@) + seq![
            l@.subrange(start, l@.len() as int),
        ]);
    } else {
        assert(out@.map_values(|v: Vec<u8>| v@) + Seq::empty() =~= out@.map_values(
            |v: Vec<u8>| v@,
        ));
    }
    out
}

/// `l` without leading and trailing whitespace.
pub fn trim_bytes(l: &[u8]) -> (r: Vec<u8>)
    ensures
        r@ == trim(l@),
{
    let mut a: usize = 0;
    while a < l.len() && is_space_exec(l[a])
        invariant
            a <= l@.len(),
            trim_start(l@, 0) == trim_start(l@, a as int),
        decreases l@.len() - a,
    {
        a = a + 1;
    }
    if a >= l.len() {
        return Vec::new();
    }
    let mut b: usize = l.len();
    while b > a && is_space_exec(l[b - 1])
        invariant
            a < l@.len(),
            !is_space(l@[a as int]),
            a < b <= l@.len(),
            trim_end(l@, l@.len() as int) == trim_end(l@, b as int),
        decreases b,
    {
        b = b - 1;
    }
    proof {
        lemma_trim_end_above(l@, a as int, b as int);
    }
    let mut out: Vec<u8> = Vec::new();
    let mut k: usize = a;
    while k < b
        invariant
            a <= k <= b <= l@.len(),
            out@ == l@.subrange(a as int, k as int),
        decreases b - k,
    {
        out.push(l[k]);
        assert(out@ =~= l@.subrange(a as int, k + 1));
        k = k + 1;
    }
    out
}

} // verus!
