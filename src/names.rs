//! Byte-string names (kernel and symbol names) and small sets of them.
use vstd::prelude::*;

verus! {

/// The byte strings held by a vector of names.
pub open spec fn names_view(v: Seq<Vec<u8>>) -> Seq<Seq<u8>> {
    v.map_values(|k: Vec<u8>| k@)
}

/// Whether the two name collections have a name in common.
pub open spec fn shares_name(a: Seq<Seq<u8>>, b: Seq<Seq<u8>>) -> bool {
    exists|x: int, y: int| 0 <= x < a.len() && 0 <= y < b.len() && a[x] == b[y]
}

/// Whether the bytes of `a` and `b` are the same.
pub fn bytes_eq(a: &[u8], b: &[u8]) -> (r: bool)
    ensures
        r == (a@ == b@),
{
    if a.len() != b.len() {
        return false;
    }
    let mut i: usize = 0;
    while i < a.len()
        invariant
            a@.len() == b@.len(),
            i <= a@.len(),
            forall|k: int| 0 <= k < i ==> a@[k] == b@[k],
        decreases a@.len() - i,
    {
        if a[i] != b[i] {
            return false;
        }
        i = i + 1;
    }
    assert(a@ =~= b@);
    true
}

/// Whether `name` is one of `names`.
pub fn has_name(names: &Vec<Vec<u8>>, name: &[u8]) -> (r: bool)
    ensures
        r == names_view(names@).contains(name@),
{
    let mut i: usize = 0;
    while i < names.len()
        invariant
            i <= names@.len(),
            forall|k: int| 0 <= k < i ==> names@[k]@ != name@,
        decreases names@.len() - i,
    {
        if bytes_eq(names[i].as_slice(), name) {
            assert(names_view(names@)[i as int] == name@);
            return true;
        }
        i = i + 1;
    }
    assert(!names_view(names@).contains(name@)) by {
        if names_view(names@).contains(name@) {
            let k = choose|k: int| 0 <= k < names@.len() && names_view(names@)[k] == name@;
            assert(names@[k]@ == name@);
        }
    }
    false
}

/// Whether `a` and `b` have a name in common.
pub fn shares_name_exec(a: &Vec<Vec<u8>>, b: &Vec<Vec<u8>>) -> (r: bool)
    ensures
        r == shares_name(names_view(a@), names_view(b@)),
{
    let mut i: usize = 0;
    while i < a.len()
        invariant
            i <= a@.len(),
            forall|x: int, y: int| 0 <= x < i && 0 <= y < b@.len() ==> a@[x]@ != b@[y]@,
        decreases a@.len() - i,
    {
        if has_name(b, a[i].as_slice()) {
            let ghost y = choose|y: int| 0 <= y < b@.len() && names_view(b@)[y] == a@[i as int]@;
            assert(names_view(a@)[i as int] == names_view(b@)[y]);
            return true;
        }
        assert forall|y: int| 0 <= y < b@.len() implies b@[y]@ != a@[i as int]@ by {
            assert(names_view(b@)[y] == b@[y]@);
        }
        i = i + 1;
    }
    assert(!shares_name(names_view(a@), names_view(b@))) by {
        if shares_name(names_view(a@), names_view(b@)) {
            let (x, y) = choose|x: int, y: int|
                0 <= x < a@.len() && 0 <= y < b@.len() && names_view(a@)[x] == names_view(b@)[y];
            assert(a@[x]@ == b@[y]@);
        }
    }
    false
}

/// Adds `x` to `v` unless it is there already.
pub fn insert_name(v: &mut Vec<Vec<u8>>, x: Vec<u8>)
    requires
        names_view(old(v)@).no_duplicates(),
    ensures
        names_view(final(v)@).no_duplicates(),
        forall|k: Seq<u8>|
            names_view(final(v)@).contains(k) <==> (names_view(old(v)@).contains(k) || k == x@),
{
    if !has_name(v, x.as_slice()) {
        let ghost before = names_view(v@);
        let ghost xv = x@;
        v.push(x);
        assert(names_view(v@) =~= before.push(xv));
        assert forall|k: Seq<u8>| names_view(v@).contains(k) <==> (before.contains(k) || k == xv) by {
            if before.contains(k) {
                let i = choose|i: int| 0 <= i < before.len() && before[i] == k;
                assert(names_view(v@)[i] == k);
            }
            if k == xv {
                assert(names_view(v@)[before.len() as int] == k);
            }
            if names_view(v@).contains(k) && k != xv {
                let i = choose|i: int| 0 <= i < names_view(v@).len() && names_view(v@)[i] == k;
                assert(before[i] == k);
            }
        }
    }
}

} // verus!
