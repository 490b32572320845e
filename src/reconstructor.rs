//! Overwriting of deletable spans in a copy of a shared object.
use vstd::prelude::*;
use crate::locator::ElementSpan;

verus! {

/// The byte written over every deleted span.
pub const FILL_BYTE: u8 = 0x01;

/// Whether byte `i` lies in one of `spans`.
pub open spec fn covered(spans: Seq<ElementSpan>, i: int) -> bool {
    exists|k: int| 0 <= k < spans.len() && #[trigger] spans[k].start <= i < spans[k].end
}

/// Rewrites the copy of a shared object at `dst_so_path`.
pub struct Reconstructor {
    pub dst_so_path: String,
}

impl Reconstructor {
    /// A reconstructor for the copy at `dst_so_path`.
    pub fn new(dst_so_path: String) -> (r: Reconstructor)
        ensures
            r.dst_so_path@ == dst_so_path@,
    {
        Reconstructor { dst_so_path }
    }

    /// Overwrites with `FILL_BYTE` every byte of `so_data`, the contents of the
    /// copy, that lies in one of `spans`; the other bytes and the length stay.
    pub fn rewrite(&self, so_data: &mut Vec<u8>, spans: &[ElementSpan])
        requires
            forall|k: int|
                0 <= k < spans@.len() ==> spans@[k].start <= spans@[k].end && spans@[k].end
                    <= old(so_data)@.len(),
        ensures
            final(so_data)@.len() == old(so_data)@.len(),
            forall|i: int|
                0 <= i < old(so_data)@.len() ==> final(so_data)@[i] == if covered(spans@, i) {
                    FILL_BYTE
                } else {
                    old(so_data)@[i]
                },
    {
        let ghost orig = so_data@;
        let mut k: usize = 0;
        while k < spans.len()
            invariant
                so_data@.len() == orig.len(),
                k <= spans@.len(),
                forall|x: int|
                    0 <= x < spans@.len() ==> spans@[x].start <= spans@[x].end && spans@[x].end
                        <= orig.len(),
                forall|i: int|
                    0 <= i < orig.len() ==> so_data@[i] == if covered(spans@.subrange(0, k as int), i) {
                        FILL_BYTE
                    } else {
                        orig[i]
                    },
            decreases spans@.len() - k,
        {
            let span = spans[k];
            let ghost before = so_data@;
            let mut i: u64 = span.start;
            while i < span.end
                invariant
                    so_data@.len() == orig.len(),
                    before.len() == orig.len(),
                    span.start <= i <= span.end,
                    span.end <= orig.len(),
                    forall|j: int|
                        0 <= j < orig.len() ==> so_data@[j] == if span.start <= j < i {
                            FILL_BYTE
                        } else {
                            before[j]
                        },
                decreases span.end - i,
            {
                assert(i < so_data.len());
                so_data.set(i as usize, FILL_BYTE);
                i = i + 1;
            }
            assert forall|j: int| 0 <= j < orig.len() implies so_data@[j] == if covered(
                spans@.subrange(0, k + 1),
                j,
            ) {
                FILL_BYTE
            } else {
                orig[j]
            } by {
                let pre = spans@.subrange(0, k as int);
                let cur = spans@.subrange(0, k + 1);
                if covered(pre, j) {
                    let x = choose|x: int| 0 <= x < pre.len() && #[trigger] pre[x].start <= j < pre[x].end;
                    assert(cur[x] == pre[x]);
                }
                if span.start <= j < span.end {
                    assert(cur[k as int] == span);
                }
                if covered(cur, j) && !(span.start <= j < span.end) {
                    let x = choose|x: int| 0 <= x < cur.len() && #[trigger] cur[x].start <= j < cur[x].end;
                    assert(x != k);
                    assert(pre[x] == cur[x]);
                }
            }
            k = k + 1;
        }
        assert(spans@.subrange(0, k as int) =~= spans@);
    }
}

} // verus!
