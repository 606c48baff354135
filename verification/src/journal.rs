//! The kernel journal viewer's choice of lines: all of them, or the last
//! few.
use vstd::prelude::*;

verus! {

/// The last `n` of `lines` (all of them when there are fewer), in order.
pub open spec fn last_lines_spec<T>(lines: Seq<T>, n: int) -> Seq<T> {
    if n >= lines.len() {
        lines
    } else {
        lines.subrange(lines.len() - n, lines.len() as int)
    }
}

/// The last `from_end` lines of `lines` (all of them when there are
/// fewer), in order: they are taken off the end one by one and put back in
/// their order.
pub fn last_lines(lines: Vec<Vec<u8>>, from_end: u32) -> (r: Vec<Vec<u8>>)
    ensures
        r@ == last_lines_spec(lines@, from_end as int),
{
    let mut lines = lines;
    let ghost all = lines@;
    let mut to_print: Vec<Vec<u8>> = Vec::new();
    let mut k: u32 = 0;
    while k < from_end
        invariant
            k <= from_end,
            lines@ == all.subrange(0, lines@.len() as int),
            lines@.len() + to_print@.len() == all.len(),
            to_print@.len() <= k,
            to_print@.len() < k ==> lines@.len() == 0,
            forall|i: int| 0 <= i < to_print@.len() ==> #[trigger] to_print@[i] == all[all.len() - 1 - i],
        decreases from_end - k,
    {
        if let Some(line) = lines.pop() {
            to_print.push(line);
        }
        k = k + 1;
    }
    let mut r: Vec<Vec<u8>> = Vec::new();
    let ghost tp = to_print@;
    let m = to_print.len();
    while to_print.len() > 0
        invariant
            m == tp.len(),
            to_print@ == tp.subrange(0, to_print@.len() as int),
            r@.len() + to_print@.len() == m,
            forall|j: int| 0 <= j < r@.len() ==> #[trigger] r@[j] == tp[m - 1 - j],
        decreases to_print@.len(),
    {
        let line = to_print.pop().unwrap();
        r.push(line);
    }
    proof {
        let want = last_lines_spec(all, from_end as int);
        assert(m == want.len());
        assert forall|j: int| 0 <= j < m implies #[trigger] r@[j] == want[j] by {
            assert(r@[j] == tp[m - 1 - j]);
            assert(tp[m - 1 - j] == all[all.len() - 1 - (m - 1 - j)]);
        }
        assert(r@ =~= want);
    }
    r
}

} // verus!
