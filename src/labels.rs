//! Byte-level facts about domain names: labels are separated by `.`.

use vstd::prelude::*;
use vstd::utf8::{
    is_char_boundary, length_of_first_scalar, pop_first_scalar, valid_first_scalar, valid_utf8,
};

verus! {

/// The label separator, `.`.
pub const DOT: u8 = 46;

/// No label of `d` is empty: `d` is non-empty, neither starts nor ends with
/// a dot, and holds no two dots in a row.
pub open spec fn no_empty_label(d: Seq<u8>) -> bool {
    &&& d.len() > 0
    &&& d[0] != DOT
    &&& d[d.len() - 1] != DOT
    &&& forall|i: int| 0 <= i < d.len() - 1 ==> !(#[trigger] d[i] == DOT && d[i + 1] == DOT)
}

/// Byte length of the last label of `p`: the bytes after its last dot.
pub open spec fn last_label_len(p: Seq<u8>) -> nat
    decreases p.len(),
{
    if p.len() == 0 || p[p.len() - 1] == DOT {
        0
    } else {
        1 + last_label_len(p.drop_last())
    }
}

/// Number of dots in `s`.
pub open spec fn dot_count(s: Seq<u8>) -> nat
    decreases s.len(),
{
    if s.len() == 0 {
        0
    } else {
        dot_count(s.drop_last()) + if s[s.len() - 1] == DOT {
            1nat
        } else {
            0nat
        }
    }
}

/// `tail` stands at the end of `d` and starts a label there: it is all of `d`,
/// or a dot stands right before it.
pub open spec fn ends_at_label(d: Seq<u8>, tail: Seq<u8>) -> bool {
    &&& tail.len() <= d.len()
    &&& d.subrange(d.len() - tail.len(), d.len() as int) == tail
    &&& (tail.len() == d.len() || d[d.len() - tail.len() - 1] == DOT)
}

/// In valid UTF-8 the position right after an ASCII byte starts a character.
pub proof fn lemma_boundary_after_ascii(b: Seq<u8>, i: int)
    requires
        valid_utf8(b),
        0 < i <= b.len(),
        b[i - 1] < 0x80,
    ensures
        is_char_boundary(b, i),
    decreases b.len(),
{
    let l = length_of_first_scalar(b);
    let rest = pop_first_scalar(b);
    assert(valid_first_scalar(b) && valid_utf8(rest));
    assert(1 <= l <= b.len());
    if i < l {
        assert(b[i - 1] >= 0x80);
    } else if i == l {
        assert(is_char_boundary(rest, 0));
    } else {
        assert(rest[i - l - 1] == b[i - 1]);
        lemma_boundary_after_ascii(rest, i - l);
    }
}

/// The last `k` bytes of `d`.
pub open spec fn tail(d: Seq<u8>, k: nat) -> Seq<u8> {
    d.subrange(d.len() - k, d.len() as int)
}

/// `s` stands at the end of `d`.
pub open spec fn ends_with(d: Seq<u8>, s: Seq<u8>) -> bool {
    s.len() <= d.len() && tail(d, s.len()) == s
}

/// The last label of `p` is all of `p`, or a dot stands right before it.
pub proof fn lemma_last_label_start(p: Seq<u8>)
    ensures
        last_label_len(p) <= p.len(),
        last_label_len(p) == p.len() || p[p.len() - last_label_len(p) - 1] == DOT,
    decreases p.len(),
{
    if p.len() > 0 && p[p.len() - 1] != DOT {
        lemma_last_label_start(p.drop_last());
    }
}

/// Byte length of the last label of `b[..end]`.
pub fn last_label_len_exec(b: &[u8], end: usize) -> (r: usize)
    requires
        end <= b@.len(),
    ensures
        r == last_label_len(b@.subrange(0, end as int)),
{
    let mut i: usize = end;
    while i > 0 && b[i - 1] != DOT
        invariant
            i <= end <= b@.len(),
            last_label_len(b@.subrange(0, end as int)) == (end - i) + last_label_len(
                b@.subrange(0, i as int),
            ),
        decreases i,
    {
        assert(b@.subrange(0, i as int).drop_last() =~= b@.subrange(0, i - 1));
        i = i - 1;
    }
    end - i
}

/// Whether `s` stands at the end of `d`.
pub fn ends_with_exec(d: &[u8], s: &[u8]) -> (r: bool)
    ensures
        r == ends_with(d@, s@),
{
    if s.len() > d.len() {
        return false;
    }
    let off: usize = d.len() - s.len();
    let mut i: usize = 0;
    while i < s.len()
        invariant
            s@.len() <= d@.len(),
            off == d@.len() - s@.len(),
            d@.len() <= usize::MAX,
            i <= s@.len(),
            forall|j: int| 0 <= j < i ==> d@[off + j] == s@[j],
        decreases s@.len() - i,
    {
        if d[off + i] != s[i] {
            assert(tail(d@, s@.len())[i as int] != s@[i as int]);
            return false;
        }
        i = i + 1;
    }
    assert(tail(d@, s@.len()) =~= s@);
    true
}

/// Whether no label of `d` is empty.
pub fn no_empty_label_exec(d: &[u8]) -> (r: bool)
    ensures
        r == no_empty_label(d@),
{
    let n = d.len();
    if n == 0 || d[0] == DOT || d[n - 1] == DOT {
        return false;
    }
    let mut i: usize = 0;
    while i + 1 < n
        invariant
            n == d@.len(),
            i < n,
            forall|j: int| 0 <= j < i ==> !(#[trigger] d@[j] == DOT && d@[j + 1] == DOT),
        decreases n - i,
    {
        if d[i] == DOT && d[i + 1] == DOT {
            return false;
        }
        i = i + 1;
    }
    true
}

/// Appends the bytes of `s` to `v`.
pub fn push_bytes(v: &mut Vec<u8>, s: &[u8])
    ensures
        final(v)@ == old(v)@ + s@,
{
    let mut i: usize = 0;
    while i < s.len()
        invariant
            i <= s@.len(),
            v@ == old(v)@ + s@.take(i as int),
        decreases s@.len() - i,
    {
        assert(s@.take(i + 1) =~= s@.take(i as int).push(s@[i as int]));
        v.push(s[i]);
        i = i + 1;
    }
    assert(s@.take(i as int) =~= s@);
}

} // verus!
