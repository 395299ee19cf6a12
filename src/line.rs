//! Source locations for error reports: the line of a byte offset and a
//! marker under a byte range.
use vstd::prelude::*;

verus! {

/// The line that holds a byte offset: where it starts and its number from 1.
pub struct LineInfo {
    pub start: usize,
    pub number: usize,
}

/// The number, from 1, of the line that holds offset `n`.
pub open spec fn line_number(s: Seq<u8>, n: int) -> nat
    decreases n,
{
    if n <= 0 {
        1
    } else {
        line_number(s, n - 1) + if s[n - 1] == 10 {
            1nat
        } else {
            0nat
        }
    }
}

/// Where the line that holds offset `n` starts.
pub open spec fn line_start(s: Seq<u8>, n: int) -> int
    decreases n,
{
    if n <= 0 {
        0
    } else if s[n - 1] == 10 {
        n
    } else {
        line_start(s, n - 1)
    }
}

proof fn lemma_line_number_le(s: Seq<u8>, n: int)
    requires
        n >= 0,
    ensures
        line_number(s, n) <= n + 1,
    decreases n,
{
    if n > 0 {
        lemma_line_number_le(s, n - 1);
    }
}

/// The line of the source that holds offset `start` (the last line when
/// `start` lies past the end).
pub fn create(source: &[u8], start: usize) -> (r: LineInfo)
    requires
        source@.len() < usize::MAX,
    ensures
        ({
            let n = if start <= source@.len() { start as int } else { source@.len() as int };
            r.start == line_start(source@, n) && r.number == line_number(source@, n)
        }),
{
    let mut line_number_v: usize = 1;
    let mut line_start_v: usize = 0;
    let mut offset: usize = 0;
    while offset < source.len() && offset != start
        invariant
            offset <= source@.len(),
            source@.len() < usize::MAX,
            offset <= start,
            line_number_v == line_number(source@, offset as int),
            line_start_v == line_start(source@, offset as int),
        decreases source@.len() - offset,
    {
        proof {
            lemma_line_number_le(source@, offset as int);
        }
        let c = source[offset];
        offset += 1;
        if c == 10u8 {
            line_number_v += 1;
            line_start_v = offset;
        }
    }
    LineInfo { start: line_start_v, number: line_number_v }
}

/// Spaces up to the range, a caret under each byte of it, and a newline.
pub open spec fn marker(line_start: int, start: int, end: int) -> Seq<u8> {
    Seq::new((start - line_start) as nat, |i: int| 32u8) + Seq::new(
        (end - start) as nat,
        |i: int| 94u8,
    ) + seq![10u8]
}

/// The marker line under the bytes `start..end` of a line starting at
/// `line_start`.
pub fn mark_range(line_start: usize, start: usize, end: usize) -> (r: Vec<u8>)
    requires
        line_start <= start <= end,
    ensures
        r@ == marker(line_start as int, start as int, end as int),
{
    let mut out: Vec<u8> = Vec::new();
    let mut i: usize = line_start;
    while i < start
        invariant
            line_start <= i <= start,
            out@ == Seq::new((i - line_start) as nat, |k: int| 32u8),
        decreases start - i,
    {
        out.push(32u8);
        i += 1;
        assert(out@ =~= Seq::new((i - line_start) as nat, |k: int| 32u8));
    }
    let ghost spaces = out@;
    let mut j: usize = start;
    while j < end
        invariant
            start <= j <= end,
            out@ == spaces + Seq::new((j - start) as nat, |k: int| 94u8),
        decreases end - j,
    {
        out.push(94u8);
        j += 1;
        assert(out@ =~= spaces + Seq::new((j - start) as nat, |k: int| 94u8));
    }
    out.push(10u8);
    assert(out@ =~= marker(line_start as int, start as int, end as int));
    out
}

} // verus!
