//! Byte scanners that locate delimiters in a buffer.
use vstd::prelude::*;

verus! {

pub const SP: u8 = 0x20;

pub const CR: u8 = 0x0d;

pub const LF: u8 = 0x0a;

/// Whether `\r\n` starts at index `i` of `b`.
pub open spec fn crlf_at(b: Seq<u8>, i: int) -> bool {
    0 <= i && i + 1 < b.len() && b[i] == CR && b[i + 1] == LF
}

/// Whether `\r\n\r\n` starts at index `i` of `b`.
pub open spec fn terminator_at(b: Seq<u8>, i: int) -> bool {
    crlf_at(b, i) && crlf_at(b, i + 2)
}

/// The first index at or after `from` that holds `x`, or `b.len()` if none does.
pub open spec fn find_byte(b: Seq<u8>, x: u8, from: int) -> int
    decreases b.len() - from,
{
    if from < 0 || from >= b.len() {
        b.len() as int
    } else if b[from] == x {
        from
    } else {
        find_byte(b, x, from + 1)
    }
}

/// The first index at or after `from` where `\r\n` starts, or `b.len()` if none does.
pub open spec fn find_crlf(b: Seq<u8>, from: int) -> int
    decreases b.len() - from,
{
    if from < 0 || from >= b.len() {
        b.len() as int
    } else if crlf_at(b, from) {
        from
    } else {
        find_crlf(b, from + 1)
    }
}

/// The bytes before the first space, or nothing if `b` holds no space.
pub open spec fn until_space(b: Seq<u8>) -> Seq<u8> {
    let i = find_byte(b, SP, 0);
    if i < b.len() {
        b.take(i)
    } else {
        Seq::empty()
    }
}

/// The bytes before the first `\r\n`, or nothing if `b` holds no `\r\n`.
pub open spec fn until_crlf(b: Seq<u8>) -> Seq<u8> {
    let i = find_crlf(b, 0);
    if i < b.len() {
        b.take(i)
    } else {
        Seq::empty()
    }
}

/// Whether `b` contains `\r\n\r\n` anywhere.
pub open spec fn terminated(b: Seq<u8>) -> bool {
    exists|i: int| #[trigger] terminator_at(b, i)
}

/// `find_byte` gives the first occurrence at or after `from`.
pub proof fn lemma_find_byte(b: Seq<u8>, x: u8, from: int)
    requires
        0 <= from <= b.len(),
    ensures
        from <= find_byte(b, x, from) <= b.len(),
        find_byte(b, x, from) < b.len() ==> b[find_byte(b, x, from)] == x,
        forall|j: int| from <= j < find_byte(b, x, from) ==> b[j] != x,
    decreases b.len() - from,
{
    if from < b.len() && b[from] != x {
        lemma_find_byte(b, x, from + 1);
    }
}

/// `find_byte` is fixed by a position that holds `x` with none before it.
pub proof fn lemma_find_byte_at(b: Seq<u8>, x: u8, from: int, n: int)
    requires
        0 <= from <= n <= b.len(),
        n < b.len() ==> b[n] == x,
        forall|j: int| from <= j < n ==> b[j] != x,
    ensures
        find_byte(b, x, from) == n,
    decreases n - from,
{
    if from < n {
        lemma_find_byte_at(b, x, from + 1, n);
    }
}

/// `find_crlf` gives the first `\r\n` at or after `from`.
pub proof fn lemma_find_crlf(b: Seq<u8>, from: int)
    requires
        0 <= from <= b.len(),
    ensures
        from <= find_crlf(b, from) <= b.len(),
        find_crlf(b, from) < b.len() ==> crlf_at(b, find_crlf(b, from)),
        forall|j: int| from <= j < find_crlf(b, from) ==> !crlf_at(b, j),
    decreases b.len() - from,
{
    if from < b.len() && !crlf_at(b, from) {
        lemma_find_crlf(b, from + 1);
    }
}

/// `find_crlf` is fixed by a position where `\r\n` starts with none before it.
pub proof fn lemma_find_crlf_at(b: Seq<u8>, from: int, n: int)
    requires
        0 <= from <= n <= b.len(),
        n < b.len() ==> crlf_at(b, n),
        forall|j: int| from <= j < n ==> !crlf_at(b, j),
    ensures
        find_crlf(b, from) == n,
    decreases n - from,
{
    if from < n {
        lemma_find_crlf_at(b, from + 1, n);
    }
}

/// What `until_space` returns is the part of `b` before its first space, when
/// `b` holds a space, and empty otherwise.
pub proof fn lemma_until_space_first_space(b: Seq<u8>)
    ensures
        (exists|i: int| 0 <= i < b.len() && b[i] == SP) ==> {
            let n = until_space(b).len() as int;
            &&& n < b.len()
            &&& b[n] == SP
            &&& until_space(b) == b.take(n)
            &&& forall|j: int| 0 <= j < n ==> b[j] != SP
        },
        !(exists|i: int| 0 <= i < b.len() && b[i] == SP) ==> until_space(b) == Seq::<u8>::empty(),
{
    lemma_find_byte(b, SP, 0);
}

/// What `until_crlf` returns is the part of `b` before its first `\r\n`, when
/// `b` holds one, and empty otherwise.
pub proof fn lemma_until_crlf_first_crlf(b: Seq<u8>)
    ensures
        (exists|i: int| crlf_at(b, i)) ==> {
            let n = until_crlf(b).len() as int;
            &&& crlf_at(b, n)
            &&& until_crlf(b) == b.take(n)
            &&& forall|j: int| 0 <= j < n ==> !crlf_at(b, j)
        },
        !(exists|i: int| crlf_at(b, i)) ==> until_crlf(b) == Seq::<u8>::empty(),
{
    lemma_find_crlf(b, 0);
}

/// The index of the first `x` in `b` at or after `from`, or `b.len()`.
pub fn find_byte_from(b: &[u8], x: u8, from: usize) -> (r: usize)
    requires
        from <= b@.len(),
    ensures
        r == find_byte(b@, x, from as int),
{
    let mut i = from;
    while i < b.len()
        invariant
            from <= i <= b@.len(),
            find_byte(b@, x, from as int) == find_byte(b@, x, i as int),
        decreases b@.len() - i,
    {
        if b[i] == x {
            return i;
        }
        i = i + 1;
    }
    i
}

/// The index of the first `\r\n` in `b` at or after `from`, or `b.len()`.
pub fn find_crlf_from(b: &[u8], from: usize) -> (r: usize)
    requires
        from <= b@.len(),
    ensures
        r == find_crlf(b@, from as int),
{
    let mut i = from;
    while i < b.len()
        invariant
            from <= i <= b@.len(),
            find_crlf(b@, from as int) == find_crlf(b@, i as int),
        decreases b@.len() - i,
    {
        if i + 1 < b.len() && b[i] == CR && b[i + 1] == LF {
            return i;
        }
        i = i + 1;
    }
    i
}

/// The bytes of `buf` before its first space; empty when it holds none.
pub fn parse_until_space(buf: &[u8]) -> (r: &[u8])
    ensures
        r@ == until_space(buf@),
{
    let i = find_byte_from(buf, SP, 0);
    if i < buf.len() {
        vstd::slice::slice_subrange(buf, 0, i)
    } else {
        vstd::slice::slice_subrange(buf, 0, 0)
    }
}

/// The bytes of `buf` before its first `\r\n`; empty when it holds none.
pub fn parse_until_crlf(buf: &[u8]) -> (r: &[u8])
    ensures
        r@ == until_crlf(buf@),
{
    let i = find_crlf_from(buf, 0);
    if i < buf.len() {
        vstd::slice::slice_subrange(buf, 0, i)
    } else {
        vstd::slice::slice_subrange(buf, 0, 0)
    }
}

/// Whether the header block in `buf` is complete: `buf` contains `\r\n\r\n`.
pub fn is_terminated(buf: &[u8]) -> (r: bool)
    ensures
        r == terminated(buf@),
{
    let mut i: usize = 0;
    while buf.len() >= 4 && i <= buf.len() - 4
        invariant
            i <= buf@.len(),
            forall|j: int| 0 <= j < i ==> !terminator_at(buf@, j),
        decreases buf@.len() - i,
    {
        if buf[i] == CR && buf[i + 1] == LF && buf[i + 2] == CR && buf[i + 3] == LF {
            assert(terminator_at(buf@, i as int));
            return true;
        }
        i = i + 1;
    }
    false
}

} // verus!
