//! The parts of a DNS message in wire format that the plugins look at, and the
//! length-prefixed framing of messages on a stream.

use crate::outside::text_of_utf8;
use crate::text;
use crate::text::join;
use vstd::prelude::*;
use vstd::slice::slice_subrange;

verus! {

/// The length of a message header; the question starts behind it.
pub const HEADER_LEN: usize = 12;

/// The number that two bytes stand for, the more significant one first.
pub open spec fn be16(hi: u8, lo: u8) -> u16 {
    (hi * 256 + lo) as u16
}

/// The number that two bytes stand for, the more significant one first.
pub fn be16_of(hi: u8, lo: u8) -> (n: u16)
    ensures
        n == be16(hi, lo),
{
    hi as u16 * 256 + lo as u16
}

/// The position behind the empty label that ends the name starting at `off`,
/// or `None` when the bytes end before that.
pub open spec fn name_end(q: Seq<u8>, off: int) -> Option<int>
    decreases q.len() - off,
    when 0 <= off
{
    if off >= q.len() {
        None
    } else if q[off] == 0 {
        Some(off + 1)
    } else if off + 1 + q[off] >= q.len() {
        None
    } else {
        name_end(q, off + 1 + q[off])
    }
}

/// A name ends behind its start and within the bytes.
pub proof fn lemma_name_end(q: Seq<u8>, off: int)
    requires
        0 <= off,
    ensures
        name_end(q, off) matches Some(e) ==> off < e <= q.len(),
    decreases q.len() - off,
{
    if off < q.len() && q[off] != 0 && off + 1 + q[off] < q.len() {
        lemma_name_end(q, off + 1 + q[off]);
    }
}

/// The end of a name depends only on the bytes from its start on.
pub proof fn lemma_name_end_agrees(p: Seq<u8>, q: Seq<u8>, off: int)
    requires
        0 <= off,
        p.len() == q.len(),
        forall|k: int| off <= k < q.len() ==> #[trigger] p[k] == q[k],
    ensures
        name_end(p, off) == name_end(q, off),
    decreases q.len() - off,
{
    if off < q.len() && q[off] != 0 && off + 1 + q[off] < q.len() {
        lemma_name_end_agrees(p, q, off + 1 + q[off]);
    }
}

/// The end of a name depends only on the bytes up to it.
pub proof fn lemma_name_end_within(p: Seq<u8>, q: Seq<u8>, off: int, end: int)
    requires
        0 <= off,
        name_end(p, off) == Some(end),
        end <= q.len(),
        forall|k: int| off <= k < end ==> #[trigger] p[k] == q[k],
    ensures
        name_end(q, off) == Some(end),
    decreases p.len() - off,
{
    lemma_name_end(p, off);
    assert(p[off] == q[off]);
    if p[off] != 0 {
        lemma_name_end(p, off + 1 + p[off]);
        lemma_name_end_within(p, q, off + 1 + p[off], end);
    }
}

/// The position behind the name of the first question.
pub fn skip_name(query: &[u8]) -> (r: Option<usize>)
    ensures
        match name_end(query@, HEADER_LEN as int) {
            Some(e) => r == Some(e as usize) && HEADER_LEN < e <= query@.len(),
            None => r is None,
        },
{
    let mut off: usize = HEADER_LEN;
    proof {
        lemma_name_end(query@, HEADER_LEN as int);
    }
    while off < query.len()
        invariant
            HEADER_LEN <= off,
            name_end(query@, off as int) == name_end(query@, HEADER_LEN as int),
            name_end(query@, HEADER_LEN as int) matches Some(e) ==> HEADER_LEN < e <= query@.len(),
        decreases query@.len() - off,
    {
        let n: usize = query[off] as usize;
        if n == 0 {
            return Some(off + 1);
        }
        if n >= query.len() - off - 1 {
            return None;
        }
        off = off + 1 + n;
    }
    None
}

/// The bytes of the first question: its name, type and class.
pub open spec fn question_bytes(q: Seq<u8>) -> Option<Seq<u8>> {
    match name_end(q, HEADER_LEN as int) {
        Some(e) => if e + 4 <= q.len() {
            Some(q.subrange(HEADER_LEN as int, e + 4))
        } else {
            None
        },
        None => None,
    }
}

/// The type of the first question.
pub open spec fn question_type(q: Seq<u8>) -> Option<u16> {
    match name_end(q, HEADER_LEN as int) {
        Some(e) => if e + 2 <= q.len() {
            Some(be16(q[e], q[e + 1]))
        } else {
            None
        },
        None => None,
    }
}

/// The type of the first question.
pub fn question_type_of(query: &[u8]) -> (r: Option<u16>)
    ensures
        r == question_type(query@),
{
    match skip_name(query) {
        Some(e) => if query.len() - e >= 2 {
            Some(be16_of(query[e], query[e + 1]))
        } else {
            None
        },
        None => None,
    }
}

/// The labels of the name that starts at `off`, up to its end or to a label
/// that does not fit into the bytes; labels that are not UTF-8 are left out.
pub open spec fn labels(q: Seq<u8>, off: int) -> Seq<Seq<char>>
    decreases q.len() - off,
    when 0 <= off
{
    if off >= q.len() || q[off] == 0 || off + 1 + q[off] > q.len() {
        Seq::empty()
    } else {
        let label = q.subrange(off + 1, off + 1 + q[off]);
        let rest = labels(q, off + 1 + q[off]);
        if vstd::utf8::valid_utf8(label) {
            seq![vstd::utf8::decode_utf8(label)] + rest
        } else {
            rest
        }
    }
}

/// The name of the first question with its labels separated by dots, `.` when
/// there is no label, `None` when there is no full header.
pub open spec fn question_name(q: Seq<u8>) -> Option<Seq<char>> {
    if q.len() < HEADER_LEN {
        None
    } else {
        let parts = labels(q, HEADER_LEN as int);
        if parts.len() == 0 {
            Some("."@)
        } else {
            Some(text::joined(parts, "."@))
        }
    }
}

/// The name of the first question.
pub fn question_name_of(query: &[u8]) -> (r: Option<String>)
    ensures
        match question_name(query@) {
            Some(name) => r is Some && r->0@ == name,
            None => r is None,
        },
{
    if query.len() < HEADER_LEN {
        return None;
    }
    let mut off: usize = HEADER_LEN;
    let mut parts: Vec<String> = Vec::new();
    let mut open: bool = true;
    while open && off < query.len()
        invariant
            HEADER_LEN <= off <= query@.len(),
            open ==> text::texts(parts@) + labels(query@, off as int) =~= labels(
                query@,
                HEADER_LEN as int,
            ),
            !open ==> text::texts(parts@) =~= labels(query@, HEADER_LEN as int),
        decreases query@.len() - off, open as int,
    {
        let n: usize = query[off] as usize;
        if n == 0 || n >= query.len() - off {
            open = false;
        } else {
            let ghost before = parts@;
            match text_of_utf8(slice_subrange(query, off + 1, off + 1 + n)) {
                Some(s) => {
                    parts.push(s);
                    assert(text::texts(parts@) =~= text::texts(before).push(s@));
                },
                None => {},
            }
            off = off + 1 + n;
        }
    }
    assert(text::texts(parts@) =~= labels(query@, HEADER_LEN as int));
    assert(text::texts(parts@).len() == parts@.len());
    if parts.len() == 0 {
        Some(".".to_owned())
    } else {
        Some(join(&parts, "."))
    }
}

/// The low four bits of the fourth byte: the response code of a message.
pub open spec fn rcode_of(m: Seq<u8>) -> u8 {
    m[3] & 0x0f
}

/// A message behind its length in two bytes. A length that does not fit keeps
/// its low sixteen bits.
pub open spec fn framed(m: Seq<u8>) -> Seq<u8> {
    seq![(m.len() / 256 % 256) as u8, (m.len() % 256) as u8] + m
}

/// The length that a two-byte prefix announces.
pub open spec fn announced(hi: u8, lo: u8) -> nat {
    be16(hi, lo) as nat
}

/// Puts the length of a message in front of it.
pub fn frame(m: &[u8]) -> (r: Vec<u8>)
    ensures
        r@ == framed(m@),
{
    let n: usize = m.len();
    let mut r: Vec<u8> = Vec::new();
    r.push((n / 256 % 256) as u8);
    r.push((n % 256) as u8);
    r.extend_from_slice(m);
    assert(r@ =~= framed(m@));
    r
}

/// The number of bytes that follow a two-byte length prefix.
pub fn announced_len(hi: u8, lo: u8) -> (n: usize)
    ensures
        n == announced(hi, lo),
{
    be16_of(hi, lo) as usize
}

/// A framed message announces exactly the bytes that follow, as long as its
/// length fits into the prefix: reading a frame gives back the message.
pub proof fn law_frame_round_trip(m: Seq<u8>)
    requires
        m.len() <= u16::MAX,
    ensures
        framed(m).len() == 2 + m.len(),
        announced(framed(m)[0], framed(m)[1]) == m.len(),
        framed(m).subrange(2, 2 + announced(framed(m)[0], framed(m)[1]) as int) == m,
{
    let n = m.len();
    assert(n / 256 % 256 == n / 256);
    assert(framed(m)[0] * 256 + framed(m)[1] == n);
    assert(framed(m).subrange(2, 2 + n as int) =~= m);
}

} // verus!
