//! Laws on messages in wire format.

use crate::text;
use crate::wire;
use vstd::prelude::*;

verus! {

/// A name as it stands in a message, without its end: each label behind its
/// length.
pub open spec fn name_bytes(labels: Seq<Seq<u8>>) -> Seq<u8>
    decreases labels.len(),
{
    if labels.len() == 0 {
        Seq::empty()
    } else {
        seq![labels[0].len() as u8] + labels[0] + name_bytes(labels.skip(1))
    }
}

/// Whether every label has a length that a byte can hold, and is not empty.
pub open spec fn labels_fit(labels: Seq<Seq<u8>>) -> bool {
    forall|k: int| 0 <= k < labels.len() ==> 1 <= (#[trigger] labels[k]).len() <= 255
}

/// A question: a name, the empty label that ends it, a type and a class.
pub open spec fn question(labels: Seq<Seq<u8>>, kind: (u8, u8), class: (u8, u8)) -> Seq<u8> {
    name_bytes(labels) + seq![0u8, kind.0, kind.1, class.0, class.1]
}

/// A query with a question: twelve bytes of header in front, anything behind.
pub open spec fn query(
    header: Seq<u8>,
    labels: Seq<Seq<u8>>,
    kind: (u8, u8),
    class: (u8, u8),
    rest: Seq<u8>,
) -> Seq<u8> {
    header + question(labels, kind, class) + rest
}

/// The end of a name is found behind all of its labels.
proof fn lemma_name_is_found(q: Seq<u8>, off: int, labels: Seq<Seq<u8>>)
    requires
        labels_fit(labels),
        0 <= off,
        off + name_bytes(labels).len() + 1 <= q.len(),
        q.subrange(off, off + name_bytes(labels).len()) == name_bytes(labels),
        q[off + name_bytes(labels).len()] == 0,
    ensures
        wire::name_end(q, off) == Some(off + name_bytes(labels).len() + 1),
    decreases labels.len(),
{
    let name = name_bytes(labels);
    if labels.len() > 0 {
        let n = labels[0].len() as int;
        let tail = labels.skip(1);
        let rest = name_bytes(tail);
        assert(name == seq![n as u8] + labels[0] + rest);
        assert(q[off] == q.subrange(off, off + name.len())[0]);
        assert(q[off] == n);
        assert(labels_fit(tail)) by {
            assert forall|k: int| 0 <= k < tail.len() implies 1 <= (#[trigger] tail[k]).len()
                <= 255 by {
                assert(tail[k] == labels[k + 1]);
            }
        }
        let next = off + 1 + n;
        assert(q.subrange(next, next + rest.len()) =~= rest) by {
            assert forall|k: int| 0 <= k < rest.len() implies q[next + k] == rest[k] by {
                assert(q.subrange(off, off + name.len())[1 + n + k] == q[next + k]);
                assert(name[1 + n + k] == rest[k]);
            }
        }
        lemma_name_is_found(q, next, tail);
    }
}

/// Every well-formed question is found: the question of a query is exactly the
/// bytes of its name, type and class, its type is the number in the two bytes
/// of the type, and neither the header nor anything behind the question
/// matters.
pub proof fn law_question_is_found(
    header: Seq<u8>,
    labels: Seq<Seq<u8>>,
    kind: (u8, u8),
    class: (u8, u8),
    rest: Seq<u8>,
)
    requires
        header.len() == 12,
        labels_fit(labels),
    ensures
        wire::question_bytes(query(header, labels, kind, class, rest)) == Some(
            question(labels, kind, class),
        ),
        wire::question_type(query(header, labels, kind, class, rest)) == Some(
            (kind.0 * 256 + kind.1) as u16,
        ),
{
    let q = query(header, labels, kind, class, rest);
    let name = name_bytes(labels);
    let n = name.len() as int;
    assert(q.subrange(12, 12 + n) =~= name);
    assert(q[12 + n] == 0);
    lemma_name_is_found(q, 12, labels);
    assert(q.subrange(12, 12 + n + 5) =~= question(labels, kind, class));
    assert(q[12 + n + 1] == kind.0 && q[12 + n + 2] == kind.1);
}

/// No end of a name is found where the bytes stop within it.
proof fn lemma_cut_name(q: Seq<u8>, off: int, labels: Seq<Seq<u8>>)
    requires
        labels_fit(labels),
        0 <= off,
        q.len() <= off + name_bytes(labels).len(),
        forall|k: int| off <= k < q.len() ==> #[trigger] q[k] == name_bytes(labels)[k - off],
    ensures
        wire::name_end(q, off) is None,
    decreases labels.len(),
{
    let name = name_bytes(labels);
    if labels.len() > 0 && off < q.len() {
        let n = labels[0].len() as int;
        let tail = labels.skip(1);
        let rest = name_bytes(tail);
        assert(name == seq![n as u8] + labels[0] + rest);
        assert(q[off] == name[0]);
        assert(q[off] == n);
        assert(labels_fit(tail)) by {
            assert forall|k: int| 0 <= k < tail.len() implies 1 <= (#[trigger] tail[k]).len()
                <= 255 by {
                assert(tail[k] == labels[k + 1]);
            }
        }
        let next = off + 1 + n;
        assert forall|k: int| next <= k < q.len() implies #[trigger] q[k] == rest[k - next] by {
            assert(name[k - off] == rest[k - next]);
        }
        lemma_cut_name(q, next, tail);
    }
}

/// A query that is cut anywhere in front of the end of its question has no
/// question, and none of a type where the type is cut off.
pub proof fn law_cut_question_is_not_found(
    header: Seq<u8>,
    labels: Seq<Seq<u8>>,
    kind: (u8, u8),
    class: (u8, u8),
    len: int,
)
    requires
        header.len() == 12,
        labels_fit(labels),
        0 <= len < 12 + question(labels, kind, class).len(),
    ensures
        wire::question_bytes(
            query(header, labels, kind, class, Seq::empty()).take(len),
        ) is None,
        len < 12 + name_bytes(labels).len() + 3 ==> wire::question_type(
            query(header, labels, kind, class, Seq::empty()).take(len),
        ) is None,
{
    let whole = query(header, labels, kind, class, Seq::empty());
    let q = whole.take(len);
    let name = name_bytes(labels);
    let n = name.len() as int;
    if len <= 12 + n {
        assert forall|k: int| 12 <= k < q.len() implies #[trigger] q[k] == name[k - 12] by {
            assert(whole[k] == name[k - 12]);
        }
        lemma_cut_name(q, 12, labels);
    } else {
        assert(q.subrange(12, 12 + n) =~= name);
        assert(q[12 + n] == 0);
        lemma_name_is_found(q, 12, labels);
    }
}

/// Holds of labels that are well-formed UTF-8.
pub open spec fn is_text() -> spec_fn(Seq<u8>) -> bool {
    |label: Seq<u8>| vstd::utf8::valid_utf8(label)
}

/// The texts of the labels that are well-formed UTF-8, in order.
pub open spec fn label_texts(labels: Seq<Seq<u8>>) -> Seq<Seq<char>> {
    labels.filter(is_text()).map_values(|label: Seq<u8>| vstd::utf8::decode_utf8(label))
}

/// The first label comes first.
proof fn lemma_label_texts(labels: Seq<Seq<u8>>)
    requires
        labels.len() > 0,
    ensures
        label_texts(labels) == if vstd::utf8::valid_utf8(labels[0]) {
            seq![vstd::utf8::decode_utf8(labels[0])] + label_texts(labels.skip(1))
        } else {
            label_texts(labels.skip(1))
        },
{
    let first = seq![labels[0]];
    let tail = labels.skip(1);
    assert(first + tail =~= labels);
    Seq::filter_distributes_over_add(first, tail, is_text());
    reveal(Seq::filter);
    assert(first.drop_last() =~= Seq::empty());
    assert(Seq::<Seq<u8>>::empty().filter(is_text()) =~= Seq::empty());
    assert(first.last() == labels[0]);
    if vstd::utf8::valid_utf8(labels[0]) {
        assert(first.filter(is_text()) =~= first);
        assert(label_texts(labels) =~= seq![vstd::utf8::decode_utf8(labels[0])] + label_texts(
            tail,
        ));
    } else {
        assert(first.filter(is_text()) =~= Seq::empty());
        assert(label_texts(labels) =~= label_texts(tail));
    }
}

/// The labels of a name are read in order.
proof fn lemma_labels_are_read(q: Seq<u8>, off: int, labels: Seq<Seq<u8>>)
    requires
        labels_fit(labels),
        0 <= off,
        off + name_bytes(labels).len() + 1 <= q.len(),
        q.subrange(off, off + name_bytes(labels).len()) == name_bytes(labels),
        q[off + name_bytes(labels).len()] == 0,
    ensures
        wire::labels(q, off) == label_texts(labels),
    decreases labels.len(),
{
    let name = name_bytes(labels);
    if labels.len() == 0 {
        reveal(Seq::filter);
        assert(wire::labels(q, off) =~= label_texts(labels));
    } else {
        let n = labels[0].len() as int;
        let tail = labels.skip(1);
        let rest = name_bytes(tail);
        assert(name == seq![n as u8] + labels[0] + rest);
        assert(q[off] == q.subrange(off, off + name.len())[0]);
        assert(q[off] == n);
        assert forall|k: int| 0 <= k < tail.len() implies 1 <= (#[trigger] tail[k]).len() <= 255 by {
            assert(tail[k] == labels[k + 1]);
        }
        let next = off + 1 + n;
        assert(q.subrange(off + 1, next) =~= labels[0]) by {
            assert forall|k: int| 0 <= k < n implies q[off + 1 + k] == labels[0][k] by {
                assert(q.subrange(off, off + name.len())[1 + k] == q[off + 1 + k]);
                assert(name[1 + k] == labels[0][k]);
            }
        }
        assert(q.subrange(next, next + rest.len()) =~= rest) by {
            assert forall|k: int| 0 <= k < rest.len() implies q[next + k] == rest[k] by {
                assert(q.subrange(off, off + name.len())[1 + n + k] == q[next + k]);
                assert(name[1 + n + k] == rest[k]);
            }
        }
        lemma_labels_are_read(q, next, tail);
        lemma_label_texts(labels);
    }
}

/// The name of a question is those of its labels that are text, with dots
/// between them, and a single dot where there are none; the name does not
/// depend on anything else in the query.
pub proof fn law_name_is_read(
    header: Seq<u8>,
    labels: Seq<Seq<u8>>,
    kind: (u8, u8),
    class: (u8, u8),
    rest: Seq<u8>,
)
    requires
        header.len() == 12,
        labels_fit(labels),
    ensures
        wire::question_name(query(header, labels, kind, class, rest)) == Some(
            if label_texts(labels).len() == 0 {
                seq!['.']
            } else {
                text::joined(label_texts(labels), seq!['.'])
            },
        ),
{
    let q = query(header, labels, kind, class, rest);
    let n = name_bytes(labels).len() as int;
    reveal_strlit(".");
    assert("."@ =~= seq!['.']);
    assert(q.subrange(12, 12 + n) =~= name_bytes(labels));
    assert(q[12 + n] == 0);
    lemma_labels_are_read(q, 12, labels);
}

/// The response code of a message is the lower half of its fourth byte.
pub proof fn law_response_code(m: Seq<u8>)
    ensures
        wire::rcode_of(m) == m[3] % 16,
{
    let b = m[3];
    assert(b & 0x0f == b % 16) by (bit_vector);
}

/// On a stream a message follows its length in two bytes, the more significant
/// one first; a length of which more than sixteen bits are needed keeps the
/// lower ones.
pub proof fn law_frame(m: Seq<u8>, hi: u8, lo: u8)
    ensures
        wire::framed(m).len() == m.len() + 2,
        wire::framed(m).skip(2) == m,
        wire::framed(m)[0] * 256 + wire::framed(m)[1] == m.len() as int % 65536,
        wire::announced(hi, lo) == hi * 256 + lo,
{
    assert(wire::framed(m).skip(2) =~= m);
}

} // verus!
