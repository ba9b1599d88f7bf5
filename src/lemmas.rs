//! Facts about the codec, proved from its definitions.

use vstd::prelude::*;
use vstd::utf8::is_ascii_chars;

use crate::idna::{ascii_form, has_punycode_label, unicode_form};
use crate::message::{
    ascii_bytes, bytes_text, dotted, label_wire, name_text, name_wire, parse_labels, parse_name,
    segment_label, segments_wire, split_dots, valid_label, valid_name_structure, wire_label_ok,
    DecodeError,
    NAME_LIMIT, be_u16, emit_all, encode_message, flags0, flags1, header_of, header_wire,
    message_chunks, message_limit, opcode_code, opcode_of, parse_header, rcode_code, rcode_of,
    u16_bytes, EncodeError, FullHeader, Header, MessageView, MESSAGE_LIMIT,
};

verus! {

/// Labels on the wire, one after another, without the terminator.
pub open spec fn labels_wire(labels: Seq<Seq<char>>) -> Seq<u8>
    decreases labels.len(),
{
    if labels.len() == 0 {
        Seq::<u8>::empty()
    } else {
        labels_wire(labels.drop_last()) + label_wire(labels.last())
    }
}

/// A label that goes on the wire as it is: ASCII, valid, non-empty and not
/// in Punycode form.
pub open spec fn plain_label(l: Seq<char>) -> bool {
    &&& l.len() > 0
    &&& valid_label(l)
    &&& !has_punycode_label(l)
}

proof fn lemma_split_len(s: Seq<char>)
    ensures
        split_dots(s).len() >= 1,
    decreases s.len(),
{
    if s.len() > 0 {
        lemma_split_len(s.drop_last());
    }
}

proof fn lemma_labels_wire_cons(l: Seq<char>, rest: Seq<Seq<char>>)
    ensures
        labels_wire(seq![l] + rest) == label_wire(l) + labels_wire(rest),
    decreases rest.len(),
{
    if rest.len() == 0 {
        assert(seq![l] + rest =~= seq![l]);
        assert(seq![l].drop_last() =~= Seq::<Seq<char>>::empty());
        assert(labels_wire(seq![l]) == labels_wire(Seq::<Seq<char>>::empty()) + label_wire(l));
        assert(labels_wire(seq![l]) =~= label_wire(l));
        assert(label_wire(l) + labels_wire(rest) =~= label_wire(l));
    } else {
        lemma_labels_wire_cons(l, rest.drop_last());
        assert((seq![l] + rest).drop_last() =~= seq![l] + rest.drop_last());
        assert((seq![l] + rest).last() == rest.last());
        assert(labels_wire(seq![l] + rest) =~= label_wire(l) + labels_wire(rest));
    }
}

proof fn lemma_ascii_round_trip(l: Seq<char>)
    requires
        is_ascii_chars(l),
    ensures
        bytes_text(ascii_bytes(l)) == l,
        forall|i: int| 0 <= i < ascii_bytes(l).len() ==> #[trigger] ascii_bytes(l)[i] < 128,
{
    assert forall|i: int| 0 <= i < l.len() implies (l[i] as u8) as char == l[i] && (l[i] as u8)
        < 128 by {
        assert('\0' <= l[i] <= '\u{7f}');
    }
    assert(bytes_text(ascii_bytes(l)) =~= l);
}

/// Reading plain labels followed by a zero octet gives back the labels.
proof fn lemma_parse_plain_labels(
    msg: Seq<u8>,
    pos: int,
    start: int,
    total: int,
    labels: Seq<Seq<char>>,
)
    requires
        0 <= pos,
        0 <= start,
        0 <= total,
        forall|k: int| 0 <= k < labels.len() ==> plain_label(#[trigger] labels[k]),
        pos + labels_wire(labels).len() + 1 <= msg.len(),
        msg.subrange(pos, pos + labels_wire(labels).len() + 1) == labels_wire(labels).push(0u8),
        total + labels_wire(labels).len() + 1 <= NAME_LIMIT,
    ensures
        parse_labels(msg, pos, start, total) == Ok::<(Seq<Seq<char>>, int), DecodeError>(
            (labels, pos + labels_wire(labels).len() + 1),
        ),
    decreases labels.len(),
{
    let w = labels_wire(labels);
    if labels.len() == 0 {
        assert(w == Seq::<u8>::empty());
        assert(msg.subrange(pos, pos + 1)[0] == msg[pos]);
        assert(w.push(0u8)[0] == 0);
        assert(msg[pos] == 0);
        assert(labels =~= Seq::<Seq<char>>::empty());
    } else {
        let l = labels[0];
        let rest = labels.skip(1);
        assert(labels =~= seq![l] + rest);
        lemma_labels_wire_cons(l, rest);
        let lw = label_wire(l);
        let n = l.len();
        assert(plain_label(l));
        assert(lw.len() == n + 1);
        assert(msg[pos] == lw[0]) by {
            assert(msg.subrange(pos, pos + w.len() + 1)[0] == msg[pos]);
        }
        lemma_ascii_round_trip(l);
        let b = msg.subrange(pos + 1, pos + 1 + n);
        assert(b =~= ascii_bytes(l)) by {
            assert forall|i: int| 0 <= i < n implies b[i] == ascii_bytes(l)[i] by {
                assert(msg.subrange(pos, pos + w.len() + 1)[1 + i] == msg[pos + 1 + i]);
                assert(w.push(0u8)[1 + i] == lw[1 + i]);
            }
        }
        assert(wire_label_ok(b));
        assert(unicode_form(bytes_text(b)) == Some(l));
        assert forall|k: int| 0 <= k < rest.len() implies plain_label(#[trigger] rest[k]) by {
            assert(rest[k] == labels[k + 1]);
        }
        let rw = labels_wire(rest);
        assert(msg.subrange(pos + 1 + n, pos + 1 + n + rw.len() + 1) =~= rw.push(0u8)) by {
            assert forall|i: int| 0 <= i < rw.len() + 1 implies msg.subrange(
                pos + 1 + n,
                pos + 1 + n + rw.len() + 1,
            )[i] == rw.push(0u8)[i] by {
                assert(msg.subrange(pos, pos + w.len() + 1)[n + 1 + i] == msg[pos + n + 1 + i]);
                assert(w.push(0u8)[n + 1 + i] == rw.push(0u8)[i]);
            }
        }
        lemma_parse_plain_labels(msg, pos + 1 + n, start, total + 1 + n, rest);
        assert(seq![l] + rest == labels);
        assert(lw[0] == n as u8);
        assert(msg[pos] as int == n);
        assert(w.len() == n + 1 + rw.len());
        assert(parse_labels(msg, pos, start, total) == match parse_labels(
            msg,
            pos + 1 + n,
            start,
            total + 1 + n,
        ) {
            Ok((ls, next)) => Ok((seq![l] + ls, next)),
            Err(e) => Err(e),
        });
    }
}

proof fn lemma_dotted_split(s: Seq<char>)
    ensures
        dotted(split_dots(s)) == s.push('.'),
    decreases s.len(),
{
    if s.len() == 0 {
        let r = split_dots(s);
        assert(r =~= seq![Seq::<char>::empty()]);
        assert(r.drop_last() =~= Seq::<Seq<char>>::empty());
        assert(dotted(r.drop_last()) == Seq::<char>::empty());
        assert(r.last() == Seq::<char>::empty());
        assert(dotted(r) =~= s.push('.'));
    } else {
        let p = s.drop_last();
        lemma_dotted_split(p);
        lemma_split_len(p);
        let r = split_dots(p);
        if s.last() == '.' {
            assert(split_dots(s).drop_last() =~= r);
            assert(dotted(split_dots(s)) =~= s.push('.'));
        } else {
            let u = r.update(r.len() - 1, r.last().push(s.last()));
            assert(u.drop_last() =~= r.drop_last());
            assert(dotted(r) == dotted(r.drop_last()) + r.last() + seq!['.']);
            assert(dotted(r.drop_last()) + r.last() =~= p) by {
                assert(dotted(r.drop_last()) + r.last() + seq!['.'] =~= p.push('.'));
                assert((dotted(r.drop_last()) + r.last() + seq!['.']).drop_last() =~= dotted(
                    r.drop_last(),
                ) + r.last());
                assert(p.push('.').drop_last() =~= p);
            }
            assert(split_dots(s) == u);
            assert(u.last() == r.last().push(s.last()));
            assert(dotted(u) == dotted(r.drop_last()) + r.last().push(s.last()) + seq!['.']);
            assert(p.push(s.last()) =~= s);
            assert(dotted(u) =~= s.push('.'));
        }
    }
}

proof fn lemma_split_nonempty(s: Seq<char>)
    requires
        s.len() > 0,
        s[0] != '.',
        s.last() != '.',
        forall|i: int| 0 <= i < s.len() - 1 ==> !(#[trigger] s[i] == '.' && s[i + 1] == '.'),
    ensures
        forall|k: int| 0 <= k < split_dots(s).len() ==> #[trigger] split_dots(s)[k].len() > 0,
    decreases s.len(),
{
    let p = s.drop_last();
    lemma_split_len(p);
    if p.len() == 0 {
        assert(split_dots(p) =~= seq![Seq::<char>::empty()]);
    } else if p.last() == '.' {
        let q = p.drop_last();
        assert(q.len() > 0);
        assert(q[0] == s[0]);
        assert(q.last() != '.') by {
            assert(s[s.len() - 3] == q.last());
            assert(s[s.len() - 2] == '.');
        }
        assert forall|i: int| 0 <= i < q.len() - 1 implies !(#[trigger] q[i] == '.' && q[i + 1]
            == '.') by {
            assert(q[i] == s[i] && q[i + 1] == s[i + 1]);
        }
        lemma_split_nonempty(q);
        lemma_split_len(q);
        assert(split_dots(p) == split_dots(q).push(Seq::<char>::empty()));
    } else {
        assert(p[0] == s[0]);
        assert forall|i: int| 0 <= i < p.len() - 1 implies !(#[trigger] p[i] == '.' && p[i + 1]
            == '.') by {
            assert(p[i] == s[i] && p[i + 1] == s[i + 1]);
        }
        lemma_split_nonempty(p);
    }
}

proof fn lemma_segments_wire_plain(segs: Seq<Seq<char>>)
    requires
        segments_wire(segs) is Some,
        forall|k: int| 0 <= k < segs.len() ==> is_ascii_chars(#[trigger] segs[k]),
    ensures
        segments_wire(segs) == Some(labels_wire(segs)),
        forall|k: int| 0 <= k < segs.len() ==> valid_label(#[trigger] segs[k]),
    decreases segs.len(),
{
    if segs.len() > 0 {
        let p = segs.drop_last();
        assert forall|k: int| 0 <= k < p.len() implies is_ascii_chars(#[trigger] p[k]) by {
            assert(p[k] == segs[k]);
        }
        lemma_segments_wire_plain(p);
        assert(ascii_form(segs.last()) == Some(segs.last()));
        assert forall|k: int| 0 <= k < segs.len() implies valid_label(#[trigger] segs[k]) by {
            if k < segs.len() - 1 {
                assert(segs[k] == p[k]);
            }
        }
    }
}

/// Decoding what a name encodes to gives the name back, with a trailing
/// dot added where it had none; the root name `.` decodes as `.`. This
/// holds for every name that encodes and whose labels are ASCII and not in
/// Punycode form, wherever in a message the encoded name stands.
pub proof fn lemma_name_round_trip(name: Seq<char>, msg: Seq<u8>, pos: int)
    requires
        name_wire(name) is Some,
        forall|k: int|
            0 <= k < split_dots(name).len() ==> is_ascii_chars(#[trigger] split_dots(name)[k])
                && !has_punycode_label(split_dots(name)[k]),
        0 <= pos,
        pos + name_wire(name)->Some_0.len() <= msg.len(),
        msg.subrange(pos, pos + name_wire(name)->Some_0.len()) == name_wire(name)->Some_0,
    ensures
        parse_name(msg, pos) == Ok::<(Seq<char>, int), DecodeError>(
            (
                if name.last() == '.' {
                    name
                } else {
                    name.push('.')
                },
                pos + name_wire(name)->Some_0.len(),
            ),
        ),
{
    let w = name_wire(name)->Some_0;
    if name == seq!['.'] {
        assert(w == seq![0u8]);
        assert(msg[pos] == 0) by {
            assert(msg.subrange(pos, pos + 1)[0] == msg[pos]);
        }
        assert(parse_labels(msg, pos, pos, 0) == Ok::<(Seq<Seq<char>>, int), DecodeError>(
            (Seq::<Seq<char>>::empty(), pos + 1),
        ));
    } else {
        let segs = split_dots(name);
        lemma_segments_wire_plain(segs);
        assert(valid_name_structure(name));
        assert(name[0] != '.') by {
            if name.len() == 1 && name[0] == '.' {
                assert(name =~= seq!['.']);
            }
        }
        if name.last() == '.' {
            let p = name.drop_last();
            assert(p.len() > 0);
            assert(p[0] == name[0]);
            assert(p.last() != '.') by {
                assert(name[name.len() - 2] == p.last());
            }
            assert forall|i: int| 0 <= i < p.len() - 1 implies !(#[trigger] p[i] == '.' && p[i
                + 1] == '.') by {
                assert(p[i] == name[i] && p[i + 1] == name[i + 1]);
            }
            lemma_split_nonempty(p);
            lemma_split_len(p);
            let labels = split_dots(p);
            assert(segs == labels.push(Seq::<char>::empty()));
            assert(segs.drop_last() =~= labels);
            assert(label_wire(Seq::<char>::empty()) =~= seq![0u8]);
            assert(w == labels_wire(labels).push(0u8));
            assert forall|k: int| 0 <= k < labels.len() implies plain_label(#[trigger] labels[k]) by {
                assert(labels[k] == segs[k]);
            }
            lemma_parse_plain_labels(msg, pos, pos, 0, labels);
            lemma_dotted_split(p);
            assert(p.push('.') =~= name);
        } else {
            assert forall|i: int| 0 <= i < name.len() - 1 implies !(#[trigger] name[i] == '.'
                && name[i + 1] == '.') by {}
            lemma_split_nonempty(name);
            lemma_split_len(name);
            assert(w == labels_wire(segs).push(0u8));
            assert forall|k: int| 0 <= k < segs.len() implies plain_label(#[trigger] segs[k]) by {}
            lemma_parse_plain_labels(msg, pos, pos, 0, segs);
            lemma_dotted_split(name);
        }
    }
}

proof fn lemma_u16_round_trip(x: u16)
    ensures
        be_u16(u16_bytes(x)[0], u16_bytes(x)[1]) == x,
{
}

/// Decoding an encoded header gives back the header and its counts, for
/// every header whose opcode and response code fit in four bits and are
/// written in their canonical form.
pub proof fn lemma_header_round_trip(h: Header, qd: u16, an: u16, ns: u16, ar: u16, rest: Seq<u8>)
    requires
        opcode_code(h.op) < 16,
        opcode_of(opcode_code(h.op)) == h.op,
        rcode_code(h.rcode) < 16,
        rcode_of(rcode_code(h.rcode)) == h.rcode,
    ensures
        parse_header(header_wire(h, qd, an, ns, ar) + rest) == Ok::<FullHeader, DecodeError>(
            FullHeader { header: h, qd_count: qd, an_count: an, ns_count: ns, ar_count: ar },
        ),
{
    let msg = header_wire(h, qd, an, ns, ar) + rest;
    lemma_u16_round_trip(h.id);
    lemma_u16_round_trip(qd);
    lemma_u16_round_trip(an);
    lemma_u16_round_trip(ns);
    lemma_u16_round_trip(ar);
    assert(msg[0] == u16_bytes(h.id)[0] && msg[1] == u16_bytes(h.id)[1]);
    assert(msg[2] == flags0(h) && msg[3] == flags1(h));
    assert(msg[4] == u16_bytes(qd)[0] && msg[5] == u16_bytes(qd)[1]);
    assert(msg[6] == u16_bytes(an)[0] && msg[7] == u16_bytes(an)[1]);
    assert(msg[8] == u16_bytes(ns)[0] && msg[9] == u16_bytes(ns)[1]);
    assert(msg[10] == u16_bytes(ar)[0] && msg[11] == u16_bytes(ar)[1]);
    let f0 = flags0(h);
    let f1 = flags1(h);
    assert(header_of(h.id, f0, f1) == h);
}

/// The sum of the lengths of chunks.
pub open spec fn chunks_len(chunks: Seq<Result<Seq<u8>, EncodeError>>) -> int
    decreases chunks.len(),
{
    if chunks.len() == 0 {
        0
    } else {
        chunks_len(chunks.drop_last()) + match chunks.last() {
            Ok(c) => c.len() as int,
            Err(_) => 0,
        }
    }
}

proof fn lemma_emit_all_sizes(chunks: Seq<Result<Seq<u8>, EncodeError>>, limit: int)
    requires
        limit >= 0,
        forall|i: int| 0 <= i < chunks.len() ==> #[trigger] chunks[i] is Ok,
    ensures
        chunks_len(chunks) <= limit ==> emit_all(chunks, limit) is Ok,
        chunks_len(chunks) > limit ==> emit_all(chunks, limit) == Err::<Seq<u8>, EncodeError>(
            EncodeError::TooLong,
        ),
        emit_all(chunks, limit) matches Ok(b) ==> b.len() == chunks_len(chunks),
        chunks_len(chunks) >= 0,
    decreases chunks.len(),
{
    if chunks.len() > 0 {
        let p = chunks.drop_last();
        assert forall|i: int| 0 <= i < p.len() implies #[trigger] p[i] is Ok by {
            assert(p[i] == chunks[i]);
        }
        lemma_emit_all_sizes(p, limit);
        assert(chunks[chunks.len() - 1] is Ok);
    }
}

/// An encoded message never exceeds `MESSAGE_LIMIT` bytes, whatever the
/// buffer: where every part of a message encodes but together they would
/// exceed the limit, encoding fails with `TooLong`.
pub proof fn lemma_message_limit(m: MessageView, buf_len: int)
    requires
        buf_len >= 0,
        forall|i: int| 0 <= i < message_chunks(m).len() ==> #[trigger] message_chunks(m)[i] is Ok,
        chunks_len(message_chunks(m)) > MESSAGE_LIMIT,
    ensures
        encode_message(m, buf_len) == Err::<Seq<u8>, EncodeError>(EncodeError::TooLong),
{
    lemma_emit_all_sizes(message_chunks(m), message_limit(buf_len));
}

/// An encoded message takes at most `MESSAGE_LIMIT` bytes, and at most the
/// buffer's size.
pub proof fn lemma_encoded_size(m: MessageView, buf_len: int)
    ensures
        encode_message(m, buf_len) matches Ok(b) ==> b.len() <= MESSAGE_LIMIT && b.len()
            <= buf_len,
{
    lemma_emit_all_bounded(message_chunks(m), message_limit(buf_len));
}

proof fn lemma_emit_all_bounded(chunks: Seq<Result<Seq<u8>, EncodeError>>, limit: int)
    ensures
        emit_all(chunks, limit) matches Ok(b) ==> b.len() <= limit || chunks.len() == 0,
    decreases chunks.len(),
{
    if chunks.len() > 0 {
        lemma_emit_all_bounded(chunks.drop_last(), limit);
    }
}

/// A name whose first octet is a compression pointer to the name's own
/// start or beyond fails with `InvalidName`.
pub proof fn lemma_forward_pointer(msg: Seq<u8>, pos: int)
    requires
        0 <= pos,
        pos + 1 < msg.len(),
        msg[pos] >= 0xc0,
        (msg[pos] - 0xc0) * 256 + msg[pos + 1] >= pos,
    ensures
        parse_name(msg, pos) == Err::<(Seq<char>, int), DecodeError>(DecodeError::InvalidName),
{
}

/// A name made of plain labels and then a compression pointer to the
/// name's own start or beyond fails with `InvalidName`.
pub proof fn lemma_forward_pointer_after_labels(
    msg: Seq<u8>,
    pos: int,
    start: int,
    total: int,
    labels: Seq<Seq<char>>,
)
    requires
        0 <= pos,
        0 <= total,
        start <= pos,
        0 <= start,
        forall|k: int| 0 <= k < labels.len() ==> plain_label(#[trigger] labels[k]),
        pos + labels_wire(labels).len() + 1 < msg.len(),
        msg.subrange(pos, pos + labels_wire(labels).len()) == labels_wire(labels),
        msg[pos + labels_wire(labels).len()] >= 0xc0,
        (msg[pos + labels_wire(labels).len()] - 0xc0) * 256 + msg[pos + labels_wire(labels).len()
            + 1] >= start,
    ensures
        parse_labels(msg, pos, start, total) == Err::<(Seq<Seq<char>>, int), DecodeError>(
            DecodeError::InvalidName,
        ),
    decreases labels.len(),
{
    let w = labels_wire(labels);
    if labels.len() > 0 {
        let l = labels[0];
        let rest = labels.skip(1);
        assert(labels =~= seq![l] + rest);
        lemma_labels_wire_cons(l, rest);
        let lw = label_wire(l);
        let n = l.len();
        assert(plain_label(l));
        assert(msg[pos] == lw[0]) by {
            assert(msg.subrange(pos, pos + w.len())[0] == msg[pos]);
        }
        assert(lw[0] == n as u8);
        if total + 1 + n > NAME_LIMIT {
        } else {
            lemma_ascii_round_trip(l);
            let b = msg.subrange(pos + 1, pos + 1 + n);
            assert(b =~= ascii_bytes(l)) by {
                assert forall|i: int| 0 <= i < n implies b[i] == ascii_bytes(l)[i] by {
                    assert(msg.subrange(pos, pos + w.len())[1 + i] == msg[pos + 1 + i]);
                    assert(w[1 + i] == lw[1 + i]);
                }
            }
            assert(wire_label_ok(b));
            assert(unicode_form(bytes_text(b)) == Some(l));
            assert forall|k: int| 0 <= k < rest.len() implies plain_label(#[trigger] rest[k]) by {
                assert(rest[k] == labels[k + 1]);
            }
            let rw = labels_wire(rest);
            assert(msg.subrange(pos + 1 + n, pos + 1 + n + rw.len()) =~= rw) by {
                assert forall|i: int| 0 <= i < rw.len() implies msg.subrange(
                    pos + 1 + n,
                    pos + 1 + n + rw.len(),
                )[i] == rw[i] by {
                    assert(msg.subrange(pos, pos + w.len())[n + 1 + i] == msg[pos + n + 1 + i]);
                    assert(w[n + 1 + i] == rw[i]);
                }
            }
            lemma_forward_pointer_after_labels(msg, pos + 1 + n, start, total + 1 + n, rest);
        }
    }
}

proof fn lemma_dotted_len(labels: Seq<Seq<char>>)
    ensures
        dotted(labels).len() == labels_wire(labels).len(),
    decreases labels.len(),
{
    if labels.len() > 0 {
        lemma_dotted_len(labels.drop_last());
    }
}

proof fn lemma_segments_wire_valid(segs: Seq<Seq<char>>)
    requires
        forall|k: int| 0 <= k < segs.len() ==> valid_label(#[trigger] segs[k]),
    ensures
        segments_wire(segs) == Some(labels_wire(segs)),
    decreases segs.len(),
{
    if segs.len() > 0 {
        let p = segs.drop_last();
        assert forall|k: int| 0 <= k < p.len() implies valid_label(#[trigger] p[k]) by {
            assert(p[k] == segs[k]);
        }
        lemma_segments_wire_valid(p);
        assert(valid_label(segs[segs.len() - 1]));
        assert(ascii_form(segs.last()) == Some(segs.last()));
    }
}

/// A name whose labels are all valid ASCII labels encodes exactly when its
/// encoded form, one length octet per label plus the zero octet, takes at
/// most `NAME_LIMIT` bytes: the name's length plus two, or plus one where
/// it ends with a dot. So a name at the limit encodes, and one more byte in
/// any label makes it fail with `InvalidName`.
pub proof fn lemma_name_length(name: Seq<char>)
    requires
        valid_name_structure(name),
        name != seq!['.'],
        forall|k: int| 0 <= k < split_dots(name).len() ==> valid_label(#[trigger] split_dots(name)[k]),
    ensures
        name_wire(name) is Some <==> (if name.last() == '.' {
            name.len() + 1
        } else {
            name.len() + 2
        }) <= NAME_LIMIT,
        name_wire(name) matches Some(w) ==> w.len() == (if name.last() == '.' {
            name.len() + 1
        } else {
            name.len() + 2
        }),
{
    let segs = split_dots(name);
    lemma_segments_wire_valid(segs);
    lemma_dotted_split(name);
    lemma_dotted_len(segs);
    if name.last() == '.' {
        let p = name.drop_last();
        lemma_split_len(p);
        assert(segs == split_dots(p).push(Seq::<char>::empty()));
        assert(segs.drop_last() =~= split_dots(p));
        assert(label_wire(Seq::<char>::empty()) =~= seq![0u8]);
        lemma_dotted_split(p);
        lemma_dotted_len(split_dots(p));
        assert(labels_wire(segs).len() == p.len() + 2);
    }
}

} // verus!
