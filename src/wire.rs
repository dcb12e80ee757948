use crate::command::{
    crlf_at, crlf_text, decode_at, encode_text, fields_of, find_crlf, is_tag,
    lemma_find_crlf_bounds, lemma_space_index_bounds, parse_line, reqvote_rest, space_index,
    text_of, vote_rest, wire, Decoded, FrameView,
};
use crate::handler::{apply, lemma_write_then_read, reply};
use vstd::prelude::*;
use vstd::utf8::*;

verus! {

broadcast use {encode_utf8_decode_utf8, encode_utf8_valid_utf8};

/// No `\r` of `s` is followed by `\n`.
pub open spec fn no_crlf(s: Seq<char>) -> bool {
    forall|i: int| 0 <= i && i + 1 < s.len() ==> !(#[trigger] s[i] == '\r' && s[i + 1] == '\n')
}

/// No character of `s` is a space.
pub open spec fn no_space(s: Seq<char>) -> bool {
    forall|i: int| 0 <= i < s.len() ==> #[trigger] s[i] != ' '
}

proof fn lemma_encode_first(s: Seq<char>)
    requires
        s.len() > 0,
    ensures
        encode_utf8(s) == encode_scalar(s[0] as u32) + encode_utf8(s.drop_first()),
{
}

/// The encoding of a concatenation is the concatenation of the encodings.
pub proof fn lemma_encode_concat(a: Seq<char>, b: Seq<char>)
    ensures
        encode_utf8(a + b) == encode_utf8(a) + encode_utf8(b),
    decreases a.len(),
{
    if a.len() == 0 {
        assert(a + b =~= b);
        assert(encode_utf8(a) + encode_utf8(b) =~= encode_utf8(b));
    } else {
        lemma_encode_concat(a.drop_first(), b);
        assert((a + b).drop_first() =~= a.drop_first() + b);
        assert((a + b)[0] == a[0]);
        lemma_encode_first(a + b);
        lemma_encode_first(a);
        let e0 = encode_scalar(a[0] as u32);
        assert(e0 + (encode_utf8(a.drop_first()) + encode_utf8(b)) =~= (e0 + encode_utf8(
            a.drop_first(),
        )) + encode_utf8(b));
    }
}

/// A character below 128 is encoded as that one byte; every byte of any other
/// character's encoding is at least 128.
pub proof fn lemma_scalar_bytes(c: char)
    ensures
        encode_scalar(c as u32).len() >= 1,
        (c as u32) < 0x80 ==> encode_scalar(c as u32) == seq![(c as u32) as u8],
        (c as u32) >= 0x80 ==> forall|i: int|
            0 <= i < encode_scalar(c as u32).len() ==> #[trigger] encode_scalar(c as u32)[i] >= 0x80,
{
    let v = c as u32;
    if v < 0x80 {
        assert((v & 0x7F) as u8 == v as u8) by (bit_vector)
            requires
                v < 0x80,
        ;
    } else {
        assert(forall|y: u8| #![auto] (0xC0u8 | y) >= 0x80u8) by (bit_vector);
        assert(forall|y: u8| #![auto] (0xE0u8 | y) >= 0x80u8) by (bit_vector);
        assert(forall|y: u8| #![auto] (0xF0u8 | y) >= 0x80u8) by (bit_vector);
        assert(forall|y: u8| #![auto] (0x80u8 | y) >= 0x80u8) by (bit_vector);
    }
}

proof fn lemma_char_of_u32(c: char, d: char)
    requires
        c as u32 == d as u32,
    ensures
        c == d,
{
}

/// Text with no `\r\n` encodes to bytes with no `\r\n`.
pub proof fn lemma_encoded_no_crlf(s: Seq<char>)
    requires
        no_crlf(s),
    ensures
        forall|i: int| !crlf_at(encode_utf8(s), i),
    decreases s.len(),
{
    if s.len() > 0 {
        let t = s.drop_first();
        assert(no_crlf(t)) by {
            assert forall|i: int| 0 <= i && i + 1 < t.len() implies !(#[trigger] t[i] == '\r' && t[i
                + 1] == '\n') by {
                assert(t[i] == s[i + 1] && t[i + 1] == s[i + 2]);
            }
        }
        lemma_encoded_no_crlf(t);
        lemma_scalar_bytes(s[0]);
        lemma_encode_first(s);
        let e0 = encode_scalar(s[0] as u32);
        let et = encode_utf8(t);
        let es = encode_utf8(s);
        assert forall|i: int| !crlf_at(es, i) by {
            if crlf_at(es, i) {
                if i + 1 < e0.len() {
                    assert(es[i] == e0[i]);
                } else if i >= e0.len() {
                    assert(es[i] == et[i - e0.len()] && es[i + 1] == et[i + 1 - e0.len()]);
                    assert(crlf_at(et, i - e0.len()));
                } else {
                    assert(es[i] == e0[i]);
                    assert((s[0] as u32) < 0x80);
                    lemma_char_of_u32(s[0], '\r');
                    assert(et.len() > 0);
                    assert(t.len() > 0);
                    lemma_encode_first(t);
                    lemma_scalar_bytes(t[0]);
                    assert(es[i + 1] == et[0]);
                    assert(et[0] == encode_scalar(t[0] as u32)[0]);
                    assert((t[0] as u32) < 0x80);
                    lemma_char_of_u32(t[0], '\n');
                    assert(s[0] == '\r' && s[1] == '\n');
                }
            }
        }
    }
}

/// Text with no space encodes to bytes with no space.
pub proof fn lemma_encoded_no_space(s: Seq<char>)
    requires
        no_space(s),
    ensures
        forall|i: int| 0 <= i < encode_utf8(s).len() ==> #[trigger] encode_utf8(s)[i] != 32u8,
    decreases s.len(),
{
    if s.len() > 0 {
        let t = s.drop_first();
        assert(no_space(t)) by {
            assert forall|i: int| 0 <= i < t.len() implies #[trigger] t[i] != ' ' by {
                assert(t[i] == s[i + 1]);
            }
        }
        lemma_encoded_no_space(t);
        lemma_scalar_bytes(s[0]);
        lemma_encode_first(s);
        let e0 = encode_scalar(s[0] as u32);
        let et = encode_utf8(t);
        let es = encode_utf8(s);
        assert forall|i: int| 0 <= i < es.len() implies #[trigger] es[i] != 32u8 by {
            if i < e0.len() {
                assert(es[i] == e0[i]);
                if (s[0] as u32) < 0x80 && es[i] == 32u8 {
                    lemma_char_of_u32(s[0], ' ');
                }
            } else {
                assert(es[i] == et[i - e0.len()]);
            }
        }
    }
}

/// The fixed text that opens a frame's line: its tag word, and a space when
/// fields follow.
pub open spec fn header(f: FrameView) -> Seq<char> {
    match f {
        FrameView::Read(_) => seq!['R', 'E', 'A', 'D', ' '],
        FrameView::Write(_, _) => seq!['W', 'R', 'I', 'T', 'E', ' '],
        FrameView::Success => seq!['O', 'K'],
        FrameView::Value(_) => seq!['V', 'A', 'L', 'U', 'E', ' '],
        FrameView::Error(_) => seq!['E', 'R', 'R', ' '],
        FrameView::RequestVote => seq!['R', 'E', 'Q', 'V', 'O', 'T', 'E'],
        FrameView::Vote(_) => seq!['V', 'O', 'T', 'E', ' '],
        FrameView::AddServer(_) => seq!['A', 'D', 'D', 'S', 'E', 'R', 'V', 'E', 'R', ' '],
    }
}

/// The bytes of [`header`].
pub open spec fn header_bytes(f: FrameView) -> Seq<u8> {
    match f {
        FrameView::Read(_) => seq![82u8, 69u8, 65u8, 68u8, 32u8],
        FrameView::Write(_, _) => seq![87u8, 82u8, 73u8, 84u8, 69u8, 32u8],
        FrameView::Success => seq![79u8, 75u8],
        FrameView::Value(_) => seq![86u8, 65u8, 76u8, 85u8, 69u8, 32u8],
        FrameView::Error(_) => seq![69u8, 82u8, 82u8, 32u8],
        FrameView::RequestVote => seq![82u8, 69u8, 81u8, 86u8, 79u8, 84u8, 69u8],
        FrameView::Vote(_) => seq![86u8, 79u8, 84u8, 69u8, 32u8],
        FrameView::AddServer(_) => seq![65u8, 68u8, 68u8, 83u8, 69u8, 82u8, 86u8, 69u8, 82u8, 32u8],
    }
}

/// The text between a frame's header and its terminator.
pub open spec fn payload(f: FrameView) -> Seq<char> {
    match f {
        FrameView::Read(k) => k,
        FrameView::Write(k, v) => k + seq![' '] + v,
        FrameView::Success => Seq::empty(),
        FrameView::Value(v) => v,
        FrameView::Error(e) => e,
        FrameView::RequestVote => Seq::empty(),
        FrameView::Vote(c) => c,
        FrameView::AddServer(a) => a,
    }
}

/// A frame that its line can carry: no field holds `\r\n`, and the key of a
/// write holds no space.
pub open spec fn well_formed(f: FrameView) -> bool {
    match f {
        FrameView::Read(k) => no_crlf(k),
        FrameView::Write(k, v) => no_crlf(k) && no_crlf(v) && no_space(k),
        FrameView::Value(v) => no_crlf(v),
        FrameView::Error(e) => no_crlf(e),
        FrameView::Vote(c) => no_crlf(c),
        FrameView::AddServer(a) => no_crlf(a),
        _ => true,
    }
}

proof fn lemma_header_bytes(f: FrameView)
    ensures
        encode_utf8(header(f)) == header_bytes(f),
        encode_utf8(crlf_text()) == seq![13u8, 10u8],
{
    let h = header(f);
    assert(is_ascii_chars(h));
    is_ascii_chars_encode_utf8(h);
    assert(encode_utf8(h) =~= header_bytes(f));
    assert(is_ascii_chars(crlf_text()));
    is_ascii_chars_encode_utf8(crlf_text());
    assert(encode_utf8(crlf_text()) =~= seq![13u8, 10u8]);
}

proof fn lemma_payload_no_crlf(f: FrameView)
    requires
        well_formed(f),
    ensures
        no_crlf(payload(f)),
{
    if let FrameView::Write(k, v) = f {
        let p = k + seq![' '] + v;
        assert forall|i: int| 0 <= i && i + 1 < p.len() implies !(#[trigger] p[i] == '\r' && p[i
            + 1] == '\n') by {
            if i + 1 < k.len() {
                assert(p[i] == k[i] && p[i + 1] == k[i + 1]);
            } else if i + 1 == k.len() {
                assert(p[i + 1] == ' ');
            } else if i == k.len() {
                assert(p[i] == ' ');
            } else {
                assert(p[i] == v[i - k.len() - 1] && p[i + 1] == v[i - k.len()]);
            }
        }
    }
    if f is Success || f is RequestVote {
        assert(payload(f) =~= Seq::<char>::empty());
    }
}

/// A frame's bytes: its header's, its payload's, then `\r\n`.
pub proof fn lemma_wire_layout(f: FrameView)
    ensures
        wire(f) == header_bytes(f) + encode_utf8(payload(f)) + seq![13u8, 10u8],
{
    let h = header(f);
    let p = payload(f);
    assert(encode_text(f) =~= h + p + crlf_text());
    lemma_encode_concat(h + p, crlf_text());
    lemma_encode_concat(h, p);
    lemma_header_bytes(f);
}

/// In bytes whose only `\r\n` is their last two, the search for a terminator finds
/// those, whatever follows, and finds none in a shorter prefix.
proof fn lemma_terminator(w: Seq<u8>, rest: Seq<u8>, n: int)
    requires
        w.len() >= 3,
        crlf_at(w, w.len() - 2),
        forall|j: int| 0 <= j < w.len() - 2 ==> !crlf_at(w, j),
        0 <= n < w.len(),
    ensures
        find_crlf(w + rest, 1) == Some(w.len() - 2),
        find_crlf(w.take(n), 1) is None,
{
    let s = w + rest;
    lemma_find_crlf_bounds(s, 1);
    assert(crlf_at(s, w.len() - 2));
    assert forall|j: int| 0 <= j < w.len() - 2 implies !crlf_at(s, j) by {
        assert(!crlf_at(w, j));
        assert(s[j] == w[j] && s[j + 1] == w[j + 1]);
    }
    let p = w.take(n);
    lemma_find_crlf_bounds(p, 1);
    if let Some(i) = find_crlf(p, 1) {
        assert(p[i] == w[i] && p[i + 1] == w[i + 1]);
        assert(crlf_at(w, i));
    }
}

/// The only `\r\n` in a well-formed frame's bytes is its terminator.
proof fn lemma_only_terminator(f: FrameView)
    requires
        well_formed(f),
    ensures
        wire(f).len() >= 4,
        is_tag(wire(f)[0]),
        crlf_at(wire(f), wire(f).len() - 2),
        forall|j: int| 0 <= j < wire(f).len() - 2 ==> !crlf_at(wire(f), j),
{
    lemma_wire_layout(f);
    let hb = header_bytes(f);
    let ep = encode_utf8(payload(f));
    let w = wire(f);
    lemma_payload_no_crlf(f);
    lemma_encoded_no_crlf(payload(f));
    assert(forall|j: int| 0 <= j < hb.len() ==> #[trigger] hb[j] != 13u8);
    assert(w[0] == hb[0]);
    assert(w[w.len() - 2] == 13u8 && w[w.len() - 1] == 10u8);
    assert forall|j: int| 0 <= j < w.len() - 2 implies !crlf_at(w, j) by {
        if j < hb.len() {
            assert(w[j] == hb[j]);
        } else if j + 1 < hb.len() + ep.len() {
            assert(w[j] == ep[j - hb.len()] && w[j + 1] == ep[j + 1 - hb.len()]);
            assert(!crlf_at(ep, j - hb.len()));
        } else {
            assert(w[j + 1] == 13u8);
        }
    }
}

/// In a line made of a word without spaces, a space, then `e`, the fields are `e`.
proof fn lemma_field_line(word: Seq<u8>, e: Seq<u8>)
    requires
        forall|j: int| 0 <= j < word.len() ==> #[trigger] word[j] != 32u8,
    ensures
        space_index(word + seq![32u8] + e, 0) == word.len(),
        (word + seq![32u8] + e).subrange(0, word.len() as int) == word,
        fields_of(word + seq![32u8] + e) == Some(e),
{
    let l = word + seq![32u8] + e;
    lemma_space_at(l, word.len() as int);
    assert(l.subrange(0, word.len() as int) =~= word);
    assert(l.subrange(word.len() + 1 as int, l.len() as int) =~= e);
}

proof fn lemma_space_at(l: Seq<u8>, m: int)
    requires
        0 <= m <= l.len(),
        forall|j: int| 0 <= j < m ==> #[trigger] l[j] != 32u8,
        m < l.len() ==> l[m] == 32u8,
    ensures
        space_index(l, 0) == m,
{
    lemma_space_index_bounds(l, 0);
    let r = space_index(l, 0);
    if r < m {
        assert(l[r] == 32u8);
    }
    if r > m {
        assert(l[m] != 32u8);
    }
}

/// A frame's line, between the tag byte and the terminator, is the encoding of
/// text, so it is well-formed UTF-8.
proof fn lemma_line_is_text(f: FrameView)
    ensures
        valid_utf8(wire(f).subrange(1, wire(f).len() - 2)),
{
    lemma_wire_layout(f);
    lemma_header_bytes(f);
    let h = header(f);
    let p = payload(f);
    let w = wire(f);
    lemma_encode_first(h);
    lemma_scalar_bytes(h[0]);
    assert(header_bytes(f).drop_first() =~= encode_utf8(h.drop_first()));
    lemma_encode_concat(h.drop_first(), p);
    assert(w.subrange(1, w.len() - 2) =~= encode_utf8(h.drop_first() + p));
}

/// A well-formed frame's line decodes to that frame.
proof fn lemma_line_parses(f: FrameView)
    requires
        well_formed(f),
    ensures
        parse_line(wire(f)[0], wire(f).subrange(1, wire(f).len() - 2)) == Some(f),
{
    lemma_wire_layout(f);
    let hb = header_bytes(f);
    let p = payload(f);
    let ep = encode_utf8(p);
    let w = wire(f);
    let line = w.subrange(1, w.len() - 2);
    lemma_line_is_text(f);
    assert(line =~= hb.drop_first() + ep);
    assert(w[0] == hb[0]);
    match f {
        FrameView::Read(k) => {
            let word = seq![69u8, 65u8, 68u8];
            assert(line =~= word + seq![32u8] + ep);
            lemma_field_line(word, ep);
            assert(text_of(ep) == Some(k));
        },
        FrameView::Write(k, v) => {
            let word = seq![82u8, 73u8, 84u8, 69u8];
            lemma_encode_concat(k + seq![' '], v);
            lemma_encode_concat(k, seq![' ']);
            let sp = seq![' '];
            assert(is_ascii_chars(sp));
            is_ascii_chars_encode_utf8(sp);
            assert(encode_utf8(sp) =~= seq![32u8]);
            let ek = encode_utf8(k);
            let ev = encode_utf8(v);
            let fields = ek + seq![32u8] + ev;
            assert(ep =~= fields);
            assert(line =~= word + seq![32u8] + fields);
            lemma_field_line(word, fields);
            lemma_encoded_no_space(k);
            lemma_field_line(ek, ev);
            assert(text_of(ek) == Some(k));
            assert(text_of(ev) == Some(v));
        },
        FrameView::Success => {},
        FrameView::Value(v) => {
            let word = seq![65u8, 76u8, 85u8, 69u8];
            assert(line =~= word + seq![32u8] + ep);
            lemma_field_line(word, ep);
            assert(text_of(ep) == Some(v));
        },
        FrameView::Error(e) => {
            let word = seq![82u8, 82u8];
            assert(line =~= word + seq![32u8] + ep);
            lemma_field_line(word, ep);
            assert(text_of(ep) == Some(e));
        },
        FrameView::RequestVote => {
            assert(ep =~= Seq::<u8>::empty());
            lemma_space_at(line, line.len() as int);
            assert(line.subrange(0, line.len() as int) =~= reqvote_rest());
        },
        FrameView::Vote(c) => {
            let word = seq![79u8, 84u8, 69u8];
            assert(line =~= word + seq![32u8] + ep);
            lemma_field_line(word, ep);
            assert(word =~= vote_rest());
            assert(text_of(ep) == Some(c));
        },
        FrameView::AddServer(a) => {
            let word = seq![68u8, 68u8, 83u8, 69u8, 82u8, 86u8, 69u8, 82u8];
            assert(line =~= word + seq![32u8] + ep);
            lemma_field_line(word, ep);
            assert(text_of(ep) == Some(a));
        },
    }
}

/// Bytes whose first byte is not a tag byte are a protocol violation however much
/// of the line has arrived, so the connection that sent them closes.
pub proof fn lemma_unknown_tag_rejected(s: Seq<u8>)
    requires
        s.len() > 0,
        !is_tag(s[0]),
    ensures
        decode_at(s, 0) == Decoded::Invalid,
{
}

/// A well-formed frame's bytes decode to exactly that frame, whatever bytes follow
/// them, and every shorter prefix of them decodes to "incomplete". So a frame that
/// arrives split over several reads, down to one byte at a time, is taken from the
/// buffer once, whole, when its last byte arrives, and the bytes after it stay.
pub proof fn lemma_frame_survives_split(f: FrameView, rest: Seq<u8>, n: int)
    requires
        well_formed(f),
        0 <= n < wire(f).len(),
    ensures
        decode_at(wire(f).take(n), 0) == Decoded::Incomplete,
        decode_at(wire(f) + rest, 0) == Decoded::Complete(f, wire(f).len() as int),
        (wire(f) + rest).skip(wire(f).len() as int) == rest,
{
    let w = wire(f);
    lemma_only_terminator(f);
    lemma_terminator(w, rest, n);
    lemma_line_parses(f);
    let s = w + rest;
    assert(s[0] == w[0]);
    assert(s.subrange(1, w.len() - 2) =~= w.subrange(1, w.len() - 2));
    if n > 0 {
        assert(w.take(n)[0] == w[0]);
    }
    assert(s.skip(w.len() as int) =~= rest);
}

/// A write of `k` to `v` and then a read of `k`, sent back to back on one
/// connection, come out of the buffer as those two frames, in order, with nothing
/// left over but what followed them; they are answered with the bytes `OK\r\n`
/// and then `VALUE `, `v`, `\r\n`.
pub proof fn lemma_write_then_read_on_the_wire(
    m: Map<Seq<char>, Seq<char>>,
    k: Seq<char>,
    v: Seq<char>,
    rest: Seq<u8>,
)
    requires
        well_formed(FrameView::Write(k, v)),
    ensures
        decode_at(wire(FrameView::Write(k, v)) + wire(FrameView::Read(k)) + rest, 0)
            == Decoded::Complete(FrameView::Write(k, v), wire(FrameView::Write(k, v)).len() as int),
        (wire(FrameView::Write(k, v)) + wire(FrameView::Read(k)) + rest).skip(
            wire(FrameView::Write(k, v)).len() as int,
        ) == wire(FrameView::Read(k)) + rest,
        decode_at(wire(FrameView::Read(k)) + rest, 0) == Decoded::Complete(
            FrameView::Read(k),
            wire(FrameView::Read(k)).len() as int,
        ),
        (wire(FrameView::Read(k)) + rest).skip(wire(FrameView::Read(k)).len() as int) == rest,
        wire(reply(m, FrameView::Write(k, v))) == wire(FrameView::Success),
        wire(reply(apply(m, FrameView::Write(k, v)), FrameView::Read(k))) == wire(
            FrameView::Value(v),
        ),
{
    let w = wire(FrameView::Write(k, v));
    let r = wire(FrameView::Read(k));
    assert(w + r + rest =~= w + (r + rest));
    lemma_frame_survives_split(FrameView::Write(k, v), r + rest, 0);
    lemma_frame_survives_split(FrameView::Read(k), rest, 0);
    lemma_write_then_read(m, k, v);
}

} // verus!
