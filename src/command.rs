use vstd::prelude::*;
use vstd::string::*;
use vstd::utf8::*;

verus! {

broadcast use {encode_utf8_decode_utf8, encode_utf8_valid_utf8};

/// One complete protocol message, exchanged as one `\r\n`-terminated line.
#[derive(Clone, Debug, PartialEq)]
pub enum Frame {
    Read(String),
    Write(String, String),
    Success,
    Value(String),
    Error(String),
    RequestVote,
    Vote(String),
    AddServer(String),
}

/// The mathematical value of a [`Frame`]: each text field as its characters.
pub enum FrameView {
    Read(Seq<char>),
    Write(Seq<char>, Seq<char>),
    Success,
    Value(Seq<char>),
    Error(Seq<char>),
    RequestVote,
    Vote(Seq<char>),
    AddServer(Seq<char>),
}

impl View for Frame {
    type V = FrameView;

    open spec fn view(&self) -> FrameView {
        match self {
            Frame::Read(k) => FrameView::Read(k@),
            Frame::Write(k, v) => FrameView::Write(k@, v@),
            Frame::Success => FrameView::Success,
            Frame::Value(v) => FrameView::Value(v@),
            Frame::Error(e) => FrameView::Error(e@),
            Frame::RequestVote => FrameView::RequestVote,
            Frame::Vote(c) => FrameView::Vote(c@),
            Frame::AddServer(a) => FrameView::AddServer(a@),
        }
    }
}

/// Why a frame could not be taken from a buffer.
#[derive(Clone, Debug, PartialEq)]
pub enum CmdError {
    /// Not enough bytes yet: buffer more and try again.
    Incomplete,
    /// A protocol violation; the connection must close.
    Other(String),
}

/// True when a `\r\n` terminator starts at index `i` of `s`.
pub open spec fn crlf_at(s: Seq<u8>, i: int) -> bool {
    0 <= i && i + 1 < s.len() && s[i] == 13u8 && s[i + 1] == 10u8
}

/// The index of the first `\r\n` terminator of `s` that starts at or after `from`.
pub open spec fn find_crlf(s: Seq<u8>, from: int) -> Option<int>
    decreases s.len() - from,
{
    if from < 0 || from + 1 >= s.len() {
        None
    } else if crlf_at(s, from) {
        Some(from)
    } else {
        find_crlf(s, from + 1)
    }
}

/// What [`find_crlf`] finds is a terminator with none before it; when it finds
/// none, there is none.
pub proof fn lemma_find_crlf_bounds(s: Seq<u8>, from: int)
    requires
        0 <= from,
    ensures
        find_crlf(s, from) matches Some(i) ==> from <= i && crlf_at(s, i) && forall|j: int|
            from <= j < i ==> !crlf_at(s, j),
        find_crlf(s, from) is None ==> forall|j: int| from <= j ==> !crlf_at(s, j),
    decreases s.len() - from,
{
    if from + 1 < s.len() && !crlf_at(s, from) {
        lemma_find_crlf_bounds(s, from + 1);
    }
}

/// Reads the byte at `*pos` and moves past it.
pub fn get_u8(src: &[u8], pos: &mut usize) -> (r: Result<u8, CmdError>)
    ensures
        *old(pos) < src@.len() ==> r == Ok::<u8, CmdError>(src@[*old(pos) as int]) && *final(pos)
            == *old(pos) + 1,
        *old(pos) >= src@.len() ==> r == Err::<u8, CmdError>(CmdError::Incomplete) && *final(pos)
            == *old(pos),
{
    if *pos >= src.len() {
        return Err(CmdError::Incomplete);
    }
    let b = src[*pos];
    *pos = *pos + 1;
    Ok(b)
}

/// Takes the line that starts at `*pos`, up to the first `\r\n`, and moves past
/// the terminator; without a terminator nothing moves.
pub fn get_line<'a>(src: &'a [u8], pos: &mut usize) -> (r: Result<&'a [u8], CmdError>)
    ensures
        match find_crlf(src@, *old(pos) as int) {
            Some(i) => {
                &&& r matches Ok(line) && line@ == src@.subrange(*old(pos) as int, i)
                &&& *final(pos) == i + 2
            },
            None => r == Err::<&[u8], CmdError>(CmdError::Incomplete) && *final(pos) == *old(pos),
        },
{
    let start: usize = *pos;
    let len: usize = src.len();
    if start > len {
        return Err(CmdError::Incomplete);
    }
    let mut i: usize = start;
    while len - i >= 2
        invariant
            start <= i <= len,
            start <= len,
            len == src@.len(),
            *pos == start,
            *old(pos) == start,
            find_crlf(src@, start as int) == find_crlf(src@, i as int),
        decreases len - i,
    {
        if src[i] == 13u8 && src[i + 1] == 10u8 {
            *pos = i + 2;
            return Ok(&src[start..i]);
        }
        i = i + 1;
    }
    Err(CmdError::Incomplete)
}

pub const TAG_READ: u8 = 82;

pub const TAG_WRITE: u8 = 87;

pub const TAG_OK: u8 = 79;

pub const TAG_VALUE: u8 = 86;

pub const TAG_GET: u8 = 71;

pub const TAG_ERR: u8 = 69;

pub const TAG_ADD_SERVER: u8 = 65;

pub const SPACE: u8 = 32;

/// The tag bytes that open a frame: `R`, `W`, `O`, `V`, `G`, `E` and `A`.
pub open spec fn is_tag(b: u8) -> bool {
    b == TAG_READ || b == TAG_WRITE || b == TAG_OK || b == TAG_VALUE || b == TAG_GET || b
        == TAG_ERR || b == TAG_ADD_SERVER
}

/// The index of the first space of `l` at or after `from`, or `l.len()` if none.
pub open spec fn space_index(l: Seq<u8>, from: int) -> int
    decreases l.len() - from,
{
    if from < 0 || from >= l.len() {
        l.len() as int
    } else if l[from] == SPACE {
        from
    } else {
        space_index(l, from + 1)
    }
}

/// What [`space_index`] finds is a space with none before it, or the end.
pub proof fn lemma_space_index_bounds(l: Seq<u8>, from: int)
    requires
        0 <= from <= l.len(),
    ensures
        from <= space_index(l, from) <= l.len(),
        space_index(l, from) < l.len() ==> l[space_index(l, from)] == SPACE,
        forall|j: int| from <= j < space_index(l, from) ==> l[j] != SPACE,
    decreases l.len() - from,
{
    if from < l.len() && l[from] != SPACE {
        lemma_space_index_bounds(l, from + 1);
    }
}

/// The characters that a field's bytes encode, when they are well-formed UTF-8.
pub open spec fn text_of(b: Seq<u8>) -> Option<Seq<char>> {
    if valid_utf8(b) {
        Some(decode_utf8(b))
    } else {
        None
    }
}

/// What follows the first space of a line (the line's fields), if it has a space.
pub open spec fn fields_of(l: Seq<u8>) -> Option<Seq<u8>> {
    let sp = space_index(l, 0);
    if sp < l.len() {
        Some(l.subrange(sp + 1, l.len() as int))
    } else {
        None
    }
}

/// The single text field of a line: everything after its first space.
pub open spec fn field_text(l: Seq<u8>) -> Option<Seq<char>> {
    match fields_of(l) {
        Some(f) => text_of(f),
        None => None,
    }
}

/// The rest of the tag word `REQVOTE` after its tag byte.
pub open spec fn reqvote_rest() -> Seq<u8> {
    seq![69u8, 81u8, 86u8, 79u8, 84u8, 69u8]
}

/// The rest of the tag word `VOTE` after its tag byte.
pub open spec fn vote_rest() -> Seq<u8> {
    seq![79u8, 84u8, 69u8]
}

/// The frame that a line holds, given its tag byte and the bytes between the tag
/// byte and the terminator; `None` where the line is not UTF-8 (which only `OK`
/// does not read) or a field is missing.
pub open spec fn parse_line(tag: u8, l: Seq<u8>) -> Option<FrameView> {
    let word = l.subrange(0, space_index(l, 0));
    if tag == TAG_OK {
        Some(FrameView::Success)
    } else if !valid_utf8(l) {
        None
    } else if tag == TAG_READ && word == reqvote_rest() {
        Some(FrameView::RequestVote)
    } else if tag == TAG_WRITE {
        match fields_of(l) {
            Some(f) => {
                let k = space_index(f, 0);
                let value = if k < f.len() {
                    f.subrange(k + 1, f.len() as int)
                } else {
                    Seq::empty()
                };
                match (text_of(f.subrange(0, k)), text_of(value)) {
                    (Some(a), Some(b)) => Some(FrameView::Write(a, b)),
                    _ => None,
                }
            },
            None => None,
        }
    } else {
        match field_text(l) {
            Some(t) => if tag == TAG_READ {
                Some(FrameView::Read(t))
            } else if tag == TAG_VALUE && word == vote_rest() {
                Some(FrameView::Vote(t))
            } else if tag == TAG_VALUE || tag == TAG_GET {
                Some(FrameView::Value(t))
            } else if tag == TAG_ERR {
                Some(FrameView::Error(t))
            } else if tag == TAG_ADD_SERVER {
                Some(FrameView::AddServer(t))
            } else {
                None
            },
            None => None,
        }
    }
}

/// What scanning for a frame that starts at a given offset finds, without decoding it.
pub enum Scan {
    /// No terminator yet.
    Incomplete,
    /// The first byte is not a tag byte.
    Malformed,
    /// A whole line, ending just before the given offset.
    Complete(int),
}

/// The outcome of [`Frame::check`] on `s` from offset `p`.
pub open spec fn scan(s: Seq<u8>, p: int) -> Scan {
    if p >= s.len() {
        Scan::Incomplete
    } else if !is_tag(s[p]) {
        Scan::Malformed
    } else {
        match find_crlf(s, p + 1) {
            Some(i) => Scan::Complete(i + 2),
            None => Scan::Incomplete,
        }
    }
}

/// What decoding a frame that starts at a given offset gives.
pub enum Decoded {
    /// No complete line yet: more bytes are needed.
    Incomplete,
    /// A protocol violation: an unknown tag byte, a missing field or bad UTF-8.
    Invalid,
    /// A frame, whose line ends just before the given offset.
    Complete(FrameView, int),
}

/// The outcome of [`Frame::parse`] on `s` from offset `p`.
pub open spec fn decode_at(s: Seq<u8>, p: int) -> Decoded {
    if p >= s.len() {
        Decoded::Incomplete
    } else if !is_tag(s[p]) {
        Decoded::Invalid
    } else {
        match find_crlf(s, p + 1) {
            Some(i) => match parse_line(s[p], s.subrange(p + 1, i)) {
                Some(f) => Decoded::Complete(f, i + 2),
                None => Decoded::Invalid,
            },
            None => Decoded::Incomplete,
        }
    }
}

/// The message of the error for a line that is not UTF-8.
pub open spec fn utf8_error_text() -> Seq<char> {
    "protocol error, invalid format (fromUtf8)"@
}

/// True when a complete line at `p`, with a tag byte other than `O`, is not UTF-8.
pub open spec fn bad_text_at(s: Seq<u8>, p: int) -> bool {
    &&& 0 <= p < s.len()
    &&& is_tag(s[p])
    &&& s[p] != TAG_OK
    &&& find_crlf(s, p + 1) matches Some(i) && !valid_utf8(s.subrange(p + 1, i))
}

/// Relies on `std::str::from_utf8`: it accepts exactly the well-formed UTF-8 byte
/// strings, and the `str` it returns is made of the same bytes.
#[verifier::external_body]
fn utf8_str(bytes: &[u8]) -> (r: Option<&str>)
    ensures
        r is Some <==> valid_utf8(bytes@),
        r matches Some(s) ==> s.spec_bytes() == bytes@,
{
    std::str::from_utf8(bytes).ok()
}

/// Decodes a field's bytes as text.
fn text(bytes: &[u8]) -> (r: Option<String>)
    ensures
        match text_of(bytes@) {
            Some(t) => r matches Some(s) && s@ == t,
            None => r is None,
        },
{
    match utf8_str(bytes) {
        Some(s) => {
            assert(decode_utf8(encode_utf8(s@)) == s@);
            Some(s.to_owned())
        },
        None => None,
    }
}

/// The index of the first space of `l` at or after `from`, or `l.len()` if none.
fn find_space(l: &[u8], from: usize) -> (r: usize)
    requires
        from <= l@.len(),
    ensures
        r == space_index(l@, from as int),
{
    let mut i: usize = from;
    while i < l.len()
        invariant
            from <= i <= l@.len(),
            space_index(l@, from as int) == space_index(l@, i as int),
        decreases l@.len() - i,
    {
        if l[i] == SPACE {
            return i;
        }
        i = i + 1;
    }
    i
}

fn protocol_error(message: &str) -> (r: CmdError)
    ensures
        r matches CmdError::Other(m) && m@ == message@,
{
    CmdError::Other(message.to_owned())
}

/// Decodes the line of a frame: its tag byte, then the bytes up to the terminator.
fn parse_line_bytes(tag: u8, l: &[u8]) -> (r: Option<Frame>)
    requires
        tag == TAG_OK || valid_utf8(l@),
    ensures
        match parse_line(tag, l@) {
            Some(f) => r matches Some(fr) && fr@ == f,
            None => r is None,
        },
{
    let sp = find_space(l, 0);
    proof {
        lemma_space_index_bounds(l@, 0);
    }
    let word = &l[0..sp];
    if tag == TAG_OK {
        return Some(Frame::Success);
    }
    if tag == TAG_READ && word.len() == 6 && word[0] == 69u8 && word[1] == 81u8 && word[2] == 86u8
        && word[3] == 79u8 && word[4] == 84u8 && word[5] == 69u8 {
        assert(word@ =~= reqvote_rest());
        return Some(Frame::RequestVote);
    }
    if sp >= l.len() {
        return None;
    }
    let fields = &l[sp + 1..l.len()];
    if tag == TAG_WRITE {
        let k = find_space(fields, 0);
        proof {
            lemma_space_index_bounds(fields@, 0);
        }
        let key = match text(&fields[0..k]) {
            Some(t) => t,
            None => return None,
        };
        let value = if k < fields.len() {
            text(&fields[k + 1..fields.len()])
        } else {
            assert(Seq::<u8>::empty() == encode_utf8(Seq::<char>::empty()));
            Some(String::new())
        };
        return match value {
            Some(v) => Some(Frame::Write(key, v)),
            None => None,
        };
    }
    let t = match text(fields) {
        Some(t) => t,
        None => return None,
    };
    let is_vote = word.len() == 3 && word[0] == 79u8 && word[1] == 84u8 && word[2] == 69u8;
    assert(is_vote <==> word@ == vote_rest()) by {
        if is_vote {
            assert(word@ =~= vote_rest());
        }
    }
    if tag == TAG_READ {
        Some(Frame::Read(t))
    } else if tag == TAG_VALUE && is_vote {
        Some(Frame::Vote(t))
    } else if tag == TAG_VALUE || tag == TAG_GET {
        Some(Frame::Value(t))
    } else if tag == TAG_ERR {
        Some(Frame::Error(t))
    } else if tag == TAG_ADD_SERVER {
        Some(Frame::AddServer(t))
    } else {
        None
    }
}

/// The terminator `\r\n` as characters.
pub open spec fn crlf_text() -> Seq<char> {
    seq!['\r', '\n']
}

/// The line that renders a frame, terminator included.
pub open spec fn encode_text(f: FrameView) -> Seq<char> {
    match f {
        FrameView::Read(k) => seq!['R', 'E', 'A', 'D', ' '] + k + crlf_text(),
        FrameView::Write(k, v) => seq!['W', 'R', 'I', 'T', 'E', ' '] + k + seq![' '] + v
            + crlf_text(),
        FrameView::Success => seq!['O', 'K'] + crlf_text(),
        FrameView::Value(v) => seq!['V', 'A', 'L', 'U', 'E', ' '] + v + crlf_text(),
        FrameView::Error(e) => seq!['E', 'R', 'R', ' '] + e + crlf_text(),
        FrameView::RequestVote => seq!['R', 'E', 'Q', 'V', 'O', 'T', 'E'] + crlf_text(),
        FrameView::Vote(c) => seq!['V', 'O', 'T', 'E', ' '] + c + crlf_text(),
        FrameView::AddServer(a) => seq!['A', 'D', 'D', 'S', 'E', 'R', 'V', 'E', 'R', ' '] + a
            + crlf_text(),
    }
}

/// The bytes that carry a frame on the wire.
pub open spec fn wire(f: FrameView) -> Seq<u8> {
    encode_utf8(encode_text(f))
}

/// Renders `head`, then `field`, then the terminator.
fn line_with(head: &str, field: &str) -> (r: String)
    ensures
        r@ == head@ + field@ + crlf_text(),
{
    let mut s = String::from_str(head);
    s.append(field);
    s.append("\r\n");
    proof {
        reveal_strlit("\r\n");
        assert("\r\n"@ =~= crlf_text());
    }
    s
}

impl Frame {
    /// Renders the frame as its wire line, `\r\n` included.
    pub fn to_string(&self) -> (r: String)
        ensures
            r@ == encode_text(self@),
    {
        match self {
            Frame::Read(k) => {
                proof {
                    reveal_strlit("READ ");
                }
                let r = line_with("READ ", k.as_str());
                assert("READ "@ =~= seq!['R', 'E', 'A', 'D', ' ']);
                r
            },
            Frame::Write(k, v) => {
                let mut s = String::from_str("WRITE ");
                s.append(k.as_str());
                s.append(" ");
                let r = line_with(s.as_str(), v.as_str());
                proof {
                    reveal_strlit("WRITE ");
                    reveal_strlit(" ");
                }
                assert("WRITE "@ =~= seq!['W', 'R', 'I', 'T', 'E', ' ']);
                assert(" "@ =~= seq![' ']);
                r
            },
            Frame::Success => {
                proof {
                    reveal_strlit("OK");
                }
                let r = line_with("OK", "");
                proof {
                    reveal_strlit("");
                }
                assert("OK"@ + ""@ =~= seq!['O', 'K']);
                r
            },
            Frame::Value(v) => {
                proof {
                    reveal_strlit("VALUE ");
                }
                let r = line_with("VALUE ", v.as_str());
                assert("VALUE "@ =~= seq!['V', 'A', 'L', 'U', 'E', ' ']);
                r
            },
            Frame::Error(e) => {
                proof {
                    reveal_strlit("ERR ");
                }
                let r = line_with("ERR ", e.as_str());
                assert("ERR "@ =~= seq!['E', 'R', 'R', ' ']);
                r
            },
            Frame::RequestVote => {
                proof {
                    reveal_strlit("REQVOTE");
                    reveal_strlit("");
                }
                let r = line_with("REQVOTE", "");
                assert("REQVOTE"@ + ""@ =~= seq!['R', 'E', 'Q', 'V', 'O', 'T', 'E']);
                r
            },
            Frame::Vote(c) => {
                proof {
                    reveal_strlit("VOTE ");
                }
                let r = line_with("VOTE ", c.as_str());
                assert("VOTE "@ =~= seq!['V', 'O', 'T', 'E', ' ']);
                r
            },
            Frame::AddServer(a) => {
                proof {
                    reveal_strlit("ADDSERVER ");
                }
                let r = line_with("ADDSERVER ", a.as_str());
                assert("ADDSERVER "@ =~= seq!['A', 'D', 'D', 'S', 'E', 'R', 'V', 'E', 'R', ' ']);
                r
            },
        }
    }

    /// Scans for a complete frame at `*pos` without decoding it. On success `*pos`
    /// ends just past the frame's terminator.
    pub fn check(src: &[u8], pos: &mut usize) -> (r: Result<(), CmdError>)
        ensures
            match scan(src@, *old(pos) as int) {
                Scan::Incomplete => r == Err::<(), CmdError>(CmdError::Incomplete),
                Scan::Malformed => r matches Err(CmdError::Other(_)),
                Scan::Complete(end) => r is Ok && *final(pos) == end,
            },
    {
        let tag = get_u8(src, pos)?;
        if !(tag == TAG_READ || tag == TAG_WRITE || tag == TAG_OK || tag == TAG_VALUE || tag
            == TAG_GET || tag == TAG_ERR || tag == TAG_ADD_SERVER) {
            return Err(protocol_error("protocol error, unexpected tag byte"));
        }
        get_line(src, pos)?;
        Ok(())
    }

    /// Decodes the frame at `*pos`. On success `*pos` ends just past the frame's
    /// terminator.
    pub fn parse(src: &[u8], pos: &mut usize) -> (r: Result<Frame, CmdError>)
        ensures
            match decode_at(src@, *old(pos) as int) {
                Decoded::Incomplete => r == Err::<Frame, CmdError>(CmdError::Incomplete),
                Decoded::Invalid => r matches Err(CmdError::Other(_)),
                Decoded::Complete(f, end) => r matches Ok(fr) && fr@ == f && *final(pos) == end,
            },
            bad_text_at(src@, *old(pos) as int) ==> (r matches Err(CmdError::Other(m)) && m@
                == utf8_error_text()),
    {
        let start = *pos;
        let tag = get_u8(src, pos)?;
        if !(tag == TAG_READ || tag == TAG_WRITE || tag == TAG_OK || tag == TAG_VALUE || tag
            == TAG_GET || tag == TAG_ERR || tag == TAG_ADD_SERVER) {
            return Err(protocol_error("protocol error, unexpected tag byte"));
        }
        let line = get_line(src, pos)?;
        if tag != TAG_OK && utf8_str(line).is_none() {
            return Err(protocol_error("protocol error, invalid format (fromUtf8)"));
        }
        match parse_line_bytes(tag, line) {
            Some(f) => Ok(f),
            None => Err(protocol_error("protocol error, invalid format")),
        }
    }
}

} // verus!
