//! Composing, decoding, and encoding DNS messages.

use vstd::prelude::*;

use crate::idna::{ascii_form, to_ascii, to_unicode, unicode_form};
use crate::record::{Record, class_code, class_of, record_type_code, record_type_of, Class, RecordType};
use crate::text::chars_of;
use vstd::string::*;
use vstd::utf8::is_ascii_chars;

verus! {

/// Maximum size of a DNS message, in bytes.
pub const MESSAGE_LIMIT: usize = 512;

/// Maximum length of a name segment (i.e. a `.`-separated identifier).
pub const LABEL_LIMIT: usize = 63;

/// Maximum total length of a name, in encoded format.
pub const NAME_LIMIT: usize = 255;

/// Represents an error in decoding a DNS message.
#[derive(Copy, Clone, Debug, PartialEq, Eq, Structural)]
pub enum DecodeError {
    /// Extraneous data encountered at the end of message
    ExtraneousData,
    /// Message end was encountered before expected
    ShortMessage,
    /// Unable to decode invalid data
    InvalidMessage,
    /// An invalid name was encountered
    InvalidName,
}

impl DecodeError {
    /// Returns a short description of the error.
    pub fn description(&self) -> (r: &'static str)
        ensures
            r@ == crate::socket::decode_text(*self)@,
    {
        match *self {
            DecodeError::ExtraneousData => "extraneous data",
            DecodeError::ShortMessage => "short message",
            DecodeError::InvalidMessage => "invalid message",
            DecodeError::InvalidName => "invalid name",
        }
    }
}

/// Represents an error in encoding a DNS message.
#[derive(Copy, Clone, Debug, PartialEq, Eq, Structural)]
pub enum EncodeError {
    /// A name or label was too long or contained invalid characters
    InvalidName,
    /// Message exceeded given buffer or `MESSAGE_LIMIT` bytes
    TooLong,
}

impl EncodeError {
    /// Returns a short description of the error.
    pub fn description(&self) -> (r: &'static str)
        ensures
            r@ == crate::socket::encode_text(*self)@,
    {
        match *self {
            EncodeError::InvalidName => "invalid name value",
            EncodeError::TooLong => "message too long",
        }
    }
}

/// The value of two bytes read in network byte order.
pub open spec fn be_u16(hi: u8, lo: u8) -> u16 {
    (hi as int * 256 + lo as int) as u16
}

/// The value of four bytes read in network byte order.
pub open spec fn be_u32(b: Seq<u8>) -> u32 {
    (((b[0] as int * 256 + b[1] as int) * 256 + b[2] as int) * 256 + b[3] as int) as u32
}

/// The two bytes of a `u16` in network byte order.
pub open spec fn u16_bytes(x: u16) -> Seq<u8> {
    seq![(x / 256) as u8, (x % 256) as u8]
}

/// The four bytes of a `u32` in network byte order.
pub open spec fn u32_bytes(x: u32) -> Seq<u8> {
    seq![(x / 0x1000000) as u8, ((x / 0x10000) % 256) as u8, ((x / 256) % 256) as u8, (x % 256) as u8]
}

/// A character-string at `pos`: a length octet and that many bytes.
pub open spec fn parse_character_string(msg: Seq<u8>, pos: int) -> Result<(Seq<u8>, int), DecodeError> {
    if pos >= msg.len() {
        Err(DecodeError::ShortMessage)
    } else if pos + 1 + msg[pos] > msg.len() {
        Err(DecodeError::ShortMessage)
    } else {
        Ok((msg.subrange(pos + 1, pos + 1 + msg[pos]), pos + 1 + msg[pos]))
    }
}

/// Reads a single DNS message from a series of bytes.
pub struct MsgReader<'a> {
    data: &'a [u8],
    pos: usize,
}

impl<'a> MsgReader<'a> {
    /// The whole message being read.
    pub closed spec fn bytes(&self) -> Seq<u8> {
        self.data@
    }

    /// The offset of the next byte to be read.
    pub closed spec fn position(&self) -> int {
        self.pos as int
    }

    /// The read position lies within the message.
    pub open spec fn wf(&self) -> bool {
        0 <= self.position() <= self.bytes().len()
    }

    /// The bytes not read yet.
    pub open spec fn rest(&self) -> Seq<u8> {
        self.bytes().subrange(self.position(), self.bytes().len() as int)
    }

    /// Constructs a new message reader.
    pub fn new(data: &'a [u8]) -> (r: MsgReader<'a>)
        ensures
            r.wf(),
            r.bytes() == data@,
            r.position() == 0,
    {
        MsgReader { data, pos: 0 }
    }

    /// Returns the number of bytes remaining in the message.
    pub fn remaining(&self) -> (r: usize)
        requires
            self.wf(),
        ensures
            r == self.bytes().len() - self.position(),
    {
        self.data.len() - self.pos
    }

    /// Reads a number of bytes equal to the length of the given buffer.
    /// Returns `Err(ShortMessage)` if there are not enough bytes remaining.
    pub fn read(&mut self, buf: &mut [u8]) -> (r: Result<(), DecodeError>)
        requires
            old(self).wf(),
        ensures
            final(self).wf(),
            final(self).bytes() == old(self).bytes(),
            final(buf)@.len() == old(buf)@.len(),
            old(self).position() + old(buf)@.len() <= old(self).bytes().len() ==> {
                &&& r is Ok
                &&& final(buf)@ == old(self).bytes().subrange(
                    old(self).position(),
                    old(self).position() + old(buf)@.len(),
                )
                &&& final(self).position() == old(self).position() + old(buf)@.len()
            },
            old(self).position() + old(buf)@.len() > old(self).bytes().len() ==> {
                &&& r == Err::<(), DecodeError>(DecodeError::ShortMessage)
                &&& final(self).position() == old(self).position()
            },
    {
        let n = buf.len();
        if n > self.data.len() - self.pos {
            return Err(DecodeError::ShortMessage);
        }
        let mut i: usize = 0;
        while i < n
            invariant
                self.wf(),
                self.data@ == old(self).bytes(),
                self.pos == old(self).position(),
                self.pos + n <= self.data@.len() <= usize::MAX,
                n == buf@.len(),
                i <= n,
                forall|k: int|
                    0 <= k < i ==> #[trigger] buf@[k] == self.data@[self.pos + k],
            decreases n - i,
        {
            buf[i] = self.data[self.pos + i];
            i = i + 1;
        }
        assert(buf@ =~= self.data@.subrange(self.pos as int, self.pos + n));
        self.pos = self.pos + n;
        Ok(())
    }

    /// Reads a single byte from the message.
    pub fn read_byte(&mut self) -> (r: Result<u8, DecodeError>)
        requires
            old(self).wf(),
        ensures
            final(self).wf(),
            final(self).bytes() == old(self).bytes(),
            old(self).position() < old(self).bytes().len() ==> {
                &&& r == Ok::<u8, DecodeError>(old(self).bytes()[old(self).position()])
                &&& final(self).position() == old(self).position() + 1
            },
            old(self).position() >= old(self).bytes().len() ==> {
                &&& r == Err::<u8, DecodeError>(DecodeError::ShortMessage)
                &&& final(self).position() == old(self).position()
            },
    {
        if self.pos < self.data.len() {
            let b = self.data[self.pos];
            self.pos = self.pos + 1;
            Ok(b)
        } else {
            Err(DecodeError::ShortMessage)
        }
    }

    /// Reads `n` bytes as a new vector.
    fn take(&mut self, n: usize) -> (r: Result<Vec<u8>, DecodeError>)
        requires
            old(self).wf(),
        ensures
            final(self).wf(),
            final(self).bytes() == old(self).bytes(),
            old(self).position() + n <= old(self).bytes().len() ==> {
                &&& r matches Ok(v) && v@ == old(self).bytes().subrange(
                    old(self).position(),
                    old(self).position() + n,
                )
                &&& final(self).position() == old(self).position() + n
            },
            old(self).position() + n > old(self).bytes().len() ==> {
                &&& r == Err::<Vec<u8>, DecodeError>(DecodeError::ShortMessage)
                &&& final(self).position() == old(self).position()
            },
    {
        if n > self.data.len() - self.pos {
            return Err(DecodeError::ShortMessage);
        }
        let mut v: Vec<u8> = Vec::new();
        let mut i: usize = 0;
        while i < n
            invariant
                self.wf(),
                self.data@ == old(self).bytes(),
                self.pos == old(self).position(),
                self.pos + n <= self.data@.len() <= usize::MAX,
                i <= n,
                v@ == self.data@.subrange(self.pos as int, self.pos + i),
            decreases n - i,
        {
            v.push(self.data[self.pos + i]);
            i = i + 1;
            assert(v@ =~= self.data@.subrange(self.pos as int, self.pos + i));
        }
        self.pos = self.pos + n;
        Ok(v)
    }

    /// Reads all remaining bytes.
    pub fn read_to_end(&mut self) -> (r: Result<Vec<u8>, DecodeError>)
        requires
            old(self).wf(),
        ensures
            final(self).wf(),
            final(self).bytes() == old(self).bytes(),
            r matches Ok(v) && v@ == old(self).rest(),
            final(self).position() == old(self).bytes().len(),
    {
        let n = self.remaining();
        self.take(n)
    }

    /// Read a character-string: a single length octet followed by that
    /// many bytes of binary data.
    pub fn read_character_string(&mut self) -> (r: Result<Vec<u8>, DecodeError>)
        requires
            old(self).wf(),
        ensures
            final(self).wf(),
            final(self).bytes() == old(self).bytes(),
            match parse_character_string(old(self).bytes(), old(self).position()) {
                Ok((v, p)) => r matches Ok(x) && x@ == v && final(self).position() == p,
                Err(e) => r matches Err(x) && x == e,
            },
    {
        let len = self.read_byte()?;
        self.take(len as usize)
    }

    /// Reads a big-endian unsigned 16 bit integer.
    pub fn read_u16(&mut self) -> (r: Result<u16, DecodeError>)
        requires
            old(self).wf(),
        ensures
            final(self).wf(),
            final(self).bytes() == old(self).bytes(),
            old(self).position() + 2 <= old(self).bytes().len() ==> {
                &&& r == Ok::<u16, DecodeError>(be_u16(
                    old(self).bytes()[old(self).position()],
                    old(self).bytes()[old(self).position() + 1],
                ))
                &&& final(self).position() == old(self).position() + 2
            },
            old(self).position() + 2 > old(self).bytes().len() ==> r == Err::<u16, DecodeError>(
                DecodeError::ShortMessage,
            ),
    {
        if self.data.len() - self.pos < 2 {
            return Err(DecodeError::ShortMessage);
        }
        let hi = self.data[self.pos] as u16;
        let lo = self.data[self.pos + 1] as u16;
        self.pos = self.pos + 2;
        Ok(hi * 256 + lo)
    }

    /// Reads a big-endian unsigned 32 bit integer.
    pub fn read_u32(&mut self) -> (r: Result<u32, DecodeError>)
        requires
            old(self).wf(),
        ensures
            final(self).wf(),
            final(self).bytes() == old(self).bytes(),
            old(self).position() + 4 <= old(self).bytes().len() ==> {
                &&& r == Ok::<u32, DecodeError>(be_u32(
                    old(self).bytes().subrange(old(self).position(), old(self).position() + 4),
                ))
                &&& final(self).position() == old(self).position() + 4
            },
            old(self).position() + 4 > old(self).bytes().len() ==> r == Err::<u32, DecodeError>(
                DecodeError::ShortMessage,
            ),
    {
        if self.data.len() - self.pos < 4 {
            return Err(DecodeError::ShortMessage);
        }
        let b0 = self.data[self.pos] as u32;
        let b1 = self.data[self.pos + 1] as u32;
        let b2 = self.data[self.pos + 2] as u32;
        let b3 = self.data[self.pos + 3] as u32;
        self.pos = self.pos + 4;
        Ok(((b0 * 256 + b1) * 256 + b2) * 256 + b3)
    }

    /// Reads `n` bytes, which are inserted at the end of the given buffer.
    pub fn read_into(&mut self, buf: &mut Vec<u8>, n: usize) -> (r: Result<(), DecodeError>)
        requires
            old(self).wf(),
        ensures
            final(self).wf(),
            final(self).bytes() == old(self).bytes(),
            old(self).position() + n <= old(self).bytes().len() ==> {
                &&& r is Ok
                &&& final(buf)@ == old(buf)@ + old(self).bytes().subrange(
                    old(self).position(),
                    old(self).position() + n,
                )
                &&& final(self).position() == old(self).position() + n
            },
            old(self).position() + n > old(self).bytes().len() ==> {
                &&& r == Err::<(), DecodeError>(DecodeError::ShortMessage)
                &&& final(buf)@ == old(buf)@
            },
    {
        let mut v = self.take(n)?;
        buf.append(&mut v);
        Ok(())
    }

    /// Called at the end of message parsing. Returns `Err(ExtraneousData)`
    /// if there are any unread bytes remaining.
    pub fn finish(self) -> (r: Result<(), DecodeError>)
        requires
            self.wf(),
        ensures
            r is Ok <==> self.position() == self.bytes().len(),
            r is Err ==> r == Err::<(), DecodeError>(DecodeError::ExtraneousData),
    {
        if self.remaining() == 0 {
            Ok(())
        } else {
            Err(DecodeError::ExtraneousData)
        }
    }
}

/// Writes a single DNS message as a series of bytes.
pub struct MsgWriter<'a> {
    data: &'a mut [u8],
    pos: usize,
}

impl<'a> MsgWriter<'a> {
    /// The bytes written so far.
    pub closed spec fn bytes(&self) -> Seq<u8> {
        self.data@.subrange(0, self.pos as int)
    }

    /// The size of the buffer written into.
    pub closed spec fn capacity(&self) -> int {
        self.data@.len() as int
    }

    /// The most bytes this writer accepts: the buffer's size, and never
    /// more than `MESSAGE_LIMIT`.
    pub open spec fn limit(&self) -> int {
        if self.capacity() < MESSAGE_LIMIT {
            self.capacity()
        } else {
            MESSAGE_LIMIT as int
        }
    }

    /// Whether `n` more bytes fit.
    pub open spec fn fits(&self, n: int) -> bool {
        self.bytes().len() + n <= self.limit()
    }

    /// The written bytes stay within the limit.
    pub closed spec fn wf(&self) -> bool {
        self.pos <= self.data@.len() && self.pos <= MESSAGE_LIMIT
    }

    /// Constructs a new message writer that will write into the given byte slice.
    pub fn new(data: &'a mut [u8]) -> (r: MsgWriter<'a>)
        ensures
            r.wf(),
            r.bytes() == Seq::<u8>::empty(),
            r.capacity() == old(data)@.len(),
    {
        MsgWriter { data, pos: 0 }
    }

    /// Returns the number of bytes written so far.
    pub fn written(&self) -> (r: usize)
        requires
            self.wf(),
        ensures
            r == self.bytes().len(),
            r <= MESSAGE_LIMIT,
    {
        self.pos
    }

    /// Returns a subslice of the wrapped byte slice that contains only the
    /// bytes written.
    pub fn into_bytes(self) -> (r: &'a [u8])
        requires
            self.wf(),
        ensures
            r@ == self.bytes(),
    {
        let n = self.pos;
        let d: &'a [u8] = self.data;
        vstd::slice::slice_subrange(d, 0, n)
    }

    /// Writes a series of bytes to the message. Returns `Err(TooLong)` if the
    /// whole buffer cannot be written; nothing is written then.
    pub fn write(&mut self, data: &[u8]) -> (r: Result<(), EncodeError>)
        requires
            old(self).wf(),
        ensures
            final(self).wf(),
            final(self).capacity() == old(self).capacity(),
            old(self).fits(data@.len() as int) ==> {
                &&& r is Ok
                &&& final(self).bytes() == old(self).bytes() + data@
            },
            !old(self).fits(data@.len() as int) ==> {
                &&& r == Err::<(), EncodeError>(EncodeError::TooLong)
                &&& final(self).bytes() == old(self).bytes()
            },
    {
        let n = data.len();
        if n > MESSAGE_LIMIT - self.pos || n > self.data.len() - self.pos {
            return Err(EncodeError::TooLong);
        }
        let ghost before = self.data@;
        let mut i: usize = 0;
        while i < n
            invariant
                self.wf(),
                self.pos == old(self).pos,
                self.data@.len() == before.len(),
                self.pos + n <= self.data@.len() <= usize::MAX,
                n == data@.len(),
                i <= n,
                self.data@.subrange(0, self.pos as int) == before.subrange(0, self.pos as int),
                forall|k: int| 0 <= k < i ==> #[trigger] self.data@[self.pos + k] == data@[k],
            decreases n - i,
        {
            self.data[self.pos + i] = data[i];
            i = i + 1;
            assert(self.data@.subrange(0, self.pos as int) =~= before.subrange(0, self.pos as int));
        }
        let ghost p = self.pos as int;
        self.pos = self.pos + n;
        assert(self.bytes() =~= old(self).bytes() + data@) by {
            assert forall|k: int| 0 <= k < p implies self.data@[k] == before[k] by {
                assert(self.data@.subrange(0, p)[k] == before.subrange(0, p)[k]);
            }
            assert forall|k: int| p <= k < p + n implies self.data@[k] == data@[k - p] by {
                assert(self.data@[p + (k - p)] == data@[k - p]);
            }
        }
        Ok(())
    }

    /// Writes a single byte to the message.
    pub fn write_byte(&mut self, data: u8) -> (r: Result<(), EncodeError>)
        requires
            old(self).wf(),
        ensures
            final(self).wf(),
            final(self).capacity() == old(self).capacity(),
            old(self).fits(1) ==> {
                &&& r is Ok
                &&& final(self).bytes() == old(self).bytes().push(data)
            },
            !old(self).fits(1) ==> {
                &&& r == Err::<(), EncodeError>(EncodeError::TooLong)
                &&& final(self).bytes() == old(self).bytes()
            },
    {
        let buf = [data];
        let r = self.write(&buf);
        assert(old(self).bytes() + buf@ =~= old(self).bytes().push(data));
        r
    }

    /// Writes an unsigned 16 bit integer in big-endian format.
    pub fn write_u16(&mut self, data: u16) -> (r: Result<(), EncodeError>)
        requires
            old(self).wf(),
        ensures
            final(self).wf(),
            final(self).capacity() == old(self).capacity(),
            old(self).fits(2) ==> {
                &&& r is Ok
                &&& final(self).bytes() == old(self).bytes() + u16_bytes(data)
            },
            !old(self).fits(2) ==> {
                &&& r == Err::<(), EncodeError>(EncodeError::TooLong)
                &&& final(self).bytes() == old(self).bytes()
            },
    {
        let buf = [(data / 256) as u8, (data % 256) as u8];
        assert(buf@ =~= u16_bytes(data));
        self.write(&buf)
    }

    /// Writes an unsigned 32 bit integer in big-endian format.
    pub fn write_u32(&mut self, data: u32) -> (r: Result<(), EncodeError>)
        requires
            old(self).wf(),
        ensures
            final(self).wf(),
            final(self).capacity() == old(self).capacity(),
            old(self).fits(4) ==> {
                &&& r is Ok
                &&& final(self).bytes() == old(self).bytes() + u32_bytes(data)
            },
            !old(self).fits(4) ==> {
                &&& r == Err::<(), EncodeError>(EncodeError::TooLong)
                &&& final(self).bytes() == old(self).bytes()
            },
    {
        let buf = [
            (data / 0x1000000) as u8,
            ((data / 0x10000) % 256) as u8,
            ((data / 256) % 256) as u8,
            (data % 256) as u8,
        ];
        assert(buf@ =~= u32_bytes(data));
        self.write(&buf)
    }
}

/// Whether a character counts as whitespace or as a control character.
pub open spec fn is_space_or_control(c: char) -> bool {
    ||| c <= ' '
    ||| ('\x7f' <= c && c <= '\u{a0}')
    ||| c == '\u{1680}'
    ||| ('\u{2000}' <= c && c <= '\u{200a}')
    ||| c == '\u{2028}'
    ||| c == '\u{2029}'
    ||| c == '\u{202f}'
    ||| c == '\u{205f}'
    ||| c == '\u{3000}'
}

/// The structure of a name: non-empty, no empty label inside, and no
/// leading dot but for the root name `.` itself.
pub open spec fn valid_name_structure(name: Seq<char>) -> bool {
    &&& name.len() != 0
    &&& (name.len() == 1 || name[0] != '.')
    &&& forall|i: int| 0 <= i < name.len() - 1 ==> !(#[trigger] name[i] == '.' && name[i + 1] == '.')
}

/// A segment neither begins nor ends with `-` and holds no whitespace or
/// control character.
pub open spec fn valid_segment(s: Seq<char>) -> bool {
    &&& (s.len() == 0 || (s[0] != '-' && s.last() != '-'))
    &&& forall|i: int| 0 <= i < s.len() ==> !is_space_or_control(#[trigger] s[i])
}

/// A label as it goes on the wire: ASCII, at most `LABEL_LIMIT` bytes, and
/// a valid segment.
pub open spec fn valid_label(a: Seq<char>) -> bool {
    &&& is_ascii_chars(a)
    &&& a.len() <= LABEL_LIMIT
    &&& valid_segment(a)
}

/// Splits text at every `.`: the segments between dots, the last one empty
/// when the text ends with a dot.
pub open spec fn split_dots(s: Seq<char>) -> Seq<Seq<char>>
    decreases s.len(),
{
    if s.len() == 0 {
        seq![Seq::<char>::empty()]
    } else {
        let r = split_dots(s.drop_last());
        if s.last() == '.' {
            r.push(Seq::<char>::empty())
        } else {
            r.update(r.len() - 1, r.last().push(s.last()))
        }
    }
}

/// The bytes of ASCII text.
pub open spec fn ascii_bytes(a: Seq<char>) -> Seq<u8> {
    a.map_values(|c: char| c as u8)
}

/// The ASCII text of bytes.
pub open spec fn bytes_text(b: Seq<u8>) -> Seq<char> {
    b.map_values(|x: u8| x as char)
}

/// A label on the wire: its length octet, then its bytes.
pub open spec fn label_wire(a: Seq<char>) -> Seq<u8> {
    seq![a.len() as u8] + ascii_bytes(a)
}

/// The ASCII label a segment of a name becomes, if it has a valid one.
pub open spec fn segment_label(seg: Seq<char>) -> Option<Seq<char>> {
    match ascii_form(seg) {
        Some(a) => if valid_label(a) {
            Some(a)
        } else {
            None
        },
        None => None,
    }
}

/// The wire form of a list of segments, each as a label.
pub open spec fn segments_wire(segs: Seq<Seq<char>>) -> Option<Seq<u8>>
    decreases segs.len(),
{
    if segs.len() == 0 {
        Some(Seq::<u8>::empty())
    } else {
        match segments_wire(segs.drop_last()) {
            Some(w) => match segment_label(segs.last()) {
                Some(a) => Some(w + label_wire(a)),
                None => None,
            },
            None => None,
        }
    }
}

/// The encoded form of a name, or `None` where the name is invalid: each
/// segment in its ASCII form as a label, ended by a zero octet, at most
/// `NAME_LIMIT` bytes in all. Without compression.
pub open spec fn name_wire(name: Seq<char>) -> Option<Seq<u8>> {
    if !valid_name_structure(name) {
        None
    } else if name == seq!['.'] {
        Some(seq![0u8])
    } else {
        match segments_wire(split_dots(name)) {
            Some(w) => {
                let full = if name.last() == '.' {
                    w
                } else {
                    w.push(0u8)
                };
                if full.len() <= NAME_LIMIT {
                    Some(full)
                } else {
                    None
                }
            },
            None => None,
        }
    }
}

proof fn lemma_segments_wire_prefix(segs: Seq<Seq<char>>, k: int)
    requires
        0 <= k <= segs.len(),
        segments_wire(segs.take(k)) is None,
    ensures
        segments_wire(segs) is None,
    decreases segs.len() - k,
{
    if k < segs.len() {
        assert(segs.take(k + 1).drop_last() =~= segs.take(k));
        lemma_segments_wire_prefix(segs, k + 1);
    } else {
        assert(segs.take(k) =~= segs);
    }
}

/// Returns whether the given string appears to be a valid hostname.
/// The contents of the name (i.e. characters in labels) are not checked here;
/// only the structure of the name is validated.
pub fn is_valid_name(name: &str) -> (r: bool)
    ensures
        r == valid_name_structure(name@),
{
    let v = chars_of(name);
    let n = v.len();
    if n == 0 {
        return false;
    }
    if n != 1 && v[0] == '.' {
        return false;
    }
    let mut i: usize = 0;
    while i + 1 < n
        invariant
            v@ == name@,
            n == v@.len(),
            n >= 1,
            i < n,
            forall|j: int| 0 <= j < i ==> !(#[trigger] name@[j] == '.' && name@[j + 1] == '.'),
        decreases n - i,
    {
        if v[i] == '.' && v[i + 1] == '.' {
            return false;
        }
        i = i + 1;
    }
    true
}

/// Returns whether the character is whitespace or a control character.
fn space_or_control(c: char) -> (r: bool)
    ensures
        r == is_space_or_control(c),
{
    c <= ' ' || ('\x7f' <= c && c <= '\u{a0}') || c == '\u{1680}' || ('\u{2000}' <= c && c
        <= '\u{200a}') || c == '\u{2028}' || c == '\u{2029}' || c == '\u{202f}' || c == '\u{205f}'
        || c == '\u{3000}'
}

/// Returns whether the characters constitute a valid name segment.
fn chars_valid_segment(v: &Vec<char>) -> (r: bool)
    ensures
        r == valid_segment(v@),
{
    let n = v.len();
    if n > 0 && (v[0] == '-' || v[n - 1] == '-') {
        return false;
    }
    let mut i: usize = 0;
    while i < n
        invariant
            n == v@.len(),
            i <= n,
            forall|j: int| 0 <= j < i ==> !is_space_or_control(#[trigger] v@[j]),
        decreases n - i,
    {
        if space_or_control(v[i]) {
            return false;
        }
        i = i + 1;
    }
    true
}

/// Returns whether the given string constitutes a valid name segment.
/// This check is not as strict as internet DNS servers will be. It only checks
/// for basic sanity of input. If an invalid name is given, a DNS server will
/// respond that it doesn't exist, anyway.
pub fn is_valid_segment(s: &str) -> (r: bool)
    ensures
        r == valid_segment(s@),
{
    let v = chars_of(s);
    chars_valid_segment(&v)
}

/// Returns the characters of a segment, if they form a valid label.
fn label_chars(a: &str) -> (r: Option<Vec<char>>)
    ensures
        valid_label(a@) ==> (r matches Some(v) && v@ == a@),
        !valid_label(a@) ==> r is None,
{
    let v = chars_of(a);
    let n = v.len();
    if n > LABEL_LIMIT || !a.is_ascii() {
        return None;
    }
    if chars_valid_segment(&v) {
        Some(v)
    } else {
        None
    }
}

/// Splits a name at every `.`, as ranges of character positions.
fn split_ranges(v: &Vec<char>) -> (r: Vec<(usize, usize)>)
    ensures
        r@.map_values(|p: (usize, usize)| v@.subrange(p.0 as int, p.1 as int)) == split_dots(v@),
        forall|k: int| 0 <= k < r@.len() ==> (#[trigger] r@[k]).0 <= r@[k].1 <= v@.len(),
{
    let n = v.len();
    let mut r: Vec<(usize, usize)> = Vec::new();
    let mut start: usize = 0;
    let mut i: usize = 0;
    assert(v@.take(0) =~= Seq::<char>::empty());
    assert(r@.map_values(|p: (usize, usize)| v@.subrange(p.0 as int, p.1 as int)).push(
        v@.subrange(0, 0),
    ) =~= seq![Seq::<char>::empty()]);
    while i < n
        invariant
            n == v@.len(),
            start <= i <= n,
            split_dots(v@.take(i as int)) == r@.map_values(
                |p: (usize, usize)| v@.subrange(p.0 as int, p.1 as int),
            ).push(v@.subrange(start as int, i as int)),
            forall|k: int| 0 <= k < r@.len() ==> (#[trigger] r@[k]).0 <= r@[k].1 <= n,
        decreases n - i,
    {
        let ghost before = r@.map_values(|p: (usize, usize)| v@.subrange(p.0 as int, p.1 as int));
        let ghost cur = v@.subrange(start as int, i as int);
        assert(v@.take(i + 1).drop_last() =~= v@.take(i as int));
        assert(v@.take(i + 1).last() == v@[i as int]);
        if v[i] == '.' {
            assert(split_dots(v@.take(i + 1)) == before.push(cur).push(Seq::<char>::empty()));
            r.push((start, i));
            start = i + 1;
            assert(r@.map_values(|p: (usize, usize)| v@.subrange(p.0 as int, p.1 as int))
                =~= before.push(cur));
            assert(v@.subrange(start as int, i + 1) =~= Seq::<char>::empty());
        } else {
            assert(split_dots(v@.take(i + 1)) == before.push(cur).update(
                before.len() as int,
                cur.push(v@[i as int]),
            ));
            assert(cur.push(v@[i as int]) =~= v@.subrange(start as int, i + 1));
            assert(before.push(cur).update(before.len() as int, cur.push(v@[i as int]))
                =~= before.push(v@.subrange(start as int, i + 1)));
        }
        i = i + 1;
    }
    assert(v@.take(n as int) =~= v@);
    r.push((start, n));
    assert(r@.map_values(|p: (usize, usize)| v@.subrange(p.0 as int, p.1 as int)) =~= split_dots(
        v@,
    ));
    r
}

/// Encodes a name, without compression.
pub fn encode_name(name: &str) -> (r: Result<Vec<u8>, EncodeError>)
    ensures
        match name_wire(name@) {
            Some(w) => r matches Ok(v) && v@ == w,
            None => r == Err::<Vec<u8>, EncodeError>(EncodeError::InvalidName),
        },
{
    if !is_valid_name(name) {
        return Err(EncodeError::InvalidName);
    }
    let v = chars_of(name);
    let n = v.len();
    if n == 1 && v[0] == '.' {
        assert(name@ =~= seq!['.']);
        return Ok(vec![0u8]);
    }
    assert(name@ != seq!['.']);
    let ranges = split_ranges(&v);
    let ghost segs = split_dots(name@);
    let mut out: Vec<u8> = Vec::new();
    let mut k: usize = 0;
    assert(segs.take(0) =~= Seq::<Seq<char>>::empty());
    while k < ranges.len()
        invariant
            v@ == name@,
            n == v@.len(),
            segs == split_dots(name@),
            valid_name_structure(name@),
            name@ != seq!['.'],
            ranges@.map_values(|p: (usize, usize)| v@.subrange(p.0 as int, p.1 as int)) == segs,
            forall|j: int| 0 <= j < ranges@.len() ==> (#[trigger] ranges@[j]).0 <= ranges@[j].1 <= n,
            k <= ranges@.len(),
            segments_wire(segs.take(k as int)) == Some(out@),
        decreases ranges@.len() - k,
    {
        let (a, b) = ranges[k];
        let seg = name.substring_char(a, b);
        assert(seg@ == segs[k as int]);
        assert(segs.take(k + 1).drop_last() =~= segs.take(k as int));
        assert(segs.take(k + 1).last() == segs[k as int]);
        let label = match to_ascii(seg) {
            Ok(t) => t,
            Err(_) => {
                proof {
                    lemma_segments_wire_prefix(segs, k + 1);
                }
                return Err(EncodeError::InvalidName);
            },
        };
        let chars = match label_chars(label.as_str()) {
            Some(c) => c,
            None => {
                proof {
                    lemma_segments_wire_prefix(segs, k + 1);
                }
                return Err(EncodeError::InvalidName);
            },
        };
        let ghost before = out@;
        let m = chars.len();
        out.push(m as u8);
        let mut j: usize = 0;
        while j < m
            invariant
                m == chars@.len(),
                m <= LABEL_LIMIT,
                j <= m,
                out@ == before + seq![m as u8] + ascii_bytes(chars@.take(j as int)),
            decreases m - j,
        {
            out.push(chars[j] as u8);
            j = j + 1;
            assert(ascii_bytes(chars@.take(j as int)) =~= ascii_bytes(chars@.take(j - 1)).push(
                chars@[j - 1] as u8,
            ));
        }
        assert(chars@.take(m as int) =~= chars@);
        assert(out@ =~= before + label_wire(chars@));
        k = k + 1;
    }
    assert(segs.take(k as int) =~= segs);
    if v[n - 1] != '.' {
        out.push(0u8);
    }
    if out.len() > NAME_LIMIT {
        return Err(EncodeError::InvalidName);
    }
    Ok(out)
}

/// Relies on `String::from_utf8`: ASCII bytes are valid UTF-8, and each
/// byte stands for the character of the same value.
#[verifier::external_body]
fn ascii_string(b: Vec<u8>) -> (r: String)
    requires
        forall|i: int| 0 <= i < b@.len() ==> #[trigger] b@[i] < 128,
    ensures
        r@ == bytes_text(b@),
{
    match String::from_utf8(b) {
        Ok(s) => s,
        Err(_) => String::new(),
    }
}

/// The chunk that writing a name appends: its encoded form, or the error.
pub open spec fn name_chunk(name: Seq<char>) -> Result<Seq<u8>, EncodeError> {
    match name_wire(name) {
        Some(w) => Ok(w),
        None => Err(EncodeError::InvalidName),
    }
}

/// A character-string on the wire: a length octet, then the bytes; at most
/// 255 bytes of data.
pub open spec fn character_string_chunk(data: Seq<u8>) -> Result<Seq<u8>, EncodeError> {
    if data.len() > 255 {
        Err(EncodeError::TooLong)
    } else {
        Ok(seq![data.len() as u8] + data)
    }
}

impl<'a> MsgWriter<'a> {
    /// `after` is this writer once `chunk` was written, with result `r`:
    /// an error of the chunk itself, or `TooLong` where the chunk does not
    /// fit, leaves the bytes as they were.
    pub open spec fn emits(
        &self,
        after: &MsgWriter<'a>,
        r: Result<(), EncodeError>,
        chunk: Result<Seq<u8>, EncodeError>,
    ) -> bool {
        &&& after.wf()
        &&& after.capacity() == self.capacity()
        &&& match chunk {
            Err(e) => r == Err::<(), EncodeError>(e) && after.bytes() == self.bytes(),
            Ok(c) => if self.fits(c.len() as int) {
                r is Ok && after.bytes() == self.bytes() + c
            } else {
                r == Err::<(), EncodeError>(EncodeError::TooLong) && after.bytes() == self.bytes()
            },
        }
    }

    /// Writes a name to the message, or nothing where it fails.
    pub fn write_name(&mut self, name: &str) -> (r: Result<(), EncodeError>)
        requires
            old(self).wf(),
        ensures
            old(self).emits(final(self), r, name_chunk(name@)),
    {
        let w = encode_name(name)?;
        self.write(w.as_slice())
    }

    /// Writes a character-string: a length octet, then the bytes.
    pub fn write_character_string(&mut self, data: &[u8]) -> (r: Result<(), EncodeError>)
        requires
            old(self).wf(),
        ensures
            old(self).emits(final(self), r, character_string_chunk(data@)),
    {
        let n = data.len();
        if n > 255 {
            return Err(EncodeError::TooLong);
        }
        let mut buf: Vec<u8> = Vec::new();
        buf.push(n as u8);
        let mut i: usize = 0;
        while i < n
            invariant
                n == data@.len(),
                n <= 255,
                i <= n,
                buf@ == seq![n as u8] + data@.take(i as int),
            decreases n - i,
        {
            buf.push(data[i]);
            i = i + 1;
            assert(buf@ =~= seq![n as u8] + data@.take(i as int));
        }
        assert(data@.take(n as int) =~= data@);
        self.write(buf.as_slice())
    }
}

/// The bytes of a label read from the wire are ASCII and form a valid
/// segment.
pub open spec fn wire_label_ok(b: Seq<u8>) -> bool {
    &&& forall|i: int| 0 <= i < b.len() ==> #[trigger] b[i] < 128
    &&& valid_segment(bytes_text(b))
}

/// The labels of the name at `pos`, each in its Unicode form, and the
/// offset just past the name; `start` is the offset that a compression
/// pointer must lie below, and `total` the encoded length so far.
///
/// A pointer must point strictly before the name (or the pointed-to part of
/// it) that it stands in; decoding goes on from the target, which becomes
/// the new bound. The offset past the name is the one past the first pointer,
/// if any.
pub open spec fn parse_labels(msg: Seq<u8>, pos: int, start: int, total: int) -> Result<
    (Seq<Seq<char>>, int),
    DecodeError,
>
    decreases start, msg.len() - pos,
{
    if pos < 0 || pos >= msg.len() || start < 0 {
        Err(DecodeError::ShortMessage)
    } else {
        let len = msg[pos];
        if len == 0 {
            if total + 1 > NAME_LIMIT {
                Err(DecodeError::InvalidName)
            } else {
                Ok((Seq::<Seq<char>>::empty(), pos + 1))
            }
        } else if len >= 0xc0 {
            if pos + 1 >= msg.len() {
                Err(DecodeError::ShortMessage)
            } else {
                let off = (len - 0xc0) * 256 + msg[pos + 1];
                if off >= start {
                    Err(DecodeError::InvalidName)
                } else {
                    match parse_labels(msg, off, off, total) {
                        Ok((ls, _)) => Ok((ls, pos + 2)),
                        Err(e) => Err(e),
                    }
                }
            }
        } else if len >= 0x40 {
            Err(DecodeError::InvalidMessage)
        } else if total + 1 + len > NAME_LIMIT {
            Err(DecodeError::InvalidName)
        } else if pos + 1 + len > msg.len() {
            Err(DecodeError::ShortMessage)
        } else {
            let b = msg.subrange(pos + 1, pos + 1 + len);
            if !wire_label_ok(b) {
                Err(DecodeError::InvalidName)
            } else {
                match unicode_form(bytes_text(b)) {
                    None => Err(DecodeError::InvalidName),
                    Some(u) => match parse_labels(msg, pos + 1 + len, start, total + 1 + len) {
                        Ok((ls, next)) => Ok((seq![u] + ls, next)),
                        Err(e) => Err(e),
                    },
                }
            }
        }
    }
}

/// Labels joined in display form, each followed by a dot.
pub open spec fn dotted(labels: Seq<Seq<char>>) -> Seq<char>
    decreases labels.len(),
{
    if labels.len() == 0 {
        Seq::<char>::empty()
    } else {
        dotted(labels.drop_last()) + labels.last() + seq!['.']
    }
}

/// The display form of a decoded name: `.` for the root.
pub open spec fn name_text(labels: Seq<Seq<char>>) -> Seq<char> {
    if labels.len() == 0 {
        seq!['.']
    } else {
        dotted(labels)
    }
}

/// The name at `pos` in display form, and the offset just past it.
pub open spec fn parse_name(msg: Seq<u8>, pos: int) -> Result<(Seq<char>, int), DecodeError> {
    match parse_labels(msg, pos, pos, 0) {
        Ok((ls, next)) => Ok((name_text(ls), next)),
        Err(e) => Err(e),
    }
}

/// The outcome of a name read that has gathered `acc` so far and will
/// resume at `restore` (if a pointer was followed), given the outcome of
/// reading on from here.
pub open spec fn resumed(
    acc: Seq<Seq<char>>,
    restore: Option<usize>,
    r: Result<(Seq<Seq<char>>, int), DecodeError>,
) -> Result<(Seq<Seq<char>>, int), DecodeError> {
    match r {
        Ok((ls, next)) => Ok(
            (
                acc + ls,
                match restore {
                    Some(p) => p as int,
                    None => next,
                },
            ),
        ),
        Err(e) => Err(e),
    }
}

impl<'a> MsgReader<'a> {
    /// Reads a name from the message.
    pub fn read_name(&mut self) -> (r: Result<String, DecodeError>)
        requires
            old(self).wf(),
        ensures
            final(self).wf(),
            final(self).bytes() == old(self).bytes(),
            match parse_name(old(self).bytes(), old(self).position()) {
                Ok((t, p)) => r matches Ok(s) && s@ == t && final(self).position() == p,
                Err(e) => r matches Err(x) && x == e,
            },
    {
        let ghost msg = self.data@;
        let ghost p0 = self.pos as int;
        let n = self.data.len();
        let mut start: usize = self.pos;
        let mut pos: usize = self.pos;
        let mut restore: Option<usize> = None;
        let mut res = String::new();
        let mut total: usize = 0;
        let mut any_label = false;
        let ghost mut acc: Seq<Seq<char>> = Seq::empty();
        assert(acc + Seq::<Seq<char>>::empty() =~= acc);
        loop
            invariant
                any_label == (acc.len() > 0),
                self.wf(),
                self.data@ == msg,
                msg == old(self).bytes(),
                p0 == old(self).position(),
                self.pos == p0,
                n == msg.len(),
                pos <= n,
                start <= n,
                total <= NAME_LIMIT,
                res@ == dotted(acc),
                match restore {
                    Some(q) => q <= n,
                    None => true,
                },
                resumed(acc, restore, parse_labels(msg, pos as int, start as int, total as int))
                    == parse_labels(msg, p0, p0, 0),
            decreases start, n - pos,
        {
            if pos >= n {
                return Err(DecodeError::ShortMessage);
            }
            let len = self.data[pos];
            if len == 0 {
                if total + 1 > NAME_LIMIT {
                    return Err(DecodeError::InvalidName);
                }
                let next = match restore {
                    Some(q) => q,
                    None => pos + 1,
                };
                assert(acc + Seq::<Seq<char>>::empty() =~= acc);
                self.pos = next;
                if !any_label {
                    let root = String::from_str(".");
                    proof {
                        reveal_strlit(".");
                    }
                    assert(root@ =~= seq!['.']);
                    return Ok(root);
                }
                return Ok(res);
            } else if len >= 0xc0 {
                if pos + 1 >= n {
                    return Err(DecodeError::ShortMessage);
                }
                let off = ((len - 0xc0) as usize) * 256 + self.data[pos + 1] as usize;
                if off >= start {
                    return Err(DecodeError::InvalidName);
                }
                let ghost old_restore = restore;
                if restore.is_none() {
                    restore = Some(pos + 2);
                }
                proof {
                    let inner = parse_labels(msg, off as int, off as int, total as int);
                    assert(parse_labels(msg, pos as int, start as int, total as int) == match inner {
                        Ok((ls, _)) => Ok((ls, pos + 2)),
                        Err(e) => Err(e),
                    });
                    match inner {
                        Ok((ls, _)) => {
                            assert(resumed(acc, restore, inner) == resumed(
                                acc,
                                old_restore,
                                Ok((ls, pos + 2)),
                            ));
                        },
                        Err(e) => {},
                    }
                }
                pos = off;
                start = off;
            } else if len >= 0x40 {
                return Err(DecodeError::InvalidMessage);
            } else {
                let l = len as usize;
                if total + 1 + l > NAME_LIMIT {
                    return Err(DecodeError::InvalidName);
                }
                if l > n - pos - 1 {
                    return Err(DecodeError::ShortMessage);
                }
                let mut b: Vec<u8> = Vec::new();
                let mut i: usize = 0;
                while i < l
                    invariant
                        self.wf(),
                        self.data@ == msg,
                        msg == old(self).bytes(),
                        p0 == old(self).position(),
                        self.pos == p0,
                        pos < n,
                        msg[pos as int] == len,
                        l == len as usize,
                        0 < l < 0x40,
                        total + 1 + l <= NAME_LIMIT,
                        resumed(acc, restore, parse_labels(msg, pos as int, start as int, total as int))
                            == parse_labels(msg, p0, p0, 0),
                        n == msg.len(),
                        pos + 1 + l <= n,
                        i <= l,
                        b@ == msg.subrange(pos + 1, pos + 1 + i),
                        forall|j: int| 0 <= j < i ==> #[trigger] b@[j] < 128,
                    decreases l - i,
                {
                    let x = self.data[pos + 1 + i];
                    if x >= 128 {
                        assert(!wire_label_ok(msg.subrange(pos + 1, pos + 1 + l))) by {
                            assert(msg.subrange(pos + 1, pos + 1 + l)[i as int] == x);
                        }
                        return Err(DecodeError::InvalidName);
                    }
                    b.push(x);
                    i = i + 1;
                    assert(b@ =~= msg.subrange(pos + 1, pos + 1 + i));
                }
                let text = ascii_string(b);
                if !is_valid_segment(text.as_str()) {
                    return Err(DecodeError::InvalidName);
                }
                let u = match to_unicode(text.as_str()) {
                    Ok(u) => u,
                    Err(_) => return Err(DecodeError::InvalidName),
                };
                let ghost uu = u@;
                res.append(u.as_str());
                res.append(".");
                proof {
                    reveal_strlit(".");
                    assert(acc.push(uu).drop_last() =~= acc);
                    assert(res@ =~= dotted(acc.push(uu)));
                    let b = msg.subrange(pos + 1, pos + 1 + l);
                    assert(wire_label_ok(b));
                    assert(unicode_form(bytes_text(b)) == Some(uu));
                    let rest = parse_labels(msg, pos + 1 + l, start as int, total + 1 + l);
                    assert(parse_labels(msg, pos as int, start as int, total as int) == match rest {
                        Ok((ls, next)) => Ok((seq![uu] + ls, next)),
                        Err(e) => Err(e),
                    });
                    match rest {
                        Ok((ls, next)) => {
                            assert(acc + (seq![uu] + ls) =~= acc.push(uu) + ls);
                        },
                        Err(e) => {},
                    }
                    acc = acc.push(uu);
                }
                any_label = true;
                pos = pos + 1 + l;
                total = total + 1 + l;
            }
        }
    }
}

/// Indicates a message is either a query or response.
#[derive(Copy, Clone, Debug, PartialEq, Eq, Structural)]
pub enum Qr {
    /// Query
    Query,
    /// Response
    Response,
}

/// Represents the kind of message query.
#[derive(Copy, Clone, Debug, PartialEq, Eq, Structural)]
pub enum OpCode {
    /// Query
    Query,
    /// Status
    Status,
    /// Notify
    Notify,
    /// Update
    Update,
    /// Unrecognized opcode
    Other(u8),
}

/// The opcode that a number stands for.
pub open spec fn opcode_of(u: u8) -> OpCode {
    if u == 0 {
        OpCode::Query
    } else if u == 2 {
        OpCode::Status
    } else if u == 4 {
        OpCode::Notify
    } else if u == 5 {
        OpCode::Update
    } else {
        OpCode::Other(u)
    }
}

/// The number of an opcode.
pub open spec fn opcode_code(op: OpCode) -> u8 {
    match op {
        OpCode::Query => 0,
        OpCode::Status => 2,
        OpCode::Notify => 4,
        OpCode::Update => 5,
        OpCode::Other(n) => n,
    }
}

impl OpCode {
    /// Converts a `u8` to an `OpCode`.
    pub fn from_u8(u: u8) -> (r: OpCode)
        ensures
            r == opcode_of(u),
    {
        match u {
            0 => OpCode::Query,
            2 => OpCode::Status,
            4 => OpCode::Notify,
            5 => OpCode::Update,
            n => OpCode::Other(n),
        }
    }

    /// Converts an `OpCode` to a `u8`.
    pub fn to_u8(&self) -> (r: u8)
        ensures
            r == opcode_code(*self),
    {
        match *self {
            OpCode::Query => 0,
            OpCode::Status => 2,
            OpCode::Notify => 4,
            OpCode::Update => 5,
            OpCode::Other(n) => n,
        }
    }
}

/// Represents the response code of a message
#[derive(Copy, Clone, Debug, PartialEq, Eq, Structural)]
pub enum RCode {
    /// No error condition.
    NoError,
    /// The server was unable to interpret the query.
    FormatError,
    /// The name server was unable to process the query due to a failure of
    /// the name server.
    ServerFailure,
    /// Name referenced in query does not exist.
    NameError,
    /// Requested query kind is not supported by name server.
    NotImplemented,
    /// The name server refuses to perform the specified operation for policy
    /// reasons.
    Refused,
    /// Unknown response code.
    Other(u8),
}

/// The response code that a number stands for.
pub open spec fn rcode_of(u: u8) -> RCode {
    if u == 0 {
        RCode::NoError
    } else if u == 1 {
        RCode::FormatError
    } else if u == 2 {
        RCode::ServerFailure
    } else if u == 3 {
        RCode::NameError
    } else if u == 4 {
        RCode::NotImplemented
    } else if u == 5 {
        RCode::Refused
    } else {
        RCode::Other(u)
    }
}

/// The number of a response code.
pub open spec fn rcode_code(c: RCode) -> u8 {
    match c {
        RCode::NoError => 0,
        RCode::FormatError => 1,
        RCode::ServerFailure => 2,
        RCode::NameError => 3,
        RCode::NotImplemented => 4,
        RCode::Refused => 5,
        RCode::Other(n) => n,
    }
}

impl RCode {
    /// Returns an error string for the response code.
    pub fn get_error(&self) -> (r: &'static str)
        ensures
            r@ == rcode_text(*self)@,
    {
        match *self {
            RCode::NoError => "no error",
            RCode::FormatError => "format error",
            RCode::ServerFailure => "server failure",
            RCode::NameError => "no such name",
            RCode::NotImplemented => "not implemented",
            RCode::Refused => "refused",
            RCode::Other(_) => "unknown response code",
        }
    }

    /// Converts a `u8` to an `RCode`.
    pub fn from_u8(u: u8) -> (r: RCode)
        ensures
            r == rcode_of(u),
    {
        match u {
            0 => RCode::NoError,
            1 => RCode::FormatError,
            2 => RCode::ServerFailure,
            3 => RCode::NameError,
            4 => RCode::NotImplemented,
            5 => RCode::Refused,
            n => RCode::Other(n),
        }
    }

    /// Converts an `RCode` to a `u8`.
    pub fn to_u8(&self) -> (r: u8)
        ensures
            r == rcode_code(*self),
    {
        match *self {
            RCode::NoError => 0,
            RCode::FormatError => 1,
            RCode::ServerFailure => 2,
            RCode::NameError => 3,
            RCode::NotImplemented => 4,
            RCode::Refused => 5,
            RCode::Other(n) => n,
        }
    }
}

/// The description of a response code.
pub open spec fn rcode_text(c: RCode) -> &'static str {
    match c {
        RCode::NoError => "no error",
        RCode::FormatError => "format error",
        RCode::ServerFailure => "server failure",
        RCode::NameError => "no such name",
        RCode::NotImplemented => "not implemented",
        RCode::Refused => "refused",
        RCode::Other(_) => "unknown response code",
    }
}

/// An error response code received in a response message.
#[derive(Copy, Clone, Debug, PartialEq, Eq, Structural)]
pub struct DnsError(pub RCode);

/// Represents a message header.
#[derive(Copy, Clone, Debug, PartialEq, Eq, Structural)]
pub struct Header {
    /// Transaction ID; corresponding replies will have the same ID.
    pub id: u16,
    /// Query or response
    pub qr: Qr,
    /// Kind of query
    pub op: OpCode,
    /// In a response, indicates that the responding name server is an authority
    /// for the domain name in question section.
    pub authoritative: bool,
    /// Indicates whether the message was truncated due to length greater than
    /// that permitted on the transmission channel.
    pub truncated: bool,
    /// In a query, directs the name server to pursue the query recursively.
    pub recursion_desired: bool,
    /// In a response, indicates whether recursive queries are available on the
    /// name server.
    pub recursion_available: bool,
    /// Response code
    pub rcode: RCode,
}

/// A header with the given id and every other field at its default: a
/// query, with no flag set and no error.
pub open spec fn default_header(id: u16) -> Header {
    Header {
        id,
        qr: Qr::Query,
        op: OpCode::Query,
        authoritative: false,
        truncated: false,
        recursion_desired: false,
        recursion_available: false,
        rcode: RCode::NoError,
    }
}

/// Relies on `rand::random`: a `u16` drawn from the thread's generator.
#[verifier::external_body]
fn random_u16() -> u16 {
    rand::random::<u16>()
}

impl Header {
    /// Constructs a new `Header` with a random id value.
    pub fn new() -> (r: Header)
        ensures
            r == default_header(r.id),
    {
        Header::with_id(random_u16())
    }

    /// Constructs a new `Header` with the given id value.
    pub fn with_id(id: u16) -> (r: Header)
        ensures
            r == default_header(id),
    {
        Header {
            id,
            qr: Qr::Query,
            op: OpCode::Query,
            authoritative: false,
            truncated: false,
            recursion_desired: false,
            recursion_available: false,
            rcode: RCode::NoError,
        }
    }
}

impl Default for Header {
    fn default() -> (r: Header)
        ensures
            r == default_header(0),
    {
        Header::with_id(0)
    }
}

/// A sequence of message ids: each id is the one before plus one, wrapping
/// around, from a random start. Consecutive ids thus never repeat.
pub struct IdSequence {
    next: u16,
}

impl IdSequence {
    /// The id that comes next.
    pub closed spec fn peek(&self) -> u16 {
        self.next
    }

    /// A sequence that begins at `seed`.
    pub fn seeded(seed: u16) -> (r: IdSequence)
        ensures
            r.peek() == seed,
    {
        IdSequence { next: seed }
    }

    /// A sequence that begins at a random value.
    pub fn random() -> (r: IdSequence) {
        IdSequence { next: random_u16() }
    }

    /// Returns the next id and moves on by one, wrapping around.
    pub fn next_id(&mut self) -> (r: u16)
        ensures
            r == old(self).peek(),
            final(self).peek() == (if r == u16::MAX { 0 } else { (r + 1) as u16 }),
    {
        let v = self.next;
        self.next = if v == u16::MAX { 0 } else { v + 1 };
        v
    }
}

/// The first flag octet of a header: QR, OPCODE (4 bits), AA, TC, RD.
pub open spec fn flags0(h: Header) -> u8 {
    ((if h.qr == Qr::Response { 128int } else { 0 }) + (opcode_code(h.op) % 16) * 8 + (if h.authoritative {
        4int
    } else {
        0
    }) + (if h.truncated { 2int } else { 0 }) + (if h.recursion_desired { 1int } else { 0 })) as u8
}

/// The second flag octet of a header: RA, three zero bits, RCODE (4 bits).
pub open spec fn flags1(h: Header) -> u8 {
    ((if h.recursion_available { 128int } else { 0 }) + rcode_code(h.rcode) % 16) as u8
}

/// The twelve bytes of a header with the given section counts.
pub open spec fn header_wire(h: Header, qd: u16, an: u16, ns: u16, ar: u16) -> Seq<u8> {
    u16_bytes(h.id) + seq![flags0(h), flags1(h)] + u16_bytes(qd) + u16_bytes(an) + u16_bytes(ns)
        + u16_bytes(ar)
}

/// The header that an id and two flag octets describe; the reserved bits
/// are ignored.
pub open spec fn header_of(id: u16, f0: u8, f1: u8) -> Header {
    Header {
        id,
        qr: if f0 >= 128 {
            Qr::Response
        } else {
            Qr::Query
        },
        op: opcode_of((f0 / 8) % 16),
        authoritative: (f0 / 4) % 2 == 1,
        truncated: (f0 / 2) % 2 == 1,
        recursion_desired: f0 % 2 == 1,
        recursion_available: f1 >= 128,
        rcode: rcode_of(f1 % 16),
    }
}

/// A header read from the wire, with the four section counts.
#[derive(Copy, Clone, Debug, PartialEq, Eq, Structural)]
pub struct FullHeader {
    /// The header's fields
    pub header: Header,
    /// Number of questions
    pub qd_count: u16,
    /// Number of answer records
    pub an_count: u16,
    /// Number of authority records
    pub ns_count: u16,
    /// Number of additional records
    pub ar_count: u16,
}

impl FullHeader {
    /// The header without its counts.
    pub fn to_header(&self) -> (r: Header)
        ensures
            r == self.header,
    {
        self.header
    }
}

/// The header at the start of `msg`, with its section counts.
pub open spec fn parse_header(msg: Seq<u8>) -> Result<FullHeader, DecodeError> {
    if msg.len() < 12 {
        Err(DecodeError::ShortMessage)
    } else {
        Ok(
            FullHeader {
                header: header_of(be_u16(msg[0], msg[1]), msg[2], msg[3]),
                qd_count: be_u16(msg[4], msg[5]),
                an_count: be_u16(msg[6], msg[7]),
                ns_count: be_u16(msg[8], msg[9]),
                ar_count: be_u16(msg[10], msg[11]),
            },
        )
    }
}

/// Represents a question item.
#[derive(Clone, Debug, PartialEq, Eq)]
pub struct Question {
    /// Query name
    pub name: String,
    /// Query type
    pub q_type: RecordType,
    /// Query class
    pub q_class: Class,
}

/// A question as plain values.
pub struct QuestionView {
    pub name: Seq<char>,
    pub q_type: RecordType,
    pub q_class: Class,
}

impl View for Question {
    type V = QuestionView;

    open spec fn view(&self) -> QuestionView {
        QuestionView { name: self.name@, q_type: self.q_type, q_class: self.q_class }
    }
}

impl Question {
    /// Constructs a new `Question`.
    pub fn new(name: String, q_type: RecordType, q_class: Class) -> (r: Question)
        ensures
            r@ == (QuestionView { name: name@, q_type, q_class }),
    {
        Question { name, q_type, q_class }
    }
}

/// Represents a resource record item.
#[derive(Clone, Debug, PartialEq, Eq)]
pub struct Resource {
    /// Resource name
    pub name: String,
    /// Resource type
    pub r_type: RecordType,
    /// Resource class
    pub r_class: Class,
    /// Time-to-live
    pub ttl: u32,
    /// Record data
    pub data: Vec<u8>,
}

/// A resource record as plain values.
pub struct ResourceView {
    pub name: Seq<char>,
    pub r_type: RecordType,
    pub r_class: Class,
    pub ttl: u32,
    pub data: Seq<u8>,
}

impl View for Resource {
    type V = ResourceView;

    open spec fn view(&self) -> ResourceView {
        ResourceView {
            name: self.name@,
            r_type: self.r_type,
            r_class: self.r_class,
            ttl: self.ttl,
            data: self.data@,
        }
    }
}

impl Resource {
    /// Constructs a new `Resource` with empty data.
    pub fn new(name: String, r_type: RecordType, r_class: Class, ttl: u32) -> (r: Resource)
        ensures
            r@ == (ResourceView { name: name@, r_type, r_class, ttl, data: Seq::<u8>::empty() }),
    {
        Resource { name, r_type, r_class, ttl, data: Vec::new() }
    }
}

/// The bytes of a question: its name, type and class.
pub open spec fn question_chunk(q: QuestionView) -> Result<Seq<u8>, EncodeError> {
    match name_wire(q.name) {
        Some(w) => Ok(w + u16_bytes(record_type_code(q.q_type)) + u16_bytes(class_code(q.q_class))),
        None => Err(EncodeError::InvalidName),
    }
}

/// The bytes of a resource record: its name, type, class, time-to-live,
/// data length and data.
pub open spec fn resource_chunk(r: ResourceView) -> Result<Seq<u8>, EncodeError> {
    match name_wire(r.name) {
        Some(w) => if r.data.len() > u16::MAX {
            Err(EncodeError::TooLong)
        } else {
            Ok(
                w + u16_bytes(record_type_code(r.r_type)) + u16_bytes(class_code(r.r_class))
                    + u32_bytes(r.ttl) + u16_bytes(r.data.len() as u16) + r.data,
            )
        },
        None => Err(EncodeError::InvalidName),
    }
}

/// The question at `pos`, and the offset just past it.
pub open spec fn parse_question(msg: Seq<u8>, pos: int) -> Result<(QuestionView, int), DecodeError> {
    match parse_name(msg, pos) {
        Ok((name, p)) => if p + 4 > msg.len() {
            Err(DecodeError::ShortMessage)
        } else {
            Ok(
                (
                    QuestionView {
                        name,
                        q_type: record_type_of(be_u16(msg[p], msg[p + 1])),
                        q_class: class_of(be_u16(msg[p + 2], msg[p + 3])),
                    },
                    p + 4,
                ),
            )
        },
        Err(e) => Err(e),
    }
}

/// The resource record at `pos`, and the offset just past it.
pub open spec fn parse_resource(msg: Seq<u8>, pos: int) -> Result<(ResourceView, int), DecodeError> {
    match parse_name(msg, pos) {
        Ok((name, p)) => if p + 10 > msg.len() {
            Err(DecodeError::ShortMessage)
        } else {
            let len = be_u16(msg[p + 8], msg[p + 9]);
            if p + 10 + len > msg.len() {
                Err(DecodeError::ShortMessage)
            } else {
                Ok(
                    (
                        ResourceView {
                            name,
                            r_type: record_type_of(be_u16(msg[p], msg[p + 1])),
                            r_class: class_of(be_u16(msg[p + 2], msg[p + 3])),
                            ttl: be_u32(msg.subrange(p + 4, p + 8)),
                            data: msg.subrange(p + 10, p + 10 + len),
                        },
                        p + 10 + len,
                    ),
                )
            }
        },
        Err(e) => Err(e),
    }
}

/// `n` questions one after another from `pos`.
pub open spec fn parse_questions(msg: Seq<u8>, pos: int, n: nat) -> Result<
    (Seq<QuestionView>, int),
    DecodeError,
>
    decreases n,
{
    if n == 0 {
        Ok((Seq::<QuestionView>::empty(), pos))
    } else {
        match parse_questions(msg, pos, (n - 1) as nat) {
            Ok((qs, p)) => match parse_question(msg, p) {
                Ok((q, p2)) => Ok((qs.push(q), p2)),
                Err(e) => Err(e),
            },
            Err(e) => Err(e),
        }
    }
}

/// `n` resource records one after another from `pos`.
pub open spec fn parse_resources(msg: Seq<u8>, pos: int, n: nat) -> Result<
    (Seq<ResourceView>, int),
    DecodeError,
>
    decreases n,
{
    if n == 0 {
        Ok((Seq::<ResourceView>::empty(), pos))
    } else {
        match parse_resources(msg, pos, (n - 1) as nat) {
            Ok((rs, p)) => match parse_resource(msg, p) {
                Ok((r, p2)) => Ok((rs.push(r), p2)),
                Err(e) => Err(e),
            },
            Err(e) => Err(e),
        }
    }
}

impl<'a> MsgReader<'a> {
    /// Reads a message header.
    fn read_header(&mut self) -> (r: Result<FullHeader, DecodeError>)
        requires
            old(self).wf(),
            old(self).position() == 0,
        ensures
            final(self).wf(),
            final(self).bytes() == old(self).bytes(),
            match parse_header(old(self).bytes()) {
                Ok(h) => r == Ok::<FullHeader, DecodeError>(h) && final(self).position() == 12,
                Err(e) => r == Err::<FullHeader, DecodeError>(e),
            },
    {
        let b = self.take(12)?;
        let f0 = b[2];
        let f1 = b[3];
        let header = Header {
            id: b[0] as u16 * 256 + b[1] as u16,
            qr: if f0 >= 128 {
                Qr::Response
            } else {
                Qr::Query
            },
            op: OpCode::from_u8((f0 / 8) % 16),
            authoritative: (f0 / 4) % 2 == 1,
            truncated: (f0 / 2) % 2 == 1,
            recursion_desired: f0 % 2 == 1,
            recursion_available: f1 >= 128,
            rcode: RCode::from_u8(f1 % 16),
        };
        Ok(
            FullHeader {
                header,
                qd_count: b[4] as u16 * 256 + b[5] as u16,
                an_count: b[6] as u16 * 256 + b[7] as u16,
                ns_count: b[8] as u16 * 256 + b[9] as u16,
                ar_count: b[10] as u16 * 256 + b[11] as u16,
            },
        )
    }

    /// Reads a question item.
    fn read_question(&mut self) -> (r: Result<Question, DecodeError>)
        requires
            old(self).wf(),
        ensures
            final(self).wf(),
            final(self).bytes() == old(self).bytes(),
            match parse_question(old(self).bytes(), old(self).position()) {
                Ok((q, p)) => r matches Ok(x) && x@ == q && final(self).position() == p,
                Err(e) => r matches Err(x) && x == e,
            },
    {
        let name = self.read_name()?;
        let t = self.read_u16()?;
        let c = self.read_u16()?;
        Ok(Question { name, q_type: RecordType::from_u16(t), q_class: Class::from_u16(c) })
    }

    /// Reads a resource record item.
    fn read_resource(&mut self) -> (r: Result<Resource, DecodeError>)
        requires
            old(self).wf(),
        ensures
            final(self).wf(),
            final(self).bytes() == old(self).bytes(),
            match parse_resource(old(self).bytes(), old(self).position()) {
                Ok((x, p)) => r matches Ok(y) && y@ == x && final(self).position() == p,
                Err(e) => r matches Err(y) && y == e,
            },
    {
        let name = self.read_name()?;
        let ghost p = self.position();
        if self.remaining() < 10 {
            return Err(DecodeError::ShortMessage);
        }
        let t = self.read_u16()?;
        let c = self.read_u16()?;
        let ttl = self.read_u32()?;
        let len = self.read_u16()?;
        assert(self.bytes().subrange(p + 4, p + 8) == self.bytes().subrange(p + 4, p + 4 + 4));
        let data = self.take(len as usize)?;
        Ok(
            Resource {
                name,
                r_type: RecordType::from_u16(t),
                r_class: Class::from_u16(c),
                ttl,
                data,
            },
        )
    }
}

/// The questions of a list, as plain values.
pub open spec fn questions_view(v: Seq<Question>) -> Seq<QuestionView> {
    v.map_values(|q: Question| q@)
}

/// The resource records of a list, as plain values.
pub open spec fn resources_view(v: Seq<Resource>) -> Seq<ResourceView> {
    v.map_values(|r: Resource| r@)
}

pub(crate) fn push_u16(v: &mut Vec<u8>, x: u16)
    ensures
        final(v)@ == old(v)@ + u16_bytes(x),
{
    v.push((x / 256) as u8);
    v.push((x % 256) as u8);
    assert(final(v)@ =~= old(v)@ + u16_bytes(x));
}

pub(crate) fn push_u32(v: &mut Vec<u8>, x: u32)
    ensures
        final(v)@ == old(v)@ + u32_bytes(x),
{
    v.push((x / 0x1000000) as u8);
    v.push(((x / 0x10000) % 256) as u8);
    v.push(((x / 256) % 256) as u8);
    v.push((x % 256) as u8);
    assert(final(v)@ =~= old(v)@ + u32_bytes(x));
}

pub(crate) fn append_bytes(v: &mut Vec<u8>, b: &[u8])
    ensures
        final(v)@ == old(v)@ + b@,
{
    let n = b.len();
    let mut i: usize = 0;
    while i < n
        invariant
            n == b@.len(),
            i <= n,
            v@ == old(v)@ + b@.take(i as int),
        decreases n - i,
    {
        v.push(b[i]);
        i = i + 1;
        assert(v@ =~= old(v)@ + b@.take(i as int));
    }
    assert(b@.take(n as int) =~= b@);
}

impl<'a> MsgWriter<'a> {
    /// Writes a message header with its section counts.
    fn write_header(&mut self, h: &FullHeader) -> (r: Result<(), EncodeError>)
        requires
            old(self).wf(),
        ensures
            old(self).emits(
                final(self),
                r,
                Ok(
                    header_wire(h.header, h.qd_count, h.an_count, h.ns_count, h.ar_count),
                ),
            ),
    {
        let hd = h.header;
        let qr: u8 = match hd.qr {
            Qr::Query => 0,
            Qr::Response => 128,
        };
        let aa: u8 = if hd.authoritative { 4 } else { 0 };
        let tc: u8 = if hd.truncated { 2 } else { 0 };
        let rd: u8 = if hd.recursion_desired { 1 } else { 0 };
        let ra: u8 = if hd.recursion_available { 128 } else { 0 };
        let f0: u8 = qr + (hd.op.to_u8() % 16) * 8 + aa + tc + rd;
        let f1: u8 = ra + hd.rcode.to_u8() % 16;
        let mut v: Vec<u8> = Vec::new();
        push_u16(&mut v, hd.id);
        v.push(f0);
        v.push(f1);
        push_u16(&mut v, h.qd_count);
        push_u16(&mut v, h.an_count);
        push_u16(&mut v, h.ns_count);
        push_u16(&mut v, h.ar_count);
        assert(v@ =~= header_wire(h.header, h.qd_count, h.an_count, h.ns_count, h.ar_count));
        self.write(v.as_slice())
    }

    /// Writes a question item, or nothing where it fails.
    fn write_question(&mut self, q: &Question) -> (r: Result<(), EncodeError>)
        requires
            old(self).wf(),
        ensures
            old(self).emits(final(self), r, question_chunk(q@)),
    {
        let mut v = encode_name(q.name.as_str())?;
        push_u16(&mut v, q.q_type.to_u16());
        push_u16(&mut v, q.q_class.to_u16());
        self.write(v.as_slice())
    }

    /// Writes a resource record item, or nothing where it fails.
    fn write_resource(&mut self, res: &Resource) -> (r: Result<(), EncodeError>)
        requires
            old(self).wf(),
        ensures
            old(self).emits(final(self), r, resource_chunk(res@)),
    {
        let mut v = encode_name(res.name.as_str())?;
        let len = to_u16(res.data.len())?;
        push_u16(&mut v, res.r_type.to_u16());
        push_u16(&mut v, res.r_class.to_u16());
        push_u32(&mut v, res.ttl);
        push_u16(&mut v, len);
        append_bytes(&mut v, res.data.as_slice());
        self.write(v.as_slice())
    }
}

/// Converts a length to `u16`, or fails with `TooLong`.
pub fn to_u16(n: usize) -> (r: Result<u16, EncodeError>)
    ensures
        n <= u16::MAX ==> r == Ok::<u16, EncodeError>(n as u16),
        n > u16::MAX ==> r == Err::<u16, EncodeError>(EncodeError::TooLong),
{
    if n > u16::MAX as usize {
        Err(EncodeError::TooLong)
    } else {
        Ok(n as u16)
    }
}

/// Writes chunks one after another while each fits in `limit` bytes:
/// the bytes of all, or the first error.
pub open spec fn emit_all(chunks: Seq<Result<Seq<u8>, EncodeError>>, limit: int) -> Result<
    Seq<u8>,
    EncodeError,
>
    decreases chunks.len(),
{
    if chunks.len() == 0 {
        Ok(Seq::<u8>::empty())
    } else {
        match emit_all(chunks.drop_last(), limit) {
            Ok(a) => match chunks.last() {
                Ok(c) => if a.len() + c.len() <= limit {
                    Ok(a + c)
                } else {
                    Err(EncodeError::TooLong)
                },
                Err(e) => Err(e),
            },
            Err(e) => Err(e),
        }
    }
}

proof fn lemma_emit_all_prefix_err(chunks: Seq<Result<Seq<u8>, EncodeError>>, k: int, limit: int)
    requires
        0 <= k <= chunks.len(),
        emit_all(chunks.take(k), limit) is Err,
    ensures
        emit_all(chunks, limit) == emit_all(chunks.take(k), limit),
    decreases chunks.len() - k,
{
    if k < chunks.len() {
        assert(chunks.take(k + 1).drop_last() =~= chunks.take(k));
        lemma_emit_all_prefix_err(chunks, k + 1, limit);
    } else {
        assert(chunks.take(k) =~= chunks);
    }
}

proof fn lemma_emit_first(chunks: Seq<Result<Seq<u8>, EncodeError>>, limit: int)
    requires
        chunks.len() >= 1,
    ensures
        emit_all(chunks.take(1), limit) == match chunks[0] {
            Ok(c) => if c.len() <= limit {
                Ok(c)
            } else {
                Err(EncodeError::TooLong)
            },
            Err(e) => Err(e),
        },
{
    let first = chunks.take(1);
    assert(first.len() == 1);
    assert(first.drop_last() =~= Seq::<Result<Seq<u8>, EncodeError>>::empty());
    assert(emit_all(first.drop_last(), limit) == Ok::<Seq<u8>, EncodeError>(Seq::<u8>::empty()));
    assert(first.last() == chunks[0]);
    match chunks[0] {
        Ok(c) => {
            assert(Seq::<u8>::empty() + c =~= c);
        },
        Err(e) => {},
    }
}

/// Represents a DNS message.
#[derive(Clone, Debug, PartialEq, Eq)]
pub struct Message {
    /// Describes the content of the remainder of the message.
    pub header: Header,
    /// Carries the question of query type messages.
    pub question: Vec<Question>,
    /// Resource records that answer the query
    pub answer: Vec<Resource>,
    /// Resource records that point to an authoritative name server
    pub authority: Vec<Resource>,
    /// Resource records that relate to the query, but are not strictly
    /// answers for the question.
    pub additional: Vec<Resource>,
}

/// A message as plain values.
pub struct MessageView {
    pub header: Header,
    pub question: Seq<QuestionView>,
    pub answer: Seq<ResourceView>,
    pub authority: Seq<ResourceView>,
    pub additional: Seq<ResourceView>,
}

impl View for Message {
    type V = MessageView;

    open spec fn view(&self) -> MessageView {
        MessageView {
            header: self.header,
            question: questions_view(self.question@),
            answer: resources_view(self.answer@),
            authority: resources_view(self.authority@),
            additional: resources_view(self.additional@),
        }
    }
}

/// The header of a message as it is encoded, with counts taken from its
/// sections; `TooLong` where a section has more than 65535 items.
pub open spec fn header_chunk(m: MessageView) -> Result<Seq<u8>, EncodeError> {
    if m.question.len() > u16::MAX || m.answer.len() > u16::MAX || m.authority.len() > u16::MAX
        || m.additional.len() > u16::MAX {
        Err(EncodeError::TooLong)
    } else {
        Ok(
            header_wire(
                m.header,
                m.question.len() as u16,
                m.answer.len() as u16,
                m.authority.len() as u16,
                m.additional.len() as u16,
            ),
        )
    }
}

/// The chunks of an encoded message: header, then the four sections.
pub open spec fn message_chunks(m: MessageView) -> Seq<Result<Seq<u8>, EncodeError>> {
    seq![header_chunk(m)] + m.question.map_values(|q: QuestionView| question_chunk(q))
        + m.answer.map_values(|r: ResourceView| resource_chunk(r)) + m.authority.map_values(
        |r: ResourceView| resource_chunk(r),
    ) + m.additional.map_values(|r: ResourceView| resource_chunk(r))
}

/// The bound on an encoded message in a buffer of `buf_len` bytes.
pub open spec fn message_limit(buf_len: int) -> int {
    if buf_len < MESSAGE_LIMIT {
        buf_len
    } else {
        MESSAGE_LIMIT as int
    }
}

/// The encoded form of a message in a buffer of `buf_len` bytes, or the error.
pub open spec fn encode_message(m: MessageView, buf_len: int) -> Result<Seq<u8>, EncodeError> {
    emit_all(message_chunks(m), message_limit(buf_len))
}

/// The message that `msg` holds, decoded whole.
pub open spec fn parse_message(msg: Seq<u8>) -> Result<MessageView, DecodeError> {
    match parse_header(msg) {
        Err(e) => Err(e),
        Ok(h) => match parse_questions(msg, 12, h.qd_count as nat) {
            Err(e) => Err(e),
            Ok((qs, p1)) => match parse_resources(msg, p1, h.an_count as nat) {
                Err(e) => Err(e),
                Ok((ans, p2)) => match parse_resources(msg, p2, h.ns_count as nat) {
                    Err(e) => Err(e),
                    Ok((auth, p3)) => match parse_resources(msg, p3, h.ar_count as nat) {
                        Err(e) => Err(e),
                        Ok((add, p4)) => if p4 == msg.len() {
                            Ok(
                                MessageView {
                                    header: h.header,
                                    question: qs,
                                    answer: ans,
                                    authority: auth,
                                    additional: add,
                                },
                            )
                        } else {
                            Err(DecodeError::ExtraneousData)
                        },
                    },
                },
            },
        },
    }
}

fn write_resources<'a>(
    w: &mut MsgWriter<'a>,
    rs: &Vec<Resource>,
    Ghost(chunks): Ghost<Seq<Result<Seq<u8>, EncodeError>>>,
    Ghost(base): Ghost<int>,
) -> (r: Result<(), EncodeError>)
    requires
        old(w).wf(),
        0 <= base,
        base + rs@.len() <= chunks.len(),
        forall|k: int| 0 <= k < rs@.len() ==> chunks[base + k] == resource_chunk(#[trigger] rs@[k]@),
        emit_all(chunks.take(base), old(w).limit()) == Ok::<Seq<u8>, EncodeError>(old(w).bytes()),
    ensures
        final(w).wf(),
        final(w).capacity() == old(w).capacity(),
        r is Ok ==> emit_all(chunks.take(base + rs@.len()), old(w).limit()) == Ok::<
            Seq<u8>,
            EncodeError,
        >(final(w).bytes()),
        r matches Err(e) ==> emit_all(chunks, old(w).limit()) == Err::<Seq<u8>, EncodeError>(e),
{
    let ghost limit = w.limit();
    let mut k: usize = 0;
    while k < rs.len()
        invariant
            w.wf(),
            w.capacity() == old(w).capacity(),
            limit == w.limit(),
            0 <= base,
            base + rs@.len() <= chunks.len(),
            forall|j: int| 0 <= j < rs@.len() ==> chunks[base + j] == resource_chunk(#[trigger] rs@[j]@),
            k <= rs@.len(),
            emit_all(chunks.take(base + k), limit) == Ok::<Seq<u8>, EncodeError>(w.bytes()),
        decreases rs@.len() - k,
    {
        assert(chunks.take(base + k + 1).drop_last() =~= chunks.take(base + k));
        assert(chunks.take(base + k + 1).last() == resource_chunk(rs@[k as int]@));
        match w.write_resource(&rs[k]) {
            Ok(()) => {},
            Err(e) => {
                proof {
                    lemma_emit_all_prefix_err(chunks, base + k + 1, limit);
                }
                return Err(e);
            },
        }
        k = k + 1;
    }
    Ok(())
}

fn write_questions<'a>(
    w: &mut MsgWriter<'a>,
    qs: &Vec<Question>,
    Ghost(chunks): Ghost<Seq<Result<Seq<u8>, EncodeError>>>,
    Ghost(base): Ghost<int>,
) -> (r: Result<(), EncodeError>)
    requires
        old(w).wf(),
        0 <= base,
        base + qs@.len() <= chunks.len(),
        forall|k: int| 0 <= k < qs@.len() ==> chunks[base + k] == question_chunk(#[trigger] qs@[k]@),
        emit_all(chunks.take(base), old(w).limit()) == Ok::<Seq<u8>, EncodeError>(old(w).bytes()),
    ensures
        final(w).wf(),
        final(w).capacity() == old(w).capacity(),
        r is Ok ==> emit_all(chunks.take(base + qs@.len()), old(w).limit()) == Ok::<
            Seq<u8>,
            EncodeError,
        >(final(w).bytes()),
        r matches Err(e) ==> emit_all(chunks, old(w).limit()) == Err::<Seq<u8>, EncodeError>(e),
{
    let ghost limit = w.limit();
    let mut k: usize = 0;
    while k < qs.len()
        invariant
            w.wf(),
            w.capacity() == old(w).capacity(),
            limit == w.limit(),
            0 <= base,
            base + qs@.len() <= chunks.len(),
            forall|j: int| 0 <= j < qs@.len() ==> chunks[base + j] == question_chunk(#[trigger] qs@[j]@),
            k <= qs@.len(),
            emit_all(chunks.take(base + k), limit) == Ok::<Seq<u8>, EncodeError>(w.bytes()),
        decreases qs@.len() - k,
    {
        assert(chunks.take(base + k + 1).drop_last() =~= chunks.take(base + k));
        assert(chunks.take(base + k + 1).last() == question_chunk(qs@[k as int]@));
        match w.write_question(&qs[k]) {
            Ok(()) => {},
            Err(e) => {
                proof {
                    lemma_emit_all_prefix_err(chunks, base + k + 1, limit);
                }
                return Err(e);
            },
        }
        k = k + 1;
    }
    Ok(())
}

fn read_resources(rd: &mut MsgReader, n: u16) -> (r: Result<Vec<Resource>, DecodeError>)
    requires
        old(rd).wf(),
    ensures
        final(rd).wf(),
        final(rd).bytes() == old(rd).bytes(),
        match parse_resources(old(rd).bytes(), old(rd).position(), n as nat) {
            Ok((rs, p)) => r matches Ok(v) && resources_view(v@) == rs && final(rd).position() == p,
            Err(e) => r matches Err(x) && x == e,
        },
{
    let ghost msg = rd.bytes();
    let ghost p0 = rd.position();
    let mut v: Vec<Resource> = Vec::new();
    let mut i: u16 = 0;
    assert(resources_view(v@) =~= Seq::<ResourceView>::empty());
    while i < n
        invariant
            rd.wf(),
            rd.bytes() == msg,
            msg == old(rd).bytes(),
            p0 == old(rd).position(),
            i <= n,
            parse_resources(msg, p0, i as nat) == Ok::<(Seq<ResourceView>, int), DecodeError>(
                (resources_view(v@), rd.position()),
            ),
        decreases n - i,
    {
        assert(((i + 1) as nat - 1) as nat == i as nat);
        let ghost before = v@;
        let x = match rd.read_resource() {
            Ok(x) => x,
            Err(e) => {
                proof {
                    lemma_parse_resources_err(msg, p0, (i + 1) as nat, n as nat);
                }
                return Err(e);
            },
        };
        v.push(x);
        assert(resources_view(v@) =~= resources_view(before).push(x@));
        i = i + 1;
    }
    Ok(v)
}

proof fn lemma_parse_resources_err(msg: Seq<u8>, pos: int, k: nat, n: nat)
    requires
        k <= n,
        parse_resources(msg, pos, k) is Err,
    ensures
        parse_resources(msg, pos, n) == parse_resources(msg, pos, k),
    decreases n - k,
{
    if k < n {
        lemma_parse_resources_err(msg, pos, k, (n - 1) as nat);
    }
}

proof fn lemma_parse_questions_err(msg: Seq<u8>, pos: int, k: nat, n: nat)
    requires
        k <= n,
        parse_questions(msg, pos, k) is Err,
    ensures
        parse_questions(msg, pos, n) == parse_questions(msg, pos, k),
    decreases n - k,
{
    if k < n {
        lemma_parse_questions_err(msg, pos, k, (n - 1) as nat);
    }
}

impl Message {
    /// Constructs a new `Message` with a random id value.
    pub fn new() -> (r: Message)
        ensures
            r@.header == default_header(r.header.id),
            r@.question.len() == 0,
            r@.answer.len() == 0,
            r@.authority.len() == 0,
            r@.additional.len() == 0,
    {
        Message {
            header: Header::new(),
            question: Vec::new(),
            answer: Vec::new(),
            authority: Vec::new(),
            additional: Vec::new(),
        }
    }

    /// Constructs a new `Message` with the given id value.
    pub fn with_id(id: u16) -> (r: Message)
        ensures
            r@.header == default_header(id),
            r@.question.len() == 0,
            r@.answer.len() == 0,
            r@.authority.len() == 0,
            r@.additional.len() == 0,
    {
        Message {
            header: Header::with_id(id),
            question: Vec::new(),
            answer: Vec::new(),
            authority: Vec::new(),
            additional: Vec::new(),
        }
    }

    /// Decodes a message from a series of bytes.
    pub fn decode(data: &[u8]) -> (r: Result<Message, DecodeError>)
        ensures
            match parse_message(data@) {
                Ok(m) => r matches Ok(x) && x@ == m,
                Err(e) => r matches Err(x) && x == e,
            },
    {
        let mut rd = MsgReader::new(data);
        let fh = rd.read_header()?;
        let ghost msg = data@;
        let mut question: Vec<Question> = Vec::new();
        let mut i: u16 = 0;
        assert(questions_view(question@) =~= Seq::<QuestionView>::empty());
        while i < fh.qd_count
            invariant
                rd.wf(),
                rd.bytes() == msg,
                msg == data@,
                parse_header(msg) == Ok::<FullHeader, DecodeError>(fh),
                i <= fh.qd_count,
                parse_questions(msg, 12, i as nat) == Ok::<(Seq<QuestionView>, int), DecodeError>(
                    (questions_view(question@), rd.position()),
                ),
            decreases fh.qd_count - i,
        {
            assert(((i + 1) as nat - 1) as nat == i as nat);
            let ghost before = question@;
            let q = match rd.read_question() {
                Ok(q) => q,
                Err(e) => {
                    proof {
                        lemma_parse_questions_err(msg, 12, (i + 1) as nat, fh.qd_count as nat);
                    }
                    return Err(e);
                },
            };
            question.push(q);
            assert(questions_view(question@) =~= questions_view(before).push(q@));
            i = i + 1;
        }
        let answer = read_resources(&mut rd, fh.an_count)?;
        let authority = read_resources(&mut rd, fh.ns_count)?;
        let additional = read_resources(&mut rd, fh.ar_count)?;
        rd.finish()?;
        Ok(Message { header: fh.to_header(), question, answer, authority, additional })
    }

    /// Encodes a message to a series of bytes. On success, returns a subslice
    /// of the given buffer containing only the encoded message bytes.
    #[verifier::rlimit(40)]
    pub fn encode<'b>(&self, buf: &'b mut [u8]) -> (r: Result<&'b [u8], EncodeError>)
        ensures
            match encode_message(self@, old(buf)@.len() as int) {
                Ok(b) => r matches Ok(x) && x@ == b,
                Err(e) => r matches Err(x) && x == e,
            },
    {
        let ghost chunks = message_chunks(self@);
        let ghost m = self@;
        let mut w = MsgWriter::new(buf);
        let ghost limit = w.limit();
        assert(limit == message_limit(old(buf)@.len() as int));
        let nq = self.question.len();
        let na = self.answer.len();
        let ns = self.authority.len();
        let nr = self.additional.len();
        assert(chunks[0] == header_chunk(m));
        proof {
            lemma_emit_first(chunks, limit);
        }
        if nq > 65535 || na > 65535 || ns > 65535 || nr > 65535 {
            proof {
                lemma_emit_all_prefix_err(chunks, 1, limit);
            }
            return Err(EncodeError::TooLong);
        }
        let fh = FullHeader {
            header: self.header,
            qd_count: nq as u16,
            an_count: na as u16,
            ns_count: ns as u16,
            ar_count: nr as u16,
        };
        assert(header_chunk(m) == Ok::<Seq<u8>, EncodeError>(
            header_wire(fh.header, fh.qd_count, fh.an_count, fh.ns_count, fh.ar_count),
        ));
        match w.write_header(&fh) {
            Ok(()) => {},
            Err(e) => {
                proof {
                    lemma_emit_all_prefix_err(chunks, 1, limit);
                }
                return Err(e);
            },
        }
        assert forall|j: int| 0 <= j < nq implies chunks[1 + j] == question_chunk(
            #[trigger] self.question@[j]@,
        ) by {}
        write_questions(&mut w, &self.question, Ghost(chunks), Ghost(1))?;
        let ghost b1 = 1 + nq as int;
        assert forall|j: int| 0 <= j < na implies chunks[b1 + j] == resource_chunk(
            #[trigger] self.answer@[j]@,
        ) by {}
        write_resources(&mut w, &self.answer, Ghost(chunks), Ghost(b1))?;
        let ghost b2 = b1 + na as int;
        assert forall|j: int| 0 <= j < ns implies chunks[b2 + j] == resource_chunk(
            #[trigger] self.authority@[j]@,
        ) by {}
        write_resources(&mut w, &self.authority, Ghost(chunks), Ghost(b2))?;
        let ghost b3 = b2 + ns as int;
        assert forall|j: int| 0 <= j < nr implies chunks[b3 + j] == resource_chunk(
            #[trigger] self.additional@[j]@,
        ) by {}
        write_resources(&mut w, &self.additional, Ghost(chunks), Ghost(b3))?;
        assert(chunks.take(b3 + nr as int) =~= chunks);
        Ok(w.into_bytes())
    }

    /// Returns a `DnsError` if the message response code is an error.
    pub fn get_error(&self) -> (r: Result<(), DnsError>)
        ensures
            self.header.rcode == RCode::NoError ==> r is Ok,
            self.header.rcode != RCode::NoError ==> r == Err::<(), DnsError>(
                DnsError(self.header.rcode),
            ),
    {
        if self.header.rcode == RCode::NoError {
            Ok(())
        } else {
            Err(DnsError(self.header.rcode))
        }
    }
}

impl Resource {
    /// Decodes resource data into the given `Record` type; the record must
    /// take up the data exactly.
    pub fn read_rdata<R: Record>(&self) -> (r: Result<R, DecodeError>)
        ensures
            match R::parse_at(self.data@, 0) {
                Ok((v, p)) => if p == self.data@.len() {
                    r matches Ok(x) && x@ == v
                } else {
                    r matches Err(x) && x == DecodeError::ExtraneousData
                },
                Err(e) => r matches Err(x) && x == e,
            },
    {
        let mut rd = MsgReader::new(self.data.as_slice());
        let res = R::decode(&mut rd)?;
        rd.finish()?;
        Ok(res)
    }

    /// Encodes resource data from the given `Record` type; nothing changes
    /// where it fails.
    pub fn write_rdata<R: Record>(&mut self, record: &R) -> (r: Result<(), EncodeError>)
        ensures
            match R::data_chunk(record@) {
                Ok(c) => if c.len() <= MESSAGE_LIMIT {
                    r is Ok && final(self)@ == (ResourceView { data: c, ..old(self)@ })
                } else {
                    r == Err::<(), EncodeError>(EncodeError::TooLong) && *final(self) == *old(self)
                },
                Err(e) => r == Err::<(), EncodeError>(e) && *final(self) == *old(self),
            },
    {
        let mut buf: Vec<u8> = vec![0u8; MESSAGE_LIMIT];
        let mut w = MsgWriter::new(buf.as_mut_slice());
        record.encode(&mut w)?;
        let bytes = w.into_bytes();
        self.data = vstd::slice::slice_to_vec(bytes);
        Ok(())
    }
}

/// The records of a message: answers, then authority records, then
/// additional records.
pub open spec fn all_records(m: MessageView) -> Seq<ResourceView> {
    m.answer + m.authority + m.additional
}

/// Yields `&Resource` items from a Message.
pub struct RecordIter<'a> {
    items: Vec<&'a Resource>,
    index: usize,
}

impl<'a> RecordIter<'a> {
    /// The records not yet yielded.
    pub closed spec fn remaining(&self) -> Seq<ResourceView> {
        self.items@.subrange(self.index as int, self.items@.len() as int).map_values(
            |r: &Resource| r@,
        )
    }

    /// The index is within the list.
    pub closed spec fn wf(&self) -> bool {
        self.index <= self.items@.len()
    }

    /// Returns the next record, if any.
    pub fn next(&mut self) -> (r: Option<&'a Resource>)
        requires
            old(self).wf(),
        ensures
            final(self).wf(),
            old(self).remaining().len() == 0 ==> r is None && final(self).remaining() == old(
                self,
            ).remaining(),
            old(self).remaining().len() > 0 ==> (r matches Some(x) && x@ == old(self).remaining()[0]
                && final(self).remaining() == old(self).remaining().drop_first()),
    {
        if self.index < self.items.len() {
            let x = self.items[self.index];
            self.index = self.index + 1;
            assert(self.remaining() =~= old(self).remaining().drop_first());
            Some(x)
        } else {
            None
        }
    }
}

/// Yields `Resource` items from a Message.
pub struct RecordIntoIter {
    reversed: Vec<Resource>,
}

impl RecordIntoIter {
    /// The records not yet yielded.
    pub closed spec fn remaining(&self) -> Seq<ResourceView> {
        resources_view(self.reversed@).reverse()
    }

    /// Returns the next record, if any.
    pub fn next(&mut self) -> (r: Option<Resource>)
        ensures
            old(self).remaining().len() == 0 ==> r is None && final(self).remaining() == old(
                self,
            ).remaining(),
            old(self).remaining().len() > 0 ==> (r matches Some(x) && x@ == old(self).remaining()[0]
                && final(self).remaining() == old(self).remaining().drop_first()),
    {
        let r = self.reversed.pop();
        proof {
            if old(self).reversed@.len() > 0 {
                assert(resources_view(self.reversed@) =~= resources_view(
                    old(self).reversed@,
                ).drop_last());
                assert(self.remaining() =~= old(self).remaining().drop_first());
            }
        }
        r
    }
}

fn push_refs<'a>(out: &mut Vec<&'a Resource>, v: &'a Vec<Resource>)
    ensures
        final(out)@.map_values(|r: &Resource| r@) == old(out)@.map_values(|r: &Resource| r@)
            + resources_view(v@),
{
    let n = v.len();
    let mut i: usize = 0;
    while i < n
        invariant
            n == v@.len(),
            i <= n,
            out@.map_values(|r: &Resource| r@) == old(out)@.map_values(|r: &Resource| r@)
                + resources_view(v@.take(i as int)),
        decreases n - i,
    {
        let ghost before = out@;
        out.push(&v[i]);
        assert(resources_view(v@.take(i + 1)) =~= resources_view(v@.take(i as int)).push(
            v@[i as int]@,
        ));
        assert(out@.map_values(|r: &Resource| r@) =~= before.map_values(|r: &Resource| r@).push(
            v@[i as int]@,
        ));
        i = i + 1;
    }
    assert(v@.take(n as int) =~= v@);
}

impl Message {
    /// Returns an iterator over the records in this message.
    pub fn records(&self) -> (r: RecordIter<'_>)
        ensures
            r.wf(),
            r.remaining() == all_records(self@),
    {
        let mut items: Vec<&Resource> = Vec::new();
        assert(items@.map_values(|r: &Resource| r@) =~= Seq::<ResourceView>::empty());
        push_refs(&mut items, &self.answer);
        push_refs(&mut items, &self.authority);
        push_refs(&mut items, &self.additional);
        let r = RecordIter { items, index: 0 };
        assert(r.remaining() =~= all_records(self@));
        r
    }

    /// Consumes the message and returns an iterator over its records.
    pub fn into_records(self) -> (r: RecordIntoIter)
        ensures
            r.remaining() == all_records(self@),
    {
        let mut all = self.answer;
        let mut authority = self.authority;
        let mut additional = self.additional;
        all.append(&mut authority);
        all.append(&mut additional);
        let ghost whole = all@;
        assert(resources_view(whole) =~= all_records(self@));
        let mut reversed: Vec<Resource> = Vec::new();
        while all.len() > 0
            invariant
                resources_view(all@) + resources_view(reversed@).reverse() == resources_view(whole),
            decreases all@.len(),
        {
            let ghost a = all@;
            let ghost b = reversed@;
            let x = all.pop().unwrap();
            reversed.push(x);
            assert(resources_view(a) =~= resources_view(all@).push(x@));
            assert(resources_view(reversed@).reverse() =~= seq![x@] + resources_view(b).reverse());
            assert(resources_view(all@) + resources_view(reversed@).reverse() =~= resources_view(a)
                + resources_view(b).reverse());
        }
        assert(resources_view(all@) =~= Seq::<ResourceView>::empty());
        assert(Seq::<ResourceView>::empty() + resources_view(reversed@).reverse() =~= resources_view(
            reversed@,
        ).reverse());
        RecordIntoIter { reversed }
    }
}

} // verus!
