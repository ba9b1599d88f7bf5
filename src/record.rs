//! DNS resource record types.

use vstd::prelude::*;

use crate::address::{Ipv4Addr, Ipv6Addr};
use crate::message::{
    append_bytes, push_u16, push_u32, be_u16, be_u32, character_string_chunk, encode_name, name_chunk, name_wire,
    parse_character_string, parse_name, u16_bytes, u32_bytes, DecodeError, EncodeError, MsgReader,
    MsgWriter,
};

verus! {

/// Represents the class of data in a message.
#[derive(Copy, Clone, Debug, PartialEq, Eq, Structural)]
pub enum Class {
    /// Internet (`IN`)
    Internet,
    /// Any (`*`)
    Any,
    /// An unrecognized class
    Other(u16),
}

/// The class that a numeric code on the wire stands for.
pub open spec fn class_of(u: u16) -> Class {
    if u == 1 {
        Class::Internet
    } else if u == 255 {
        Class::Any
    } else {
        Class::Other(u)
    }
}

/// The numeric code written on the wire for a class.
pub open spec fn class_code(c: Class) -> u16 {
    match c {
        Class::Internet => 1,
        Class::Any => 255,
        Class::Other(n) => n,
    }
}

impl Class {
    /// Converts a `u16` to a `Class`.
    pub fn from_u16(u: u16) -> (r: Class)
        ensures
            r == class_of(u),
    {
        match u {
            1 => Class::Internet,
            255 => Class::Any,
            n => Class::Other(n),
        }
    }

    /// Converts a `Class` to a `u16`.
    pub fn to_u16(&self) -> (r: u16)
        ensures
            r == class_code(*self),
    {
        match *self {
            Class::Internet => 1,
            Class::Any => 255,
            Class::Other(n) => n,
        }
    }
}

/// Represents the type of data in a message.
#[derive(Copy, Clone, Debug, PartialEq, Eq, Structural)]
pub enum RecordType {
    /// An IPv4 host address
    A,
    /// An IPv6 host address
    AAAA,
    /// Canonical name for an alias
    CName,
    /// Mail exchange
    Mx,
    /// Authoritative name server
    Ns,
    /// Domain name pointer
    Ptr,
    /// Start of authority
    Soa,
    /// Service record
    Srv,
    /// Text string
    Txt,
    /// Unrecognized record type
    Other(u16),
}

/// The record type that a numeric code on the wire stands for.
pub open spec fn record_type_of(u: u16) -> RecordType {
    if u == 1 {
        RecordType::A
    } else if u == 28 {
        RecordType::AAAA
    } else if u == 5 {
        RecordType::CName
    } else if u == 15 {
        RecordType::Mx
    } else if u == 2 {
        RecordType::Ns
    } else if u == 12 {
        RecordType::Ptr
    } else if u == 6 {
        RecordType::Soa
    } else if u == 33 {
        RecordType::Srv
    } else if u == 16 {
        RecordType::Txt
    } else {
        RecordType::Other(u)
    }
}

/// The numeric code written on the wire for a record type.
pub open spec fn record_type_code(t: RecordType) -> u16 {
    match t {
        RecordType::A => 1,
        RecordType::AAAA => 28,
        RecordType::CName => 5,
        RecordType::Mx => 15,
        RecordType::Ns => 2,
        RecordType::Ptr => 12,
        RecordType::Soa => 6,
        RecordType::Srv => 33,
        RecordType::Txt => 16,
        RecordType::Other(n) => n,
    }
}

impl RecordType {
    /// Converts a `u16` to a `RecordType`.
    pub fn from_u16(u: u16) -> (r: RecordType)
        ensures
            r == record_type_of(u),
    {
        match u {
            1 => RecordType::A,
            28 => RecordType::AAAA,
            5 => RecordType::CName,
            15 => RecordType::Mx,
            2 => RecordType::Ns,
            12 => RecordType::Ptr,
            6 => RecordType::Soa,
            33 => RecordType::Srv,
            16 => RecordType::Txt,
            n => RecordType::Other(n),
        }
    }

    /// Converts a `RecordType` to a `u16`.
    pub fn to_u16(&self) -> (r: u16)
        ensures
            r == record_type_code(*self),
    {
        match *self {
            RecordType::A => 1,
            RecordType::AAAA => 28,
            RecordType::CName => 5,
            RecordType::Mx => 15,
            RecordType::Ns => 2,
            RecordType::Ptr => 12,
            RecordType::Soa => 6,
            RecordType::Srv => 33,
            RecordType::Txt => 16,
            RecordType::Other(n) => n,
        }
    }
}

/// Represents resource record data.
pub trait Record: Sized + View {
    /// The record whose data starts at `pos` of `msg`, and the offset just
    /// past it.
    spec fn parse_at(msg: Seq<u8>, pos: int) -> Result<(Self::V, int), DecodeError>;

    /// The bytes of the record's data, or the error in encoding it.
    spec fn data_chunk(v: Self::V) -> Result<Seq<u8>, EncodeError>;

    /// The record type of queries for this record.
    spec fn spec_record_type() -> RecordType;

    /// Decodes the `Record` from resource rdata.
    fn decode(data: &mut MsgReader) -> (r: Result<Self, DecodeError>)
        requires
            old(data).wf(),
        ensures
            final(data).wf(),
            final(data).bytes() == old(data).bytes(),
            match Self::parse_at(old(data).bytes(), old(data).position()) {
                Ok((v, p)) => r matches Ok(x) && x@ == v && final(data).position() == p,
                Err(e) => r matches Err(x) && x == e,
            },
    ;

    /// Encodes the `Record` to resource rdata, or writes nothing where it fails.
    fn encode(&self, data: &mut MsgWriter) -> (r: Result<(), EncodeError>)
        requires
            old(data).wf(),
        ensures
            old(data).emits(final(data), r, Self::data_chunk(self@)),
    ;

    /// Returns the `RecordType` of queries for this record.
    fn record_type() -> (t: RecordType)
        ensures
            t == Self::spec_record_type(),
    ;
}

/// Bytes in network byte order for a list of 16-bit values.
pub open spec fn u16s_bytes(s: Seq<u16>) -> Seq<u8> {
    Seq::new(
        2 * s.len(),
        |j: int| if j % 2 == 0 { (s[j / 2] / 256) as u8 } else { (s[j / 2] % 256) as u8 },
    )
}

/// `n` 16-bit values in network byte order from `pos`.
pub open spec fn be_u16s(msg: Seq<u8>, pos: int, n: int) -> Seq<u16> {
    Seq::new(n as nat, |i: int| be_u16(msg[pos + 2 * i], msg[pos + 2 * i + 1]))
}

/// An IPv4 host address
#[derive(Copy, Clone, Debug, PartialEq, Eq, Hash)]
pub struct A {
    /// The host address
    pub address: Ipv4Addr,
}

impl View for A {
    type V = Seq<u8>;

    open spec fn view(&self) -> Seq<u8> {
        self.address.octets@
    }
}

impl Record for A {
    open spec fn parse_at(msg: Seq<u8>, pos: int) -> Result<(Seq<u8>, int), DecodeError> {
        if pos + 4 > msg.len() {
            Err(DecodeError::ShortMessage)
        } else {
            Ok((msg.subrange(pos, pos + 4), pos + 4))
        }
    }

    open spec fn data_chunk(v: Seq<u8>) -> Result<Seq<u8>, EncodeError> {
        Ok(v)
    }

    open spec fn spec_record_type() -> RecordType {
        RecordType::A
    }

    fn decode(data: &mut MsgReader) -> (r: Result<Self, DecodeError>) {
        if data.remaining() < 4 {
            return Err(DecodeError::ShortMessage);
        }
        let a = data.read_byte()?;
        let b = data.read_byte()?;
        let c = data.read_byte()?;
        let d = data.read_byte()?;
        let r = A { address: Ipv4Addr::new(a, b, c, d) };
        assert(r@ =~= old(data).bytes().subrange(old(data).position(), old(data).position() + 4));
        Ok(r)
    }

    fn encode(&self, data: &mut MsgWriter) -> (r: Result<(), EncodeError>) {
        let o = self.address.octets;
        let v: Vec<u8> = vec![o[0], o[1], o[2], o[3]];
        assert(v@ =~= self@);
        data.write(v.as_slice())
    }

    fn record_type() -> (t: RecordType) {
        RecordType::A
    }
}

/// An IPv6 host address
#[derive(Copy, Clone, Debug, PartialEq, Eq, Hash)]
pub struct AAAA {
    /// The host address
    pub address: Ipv6Addr,
}

impl View for AAAA {
    type V = Seq<u16>;

    open spec fn view(&self) -> Seq<u16> {
        self.address.segments@
    }
}

impl Record for AAAA {
    open spec fn parse_at(msg: Seq<u8>, pos: int) -> Result<(Seq<u16>, int), DecodeError> {
        if pos + 16 > msg.len() {
            Err(DecodeError::ShortMessage)
        } else {
            Ok((be_u16s(msg, pos, 8), pos + 16))
        }
    }

    open spec fn data_chunk(v: Seq<u16>) -> Result<Seq<u8>, EncodeError> {
        Ok(u16s_bytes(v))
    }

    open spec fn spec_record_type() -> RecordType {
        RecordType::AAAA
    }

    fn decode(data: &mut MsgReader) -> (r: Result<Self, DecodeError>) {
        if data.remaining() < 16 {
            return Err(DecodeError::ShortMessage);
        }
        let ghost msg = data.bytes();
        let ghost p0 = data.position();
        let mut s: Vec<u16> = Vec::new();
        let mut i: usize = 0;
        while i < 8
            invariant
                data.wf(),
                data.bytes() == msg,
                msg == old(data).bytes(),
                p0 == old(data).position(),
                p0 + 16 <= msg.len(),
                i <= 8,
                data.position() == p0 + 2 * i,
                s@ == be_u16s(msg, p0, i as int),
            decreases 8 - i,
        {
            let x = data.read_u16()?;
            s.push(x);
            i = i + 1;
            assert(s@ =~= be_u16s(msg, p0, i as int));
        }
        let r = AAAA { address: Ipv6Addr::new(s[0], s[1], s[2], s[3], s[4], s[5], s[6], s[7]) };
        assert(r@ =~= be_u16s(msg, p0, 8));
        Ok(r)
    }

    fn encode(&self, data: &mut MsgWriter) -> (r: Result<(), EncodeError>) {
        let s = self.address.segments;
        let mut v: Vec<u8> = Vec::new();
        let mut i: usize = 0;
        while i < 8
            invariant
                i <= 8,
                s@ == self@,
                s@.len() == 8,
                v@ == u16s_bytes(s@.take(i as int)),
            decreases 8 - i,
        {
            push_u16(&mut v, s[i]);
            i = i + 1;
            assert(v@ =~= u16s_bytes(s@.take(i as int)));
        }
        assert(s@.take(8) =~= s@);
        data.write(v.as_slice())
    }

    fn record_type() -> (t: RecordType) {
        RecordType::AAAA
    }
}

/// Canonical name for an alias
#[derive(Clone, Debug, PartialEq, Eq, Hash)]
pub struct CName {
    /// Canonical host name
    pub name: String,
}

impl View for CName {
    type V = Seq<char>;

    open spec fn view(&self) -> Seq<char> {
        self.name@
    }
}

impl Record for CName {
    open spec fn parse_at(msg: Seq<u8>, pos: int) -> Result<(Seq<char>, int), DecodeError> {
        parse_name(msg, pos)
    }

    open spec fn data_chunk(v: Seq<char>) -> Result<Seq<u8>, EncodeError> {
        name_chunk(v)
    }

    open spec fn spec_record_type() -> RecordType {
        RecordType::CName
    }

    fn decode(data: &mut MsgReader) -> (r: Result<Self, DecodeError>) {
        Ok(CName { name: data.read_name()? })
    }

    fn encode(&self, data: &mut MsgWriter) -> (r: Result<(), EncodeError>) {
        data.write_name(self.name.as_str())
    }

    fn record_type() -> (t: RecordType) {
        RecordType::CName
    }
}

/// Mail exchange data
#[derive(Clone, Debug, PartialEq, Eq, Hash)]
pub struct Mx {
    /// Represents the preference of this record among others.
    /// Lower values are preferred.
    pub preference: u16,
    /// Domain name willing to act as mail exchange for the host.
    pub exchange: String,
}

impl View for Mx {
    type V = (u16, Seq<char>);

    open spec fn view(&self) -> (u16, Seq<char>) {
        (self.preference, self.exchange@)
    }
}

impl Record for Mx {
    open spec fn parse_at(msg: Seq<u8>, pos: int) -> Result<((u16, Seq<char>), int), DecodeError> {
        if pos + 2 > msg.len() {
            Err(DecodeError::ShortMessage)
        } else {
            match parse_name(msg, pos + 2) {
                Ok((n, p)) => Ok(((be_u16(msg[pos], msg[pos + 1]), n), p)),
                Err(e) => Err(e),
            }
        }
    }

    open spec fn data_chunk(v: (u16, Seq<char>)) -> Result<Seq<u8>, EncodeError> {
        match name_wire(v.1) {
            Some(w) => Ok(u16_bytes(v.0) + w),
            None => Err(EncodeError::InvalidName),
        }
    }

    open spec fn spec_record_type() -> RecordType {
        RecordType::Mx
    }

    fn decode(data: &mut MsgReader) -> (r: Result<Self, DecodeError>) {
        let preference = data.read_u16()?;
        let exchange = data.read_name()?;
        Ok(Mx { preference, exchange })
    }

    fn encode(&self, data: &mut MsgWriter) -> (r: Result<(), EncodeError>) {
        let w = encode_name(self.exchange.as_str())?;
        let mut v: Vec<u8> = Vec::new();
        push_u16(&mut v, self.preference);
        append_bytes(&mut v, w.as_slice());
        data.write(v.as_slice())
    }

    fn record_type() -> (t: RecordType) {
        RecordType::Mx
    }
}

/// Authoritative name server
#[derive(Clone, Debug, PartialEq, Eq, Hash)]
pub struct Ns {
    /// Host which should be authoritative for the specified class and domain
    pub name: String,
}

impl View for Ns {
    type V = Seq<char>;

    open spec fn view(&self) -> Seq<char> {
        self.name@
    }
}

impl Record for Ns {
    open spec fn parse_at(msg: Seq<u8>, pos: int) -> Result<(Seq<char>, int), DecodeError> {
        parse_name(msg, pos)
    }

    open spec fn data_chunk(v: Seq<char>) -> Result<Seq<u8>, EncodeError> {
        name_chunk(v)
    }

    open spec fn spec_record_type() -> RecordType {
        RecordType::Ns
    }

    fn decode(data: &mut MsgReader) -> (r: Result<Self, DecodeError>) {
        Ok(Ns { name: data.read_name()? })
    }

    fn encode(&self, data: &mut MsgWriter) -> (r: Result<(), EncodeError>) {
        data.write_name(self.name.as_str())
    }

    fn record_type() -> (t: RecordType) {
        RecordType::Ns
    }
}

/// Domain name pointer
#[derive(Clone, Debug, PartialEq, Eq, Hash)]
pub struct Ptr {
    /// The name of the host
    pub name: String,
}

impl View for Ptr {
    type V = Seq<char>;

    open spec fn view(&self) -> Seq<char> {
        self.name@
    }
}

impl Record for Ptr {
    open spec fn parse_at(msg: Seq<u8>, pos: int) -> Result<(Seq<char>, int), DecodeError> {
        parse_name(msg, pos)
    }

    open spec fn data_chunk(v: Seq<char>) -> Result<Seq<u8>, EncodeError> {
        name_chunk(v)
    }

    open spec fn spec_record_type() -> RecordType {
        RecordType::Ptr
    }

    fn decode(data: &mut MsgReader) -> (r: Result<Self, DecodeError>) {
        Ok(Ptr { name: data.read_name()? })
    }

    fn encode(&self, data: &mut MsgWriter) -> (r: Result<(), EncodeError>) {
        data.write_name(self.name.as_str())
    }

    fn record_type() -> (t: RecordType) {
        RecordType::Ptr
    }
}

/// Start of authority
#[derive(Clone, Debug, PartialEq, Eq, Hash)]
pub struct Soa {
    /// Domain name of the name server that is the primary source of data
    /// for this zone.
    pub mname: String,
    /// Domain name which specifies the mailbox of the person responsible
    /// for this zone.
    pub rname: String,
    /// Version number of the zone's master copy. This value wraps and
    /// should be compared using sequence space arithmetic.
    pub serial: u32,
    /// Time interval before the zone should be refreshed.
    pub refresh: u32,
    /// Time interval that should elapse before a failed refresh should be retried.
    pub retry: u32,
    /// Time value that specifies the upper limit on the time interval that can
    /// elapse before the zone is no longer authoritative.
    pub expire: u32,
    /// Minimum TTL that should be exported with any resource record from this zone.
    pub minimum: u32,
}

impl View for Soa {
    type V = (Seq<char>, Seq<char>, Seq<u32>);

    open spec fn view(&self) -> (Seq<char>, Seq<char>, Seq<u32>) {
        (
            self.mname@,
            self.rname@,
            seq![self.serial, self.refresh, self.retry, self.expire, self.minimum],
        )
    }
}

impl Record for Soa {
    open spec fn parse_at(msg: Seq<u8>, pos: int) -> Result<
        ((Seq<char>, Seq<char>, Seq<u32>), int),
        DecodeError,
    > {
        match parse_name(msg, pos) {
            Ok((m, p1)) => match parse_name(msg, p1) {
                Ok((r, p2)) => if p2 + 20 > msg.len() {
                    Err(DecodeError::ShortMessage)
                } else {
                    Ok(
                        (
                            (
                                m,
                                r,
                                Seq::new(5, |i: int| be_u32(msg.subrange(p2 + 4 * i, p2 + 4 * i + 4))),
                            ),
                            p2 + 20,
                        ),
                    )
                },
                Err(e) => Err(e),
            },
            Err(e) => Err(e),
        }
    }

    open spec fn data_chunk(v: (Seq<char>, Seq<char>, Seq<u32>)) -> Result<Seq<u8>, EncodeError> {
        match (name_wire(v.0), name_wire(v.1)) {
            (Some(wm), Some(wr)) => Ok(
                wm + wr + u32_bytes(v.2[0]) + u32_bytes(v.2[1]) + u32_bytes(v.2[2]) + u32_bytes(
                    v.2[3],
                ) + u32_bytes(v.2[4]),
            ),
            _ => Err(EncodeError::InvalidName),
        }
    }

    open spec fn spec_record_type() -> RecordType {
        RecordType::Soa
    }

    fn decode(data: &mut MsgReader) -> (r: Result<Self, DecodeError>) {
        let mname = data.read_name()?;
        let rname = data.read_name()?;
        let ghost p2 = data.position();
        let ghost msg = data.bytes();
        if data.remaining() < 20 {
            return Err(DecodeError::ShortMessage);
        }
        let serial = data.read_u32()?;
        let refresh = data.read_u32()?;
        let retry = data.read_u32()?;
        let expire = data.read_u32()?;
        let minimum = data.read_u32()?;
        let r = Soa { mname, rname, serial, refresh, retry, expire, minimum };
        assert(r@.2 =~= Seq::new(5, |i: int| be_u32(msg.subrange(p2 + 4 * i, p2 + 4 * i + 4))));
        Ok(r)
    }

    fn encode(&self, data: &mut MsgWriter) -> (r: Result<(), EncodeError>) {
        let wm = encode_name(self.mname.as_str())?;
        let wr = encode_name(self.rname.as_str())?;
        let mut v: Vec<u8> = Vec::new();
        append_bytes(&mut v, wm.as_slice());
        append_bytes(&mut v, wr.as_slice());
        push_u32(&mut v, self.serial);
        push_u32(&mut v, self.refresh);
        push_u32(&mut v, self.retry);
        push_u32(&mut v, self.expire);
        push_u32(&mut v, self.minimum);
        data.write(v.as_slice())
    }

    fn record_type() -> (t: RecordType) {
        RecordType::Soa
    }
}

/// Service record
#[derive(Clone, Debug, PartialEq, Eq, Hash)]
pub struct Srv {
    /// Record priority
    pub priority: u16,
    /// Record weight
    pub weight: u16,
    /// Service port
    pub port: u16,
    /// Target host name
    pub target: String,
}

impl View for Srv {
    type V = (u16, u16, u16, Seq<char>);

    open spec fn view(&self) -> (u16, u16, u16, Seq<char>) {
        (self.priority, self.weight, self.port, self.target@)
    }
}

impl Record for Srv {
    open spec fn parse_at(msg: Seq<u8>, pos: int) -> Result<
        ((u16, u16, u16, Seq<char>), int),
        DecodeError,
    > {
        if pos + 6 > msg.len() {
            Err(DecodeError::ShortMessage)
        } else {
            match parse_name(msg, pos + 6) {
                Ok((t, p)) => Ok(
                    (
                        (
                            be_u16(msg[pos], msg[pos + 1]),
                            be_u16(msg[pos + 2], msg[pos + 3]),
                            be_u16(msg[pos + 4], msg[pos + 5]),
                            t,
                        ),
                        p,
                    ),
                ),
                Err(e) => Err(e),
            }
        }
    }

    open spec fn data_chunk(v: (u16, u16, u16, Seq<char>)) -> Result<Seq<u8>, EncodeError> {
        match name_wire(v.3) {
            Some(w) => Ok(u16_bytes(v.0) + u16_bytes(v.1) + u16_bytes(v.2) + w),
            None => Err(EncodeError::InvalidName),
        }
    }

    open spec fn spec_record_type() -> RecordType {
        RecordType::Srv
    }

    fn decode(data: &mut MsgReader) -> (r: Result<Self, DecodeError>) {
        if data.remaining() < 6 {
            return Err(DecodeError::ShortMessage);
        }
        let priority = data.read_u16()?;
        let weight = data.read_u16()?;
        let port = data.read_u16()?;
        let target = data.read_name()?;
        Ok(Srv { priority, weight, port, target })
    }

    fn encode(&self, data: &mut MsgWriter) -> (r: Result<(), EncodeError>) {
        let w = encode_name(self.target.as_str())?;
        let mut v: Vec<u8> = Vec::new();
        push_u16(&mut v, self.priority);
        push_u16(&mut v, self.weight);
        push_u16(&mut v, self.port);
        append_bytes(&mut v, w.as_slice());
        data.write(v.as_slice())
    }

    fn record_type() -> (t: RecordType) {
        RecordType::Srv
    }
}

/// Text record
#[derive(Clone, Debug, PartialEq, Eq, Hash)]
pub struct Txt {
    /// One character-string of data
    pub data: Vec<u8>,
}

impl View for Txt {
    type V = Seq<u8>;

    open spec fn view(&self) -> Seq<u8> {
        self.data@
    }
}

impl Record for Txt {
    open spec fn parse_at(msg: Seq<u8>, pos: int) -> Result<(Seq<u8>, int), DecodeError> {
        parse_character_string(msg, pos)
    }

    open spec fn data_chunk(v: Seq<u8>) -> Result<Seq<u8>, EncodeError> {
        character_string_chunk(v)
    }

    open spec fn spec_record_type() -> RecordType {
        RecordType::Txt
    }

    fn decode(data: &mut MsgReader) -> (r: Result<Self, DecodeError>) {
        Ok(Txt { data: data.read_character_string()? })
    }

    fn encode(&self, data: &mut MsgWriter) -> (r: Result<(), EncodeError>) {
        data.write_character_string(self.data.as_slice())
    }

    fn record_type() -> (t: RecordType) {
        RecordType::Txt
    }
}

} // verus!
