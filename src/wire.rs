//! The control protocol's wire format.
//!
//! Integers are little-endian; an enum variant is its index as a `u32`; a
//! string or a byte payload is its length as a `u64` followed by its bytes
//! (UTF-8 for strings). Decoders ignore bytes after the value they read.
//! This is the layout that bincode's default functions give these values,
//! so a peer that serialises the same shapes with bincode understands it.

use crate::types::{
    command_of_tag, Action, ActionModel, Alias, AliasModel, Command, Error, Packet, Request,
    RequestModel, Track, TrackModel,
};
use vstd::prelude::*;
use vstd::slice::slice_subrange;
use vstd::utf8::*;

verus! {

broadcast use vstd::utf8::encode_utf8_valid_utf8, vstd::utf8::encode_utf8_decode_utf8;

pub open spec fn le_u32(n: u32) -> Seq<u8> {
    seq![n as u8, (n >> 8u32) as u8, (n >> 16u32) as u8, (n >> 24u32) as u8]
}

pub open spec fn le_u64(n: u64) -> Seq<u8> {
    seq![
        n as u8,
        (n >> 8u64) as u8,
        (n >> 16u64) as u8,
        (n >> 24u64) as u8,
        (n >> 32u64) as u8,
        (n >> 40u64) as u8,
        (n >> 48u64) as u8,
        (n >> 56u64) as u8,
    ]
}

/// The `u32` whose little-endian bytes open `b`.
pub open spec fn u32_of_le(b: Seq<u8>) -> u32 {
    (b[0] as u32) | ((b[1] as u32) << 8u32) | ((b[2] as u32) << 16u32) | ((b[3] as u32) << 24u32)
}

/// The `u64` whose little-endian bytes open `b`.
pub open spec fn u64_of_le(b: Seq<u8>) -> u64 {
    (b[0] as u64) | ((b[1] as u64) << 8u64) | ((b[2] as u64) << 16u64) | ((b[3] as u64) << 24u64)
        | ((b[4] as u64) << 32u64) | ((b[5] as u64) << 40u64) | ((b[6] as u64) << 48u64) | ((
    b[7] as u64) << 56u64)
}

proof fn lemma_u32_round_trip(n: u32)
    ensures
        u32_of_le(le_u32(n)) == n,
{
    let b = le_u32(n);
    let (b0, b1, b2, b3) = (b[0], b[1], b[2], b[3]);
    assert((b0 as u32) | ((b1 as u32) << 8u32) | ((b2 as u32) << 16u32) | ((b3 as u32) << 24u32)
        == n) by (bit_vector)
        requires
            b0 == n as u8,
            b1 == (n >> 8u32) as u8,
            b2 == (n >> 16u32) as u8,
            b3 == (n >> 24u32) as u8,
    ;
}

proof fn lemma_u64_round_trip(n: u64)
    ensures
        u64_of_le(le_u64(n)) == n,
{
    let b = le_u64(n);
    let (b0, b1, b2, b3, b4, b5, b6, b7) = (b[0], b[1], b[2], b[3], b[4], b[5], b[6], b[7]);
    assert((b0 as u64) | ((b1 as u64) << 8u64) | ((b2 as u64) << 16u64) | ((b3 as u64) << 24u64)
        | ((b4 as u64) << 32u64) | ((b5 as u64) << 40u64) | ((b6 as u64) << 48u64) | ((
    b7 as u64) << 56u64) == n) by (bit_vector)
        requires
            b0 == n as u8,
            b1 == (n >> 8u64) as u8,
            b2 == (n >> 16u64) as u8,
            b3 == (n >> 24u64) as u8,
            b4 == (n >> 32u64) as u8,
            b5 == (n >> 40u64) as u8,
            b6 == (n >> 48u64) as u8,
            b7 == (n >> 56u64) as u8,
    ;
}

fn push_u32(out: &mut Vec<u8>, n: u32)
    ensures
        final(out)@ == old(out)@ + le_u32(n),
{
    out.push(n as u8);
    out.push((n >> 8u32) as u8);
    out.push((n >> 16u32) as u8);
    out.push((n >> 24u32) as u8);
    assert(final(out)@ =~= old(out)@ + le_u32(n));
}

fn push_u64(out: &mut Vec<u8>, n: u64)
    ensures
        final(out)@ == old(out)@ + le_u64(n),
{
    out.push(n as u8);
    out.push((n >> 8u64) as u8);
    out.push((n >> 16u64) as u8);
    out.push((n >> 24u64) as u8);
    out.push((n >> 32u64) as u8);
    out.push((n >> 40u64) as u8);
    out.push((n >> 48u64) as u8);
    out.push((n >> 56u64) as u8);
    assert(final(out)@ =~= old(out)@ + le_u64(n));
}

fn read_u32(b: &[u8], at: usize) -> (r: u32)
    requires
        at + 4 <= b@.len(),
    ensures
        r == u32_of_le(b@.subrange(at as int, b@.len() as int)),
{
    (b[at] as u32) | ((b[at + 1] as u32) << 8u32) | ((b[at + 2] as u32) << 16u32) | ((
    b[at + 3] as u32) << 24u32)
}

fn read_u64(b: &[u8], at: usize) -> (r: u64)
    requires
        at + 8 <= b@.len(),
    ensures
        r == u64_of_le(b@.subrange(at as int, b@.len() as int)),
{
    (b[at] as u64) | ((b[at + 1] as u64) << 8u64) | ((b[at + 2] as u64) << 16u64) | ((
    b[at + 3] as u64) << 24u64) | ((b[at + 4] as u64) << 32u64) | ((b[at + 5] as u64) << 40u64)
        | ((b[at + 6] as u64) << 48u64) | ((b[at + 7] as u64) << 56u64)
}

/// The bytes of a string on the wire.
pub open spec fn str_bytes(s: Seq<char>) -> Seq<u8> {
    le_u64(encode_utf8(s).len() as u64) + encode_utf8(s)
}

/// Whether the UTF-8 length of `s` can be written in a `u64`; true of every
/// string held in memory.
pub open spec fn str_fits(s: Seq<char>) -> bool {
    encode_utf8(s).len() <= u64::MAX
}

/// The string that opens `b`, with the number of bytes that it takes.
pub open spec fn parse_str(b: Seq<u8>) -> Option<(Seq<char>, int)> {
    if b.len() < 8 {
        None
    } else {
        let n = u64_of_le(b) as int;
        if 8 + n <= b.len() && valid_utf8(b.subrange(8, 8 + n)) {
            Some((decode_utf8(b.subrange(8, 8 + n)), 8 + n))
        } else {
            None
        }
    }
}

/// Relies on bincode::serialize of a `str` (bincode 1.3 legacy configuration:
/// fixed-width little-endian integers): the byte length as a `u64`, then the
/// UTF-8 bytes. Serialising into memory with no size limit does not fail.
#[verifier::external_body]
fn bincode_write_str(s: &str) -> (r: Option<Vec<u8>>)
    ensures
        r is Some,
        r->Some_0@ == str_bytes(s@),
{
    bincode::serialize(s).ok()
}

/// Relies on bincode::deserialize::<String> (bincode 1.3 legacy configuration):
/// a little-endian `u64` length, that many bytes that must be UTF-8, and any
/// bytes after them ignored.
#[verifier::external_body]
fn bincode_read_str(b: &[u8]) -> (r: Option<String>)
    ensures
        r is Some <==> parse_str(b@) is Some,
        r is Some ==> r->Some_0@ == parse_str(b@)->Some_0.0,
{
    bincode::deserialize::<String>(b).ok()
}

/// Appends the wire form of `s` to `out`.
fn push_str(out: &mut Vec<u8>, s: &str)
    ensures
        final(out)@ == old(out)@ + str_bytes(s@),
{
    let mut v = match bincode_write_str(s) {
        Some(v) => v,
        None => Vec::new(),
    };
    out.append(&mut v);
}

/// Reads the string that starts at `at`, and the position after it.
fn read_str(b: &[u8], at: usize) -> (r: Option<(String, usize)>)
    requires
        at <= b@.len(),
    ensures
        match parse_str(b@.subrange(at as int, b@.len() as int)) {
            Some((s, k)) => r matches Some((x, e)) && x@ == s && e == at + k,
            None => r is None,
        },
{
    let rest = slice_subrange(b, at, b.len());
    match bincode_read_str(rest) {
        Some(s) => {
            let n = read_u64(rest, 0);
            assert(rest@.subrange(0, rest@.len() as int) =~= rest@);
            Some((s, at + 8 + n as usize))
        },
        None => None,
    }
}

pub open spec fn alias_bytes(a: AliasModel) -> Seq<u8> {
    match a {
        AliasModel::Script(s) => le_u32(0) + str_bytes(s),
        AliasModel::Basename => le_u32(1),
        AliasModel::Name(n) => le_u32(2) + str_bytes(n),
    }
}

pub open spec fn action_bytes(a: ActionModel) -> Seq<u8> {
    match a {
        ActionModel::Save => le_u32(0),
        ActionModel::Script(s) => le_u32(1) + str_bytes(s),
    }
}

pub open spec fn track_bytes(t: TrackModel) -> Seq<u8> {
    str_bytes(t.fpath) + alias_bytes(t.alias) + action_bytes(t.action)
}

pub open spec fn parse_alias(b: Seq<u8>) -> Option<(AliasModel, int)> {
    if b.len() < 4 {
        None
    } else {
        let tag = u32_of_le(b);
        let rest = b.subrange(4, b.len() as int);
        if tag == 0 {
            match parse_str(rest) {
                Some((s, k)) => Some((AliasModel::Script(s), 4 + k)),
                None => None,
            }
        } else if tag == 1 {
            Some((AliasModel::Basename, 4))
        } else if tag == 2 {
            match parse_str(rest) {
                Some((s, k)) => Some((AliasModel::Name(s), 4 + k)),
                None => None,
            }
        } else {
            None
        }
    }
}

pub open spec fn parse_action(b: Seq<u8>) -> Option<ActionModel> {
    if b.len() < 4 {
        None
    } else {
        let tag = u32_of_le(b);
        if tag == 0 {
            Some(ActionModel::Save)
        } else if tag == 1 {
            match parse_str(b.subrange(4, b.len() as int)) {
                Some((s, _)) => Some(ActionModel::Script(s)),
                None => None,
            }
        } else {
            None
        }
    }
}

pub open spec fn parse_track(b: Seq<u8>) -> Option<TrackModel> {
    match parse_str(b) {
        Some((p, k)) => match parse_alias(b.subrange(k, b.len() as int)) {
            Some((a, j)) => match parse_action(b.subrange(k + j, b.len() as int)) {
                Some(c) => Some(TrackModel { fpath: p, alias: a, action: c }),
                None => None,
            },
            None => None,
        },
        None => None,
    }
}

fn read_alias(b: &[u8], at: usize) -> (r: Option<(Alias, usize)>)
    requires
        at <= b@.len(),
    ensures
        match parse_alias(b@.subrange(at as int, b@.len() as int)) {
            Some((a, k)) => r matches Some((x, e)) && x@ == a && e == at + k,
            None => r is None,
        },
{
    let ghost rest = b@.subrange(at as int, b@.len() as int);
    if b.len() - at < 4 {
        return None;
    }
    let tag = read_u32(b, at);
    assert(b@.subrange(at + 4, b@.len() as int) =~= rest.subrange(4, rest.len() as int));
    if tag == 0 {
        match read_str(b, at + 4) {
            Some((s, e)) => Some((Alias::Script(s), e)),
            None => None,
        }
    } else if tag == 1 {
        Some((Alias::Basename, at + 4))
    } else if tag == 2 {
        match read_str(b, at + 4) {
            Some((s, e)) => Some((Alias::Name(s), e)),
            None => None,
        }
    } else {
        None
    }
}

fn read_action(b: &[u8], at: usize) -> (r: Option<Action>)
    requires
        at <= b@.len(),
    ensures
        match parse_action(b@.subrange(at as int, b@.len() as int)) {
            Some(a) => r matches Some(x) && x@ == a,
            None => r is None,
        },
{
    let ghost rest = b@.subrange(at as int, b@.len() as int);
    if b.len() - at < 4 {
        return None;
    }
    let tag = read_u32(b, at);
    assert(b@.subrange(at + 4, b@.len() as int) =~= rest.subrange(4, rest.len() as int));
    if tag == 0 {
        Some(Action::Save)
    } else if tag == 1 {
        match read_str(b, at + 4) {
            Some((s, _)) => Some(Action::Script(s)),
            None => None,
        }
    } else {
        None
    }
}

/// Decodes the payload of a track request.
pub fn decode_track(payload: &[u8]) -> (r: Result<Track, Error>)
    ensures
        match parse_track(payload@) {
            Some(t) => r matches Ok(x) && x@ == t,
            None => r matches Err(Error::Protocol(_)),
        },
{
    assert(payload@.subrange(0, payload@.len() as int) =~= payload@);
    let (fpath, k) = match read_str(payload, 0) {
        Some(x) => x,
        None => return Err(Error::Protocol(String::from_str("malformed path"))),
    };
    let (alias, j) = match read_alias(payload, k) {
        Some(x) => x,
        None => return Err(Error::Protocol(String::from_str("malformed alias"))),
    };
    let action = match read_action(payload, j) {
        Some(x) => x,
        None => return Err(Error::Protocol(String::from_str("malformed action"))),
    };
    Ok(Track { fpath, alias, action })
}

/// Encodes the payload of a track request.
pub fn encode_track(t: &Track) -> (r: Vec<u8>)
    ensures
        r@ == track_bytes(t@),
{
    let mut out: Vec<u8> = Vec::new();
    push_str(&mut out, t.fpath.as_str());
    match &t.alias {
        Alias::Script(s) => {
            push_u32(&mut out, 0);
            push_str(&mut out, s.as_str());
        },
        Alias::Basename => push_u32(&mut out, 1),
        Alias::Name(n) => {
            push_u32(&mut out, 2);
            push_str(&mut out, n.as_str());
        },
    }
    match &t.action {
        Action::Save => push_u32(&mut out, 0),
        Action::Script(s) => {
            push_u32(&mut out, 1);
            push_str(&mut out, s.as_str());
        },
    }
    assert(out@ =~= track_bytes(t@));
    out
}

/// The bytes of an envelope on the wire.
pub open spec fn packet_bytes(c: Command, payload: Seq<u8>) -> Seq<u8> {
    le_u32(c.spec_tag()) + le_u64(payload.len() as u64) + payload
}

/// The size of an envelope's fixed part: the tag and the payload's length.
pub const HEADER_LEN: usize = 12;

/// The largest envelope that a reader accepts.
pub const MAX_FRAME: usize = 1048576;

pub open spec fn parse_packet(b: Seq<u8>) -> Option<(Command, Seq<u8>)> {
    if b.len() < 12 {
        None
    } else {
        let n = u64_of_le(b.subrange(4, b.len() as int)) as int;
        match command_of_tag(u32_of_le(b)) {
            Some(c) => if 12 + n <= b.len() {
                Some((c, b.subrange(12, 12 + n)))
            } else {
                None
            },
            None => None,
        }
    }
}

/// The whole size of the envelope whose fixed part opens `head`, where that
/// size is at most `MAX_FRAME`.
pub open spec fn spec_frame_size(head: Seq<u8>) -> Option<int> {
    if head.len() < 12 {
        None
    } else {
        let n = u64_of_le(head.subrange(4, head.len() as int)) as int;
        if 12 + n <= MAX_FRAME {
            Some(12 + n)
        } else {
            None
        }
    }
}

impl Packet {
    /// How many bytes the envelope that `head` opens takes in all, so that a
    /// reader knows how much to wait for; `None` where `head` is shorter than
    /// the fixed part or the envelope is larger than `MAX_FRAME`.
    pub fn frame_size(head: &[u8]) -> (r: Option<usize>)
        ensures
            r matches Some(n) ==> spec_frame_size(head@) == Some(n as int),
            r is None ==> spec_frame_size(head@) is None,
    {
        if head.len() < HEADER_LEN {
            return None;
        }
        let n = read_u64(head, 4);
        if n <= (MAX_FRAME - HEADER_LEN) as u64 {
            Some(HEADER_LEN + n as usize)
        } else {
            None
        }
    }

    /// Decodes an envelope; bytes after it are ignored.
    pub fn decode(b: &[u8]) -> (r: Result<Packet, Error>)
        ensures
            match parse_packet(b@) {
                Some((c, p)) => r matches Ok(x) && x.command == c && x.payload@ == p,
                None => r matches Err(Error::Protocol(_)),
            },
    {
        if b.len() < HEADER_LEN {
            return Err(Error::Protocol(String::from_str("short envelope")));
        }
        let command = match Command::from_tag(read_u32(b, 0)) {
            Some(c) => c,
            None => return Err(Error::Protocol(String::from_str("unknown command"))),
        };
        let n = read_u64(b, 4);
        if n > (b.len() - HEADER_LEN) as u64 {
            return Err(Error::Protocol(String::from_str("truncated payload")));
        }
        let payload = vstd::slice::slice_to_vec(slice_subrange(b, HEADER_LEN, HEADER_LEN + n as usize));
        Ok(Packet { command, payload })
    }

    /// Encodes the envelope.
    pub fn encode(&self) -> (r: Vec<u8>)
        ensures
            r@ == packet_bytes(self.command, self.payload@),
    {
        let mut out: Vec<u8> = Vec::new();
        push_u32(&mut out, self.command.tag());
        push_u64(&mut out, self.payload.len() as u64);
        let mut i: usize = 0;
        while i < self.payload.len()
            invariant
                i <= self.payload@.len(),
                out@ == le_u32(self.command.spec_tag()) + le_u64(self.payload@.len() as u64)
                    + self.payload@.subrange(0, i as int),
            decreases self.payload@.len() - i,
        {
            out.push(self.payload[i]);
            assert(self.payload@.subrange(0, i + 1) =~= self.payload@.subrange(0, i as int).push(
                self.payload@[i as int],
            ));
            i = i + 1;
        }
        assert(self.payload@.subrange(0, i as int) =~= self.payload@);
        out
    }
}

pub open spec fn parse_pair(b: Seq<u8>) -> Option<(Seq<char>, Seq<char>)> {
    match parse_str(b) {
        Some((p, k)) => match parse_str(b.subrange(k, b.len() as int)) {
            Some((d, _)) => Some((p, d)),
            None => None,
        },
        None => None,
    }
}

/// The request that a payload holds for a command.
pub open spec fn parse_payload(c: Command, p: Seq<u8>) -> Option<RequestModel> {
    match c {
        Command::Track => match parse_track(p) {
            Some(t) => Some(RequestModel::Track(t)),
            None => None,
        },
        Command::Select => match parse_pair(p) {
            Some((a, d)) => Some(RequestModel::Select(a, d)),
            None => None,
        },
        _ => match parse_str(p) {
            Some((s, _)) => Some(
                if c == Command::List {
                    RequestModel::List(s)
                } else if c == Command::Echo {
                    RequestModel::Echo(s)
                } else {
                    RequestModel::EchoError(s)
                },
            ),
            None => None,
        },
    }
}

/// The request that a byte sequence holds.
pub open spec fn parse_request(b: Seq<u8>) -> Option<RequestModel> {
    match parse_packet(b) {
        Some((c, p)) => parse_payload(c, p),
        None => None,
    }
}

/// The payload of a request on the wire.
pub open spec fn payload_bytes(r: RequestModel) -> Seq<u8> {
    match r {
        RequestModel::Track(t) => track_bytes(t),
        RequestModel::List(s) => str_bytes(s),
        RequestModel::Select(a, d) => str_bytes(a) + str_bytes(d),
        RequestModel::Echo(s) => str_bytes(s),
        RequestModel::EchoError(s) => str_bytes(s),
    }
}

/// A request on the wire: its envelope around its payload.
pub open spec fn request_bytes(r: RequestModel) -> Seq<u8> {
    packet_bytes(r.command(), payload_bytes(r))
}

impl Request {
    /// Decodes the payload of an envelope into the request it holds.
    pub fn from_packet(p: &Packet) -> (r: Result<Request, Error>)
        ensures
            match parse_payload(p.command, p.payload@) {
                Some(m) => r matches Ok(x) && x@ == m,
                None => r matches Err(Error::Protocol(_)),
            },
    {
        let b = p.payload.as_slice();
        assert(b@.subrange(0, b@.len() as int) =~= b@);
        match p.command {
            Command::Track => match decode_track(b) {
                Ok(t) => Ok(Request::Track(t)),
                Err(e) => Err(e),
            },
            Command::Select => {
                let (a, k) = match read_str(b, 0) {
                    Some(x) => x,
                    None => return Err(Error::Protocol(String::from_str("malformed path"))),
                };
                match read_str(b, k) {
                    Some((d, _)) => Ok(Request::Select(a, d)),
                    None => Err(Error::Protocol(String::from_str("malformed digest"))),
                }
            },
            c => match read_str(b, 0) {
                Some((s, _)) => Ok(
                    match c {
                        Command::List => Request::List(s),
                        Command::Echo => Request::Echo(s),
                        _ => Request::EchoError(s),
                    },
                ),
                None => Err(Error::Protocol(String::from_str("malformed message"))),
            },
        }
    }

    /// Encodes the payload of the request.
    pub fn payload(&self) -> (r: Vec<u8>)
        ensures
            r@ == payload_bytes(self@),
    {
        match self {
            Request::Track(t) => encode_track(t),
            Request::Select(a, d) => {
                let mut out: Vec<u8> = Vec::new();
                push_str(&mut out, a.as_str());
                push_str(&mut out, d.as_str());
                assert(out@ =~= payload_bytes(self@));
                out
            },
            Request::List(s) | Request::Echo(s) | Request::EchoError(s) => {
                let mut out: Vec<u8> = Vec::new();
                push_str(&mut out, s.as_str());
                assert(out@ =~= payload_bytes(self@));
                out
            },
        }
    }

    /// The envelope that carries the request.
    pub fn to_packet(&self) -> (r: Packet)
        ensures
            r.command == self@.command(),
            r.payload@ == payload_bytes(self@),
    {
        Packet { command: self.command(), payload: self.payload() }
    }
}

/// Decodes a request from the bytes of a connection.
pub fn decode_request(b: &[u8]) -> (r: Result<Request, Error>)
    ensures
        match parse_request(b@) {
            Some(m) => r matches Ok(x) && x@ == m,
            None => r matches Err(Error::Protocol(_)),
        },
{
    let p = Packet::decode(b)?;
    Request::from_packet(&p)
}

/// Encodes a request as the bytes that a client sends.
pub fn encode_request(req: &Request) -> (r: Vec<u8>)
    ensures
        r@ == request_bytes(req@),
{
    req.to_packet().encode()
}

proof fn lemma_u32_prefix(n: u32, b: Seq<u8>)
    requires
        b.len() >= 4,
        b.subrange(0, 4) == le_u32(n),
    ensures
        u32_of_le(b) == n,
{
    assert(forall|i: int| 0 <= i < 4 ==> b[i] == #[trigger] b.subrange(0, 4)[i]);
    lemma_u32_round_trip(n);
}

proof fn lemma_u64_prefix(n: u64, b: Seq<u8>)
    requires
        b.len() >= 8,
        b.subrange(0, 8) == le_u64(n),
    ensures
        u64_of_le(b) == n,
{
    assert(forall|i: int| 0 <= i < 8 ==> b[i] == #[trigger] b.subrange(0, 8)[i]);
    lemma_u64_round_trip(n);
}

proof fn lemma_str_round_trip(s: Seq<char>, rest: Seq<u8>)
    requires
        str_fits(s),
    ensures
        parse_str(str_bytes(s) + rest) == Some((s, str_bytes(s).len() as int)),
{
    let e = encode_utf8(s);
    let b = str_bytes(s) + rest;
    assert(b.subrange(0, 8) =~= le_u64(e.len() as u64));
    lemma_u64_prefix(e.len() as u64, b);
    assert(b.subrange(8, 8 + e.len() as int) =~= e);
}

/// Whether every string and payload of a request can have its length written
/// in a `u64`; true of every request held in memory.
pub open spec fn request_fits(r: RequestModel) -> bool {
    &&& payload_bytes(r).len() <= u64::MAX
    &&& match r {
        RequestModel::Track(t) => str_fits(t.fpath) && match t.alias {
            AliasModel::Script(s) => str_fits(s),
            AliasModel::Name(n) => str_fits(n),
            AliasModel::Basename => true,
        } && match t.action {
            ActionModel::Script(s) => str_fits(s),
            ActionModel::Save => true,
        },
        RequestModel::Select(a, d) => str_fits(a) && str_fits(d),
        RequestModel::List(s) => str_fits(s),
        RequestModel::Echo(s) => str_fits(s),
        RequestModel::EchoError(s) => str_fits(s),
    }
}

proof fn lemma_tagged_str(tag: u32, s: Seq<char>, rest: Seq<u8>)
    requires
        str_fits(s),
    ensures
        ({
            let b = le_u32(tag) + str_bytes(s) + rest;
            &&& u32_of_le(b) == tag
            &&& parse_str(b.subrange(4, b.len() as int)) == Some((s, str_bytes(s).len() as int))
        }),
{
    let b = le_u32(tag) + str_bytes(s) + rest;
    assert(b.subrange(0, 4) =~= le_u32(tag));
    lemma_u32_prefix(tag, b);
    assert(b.subrange(4, b.len() as int) =~= str_bytes(s) + rest);
    lemma_str_round_trip(s, rest);
}

proof fn lemma_alias_round_trip(a: AliasModel, rest: Seq<u8>)
    requires
        match a {
            AliasModel::Script(s) => str_fits(s),
            AliasModel::Name(n) => str_fits(n),
            AliasModel::Basename => true,
        },
    ensures
        parse_alias(alias_bytes(a) + rest) == Some((a, alias_bytes(a).len() as int)),
{
    let b = alias_bytes(a) + rest;
    match a {
        AliasModel::Script(s) => {
            lemma_tagged_str(0, s, rest);
        },
        AliasModel::Basename => {
            assert(b.subrange(0, 4) =~= le_u32(1));
            lemma_u32_prefix(1, b);
        },
        AliasModel::Name(n) => {
            lemma_tagged_str(2, n, rest);
        },
    }
}

proof fn lemma_action_round_trip(a: ActionModel, rest: Seq<u8>)
    requires
        match a {
            ActionModel::Script(s) => str_fits(s),
            ActionModel::Save => true,
        },
    ensures
        parse_action(action_bytes(a) + rest) == Some(a),
{
    let b = action_bytes(a) + rest;
    match a {
        ActionModel::Save => {
            assert(b.subrange(0, 4) =~= le_u32(0));
            lemma_u32_prefix(0, b);
        },
        ActionModel::Script(s) => {
            lemma_tagged_str(1, s, rest);
        },
    }
}

proof fn lemma_track_round_trip(t: TrackModel, rest: Seq<u8>)
    requires
        request_fits(RequestModel::Track(t)),
    ensures
        parse_track(track_bytes(t) + rest) == Some(t),
{
    let b = track_bytes(t) + rest;
    let k = str_bytes(t.fpath).len() as int;
    let j = alias_bytes(t.alias).len() as int;
    let after_alias = action_bytes(t.action) + rest;
    let after_path = alias_bytes(t.alias) + after_alias;
    assert(b =~= str_bytes(t.fpath) + after_path);
    lemma_str_round_trip(t.fpath, after_path);
    assert(b.subrange(k, b.len() as int) =~= after_path);
    lemma_alias_round_trip(t.alias, after_alias);
    assert(b.subrange(k + j, b.len() as int) =~= after_alias);
    lemma_action_round_trip(t.action, rest);
}

proof fn lemma_packet_round_trip(c: Command, p: Seq<u8>, rest: Seq<u8>)
    requires
        p.len() <= u64::MAX,
    ensures
        parse_packet(packet_bytes(c, p) + rest) == Some((c, p)),
{
    let b = packet_bytes(c, p) + rest;
    assert(b.subrange(0, 4) =~= le_u32(c.spec_tag()));
    lemma_u32_prefix(c.spec_tag(), b);
    let tail = b.subrange(4, b.len() as int);
    assert(tail.subrange(0, 8) =~= le_u64(p.len() as u64));
    lemma_u64_prefix(p.len() as u64, tail);
    assert(b.subrange(12, 12 + p.len() as int) =~= p);
}

proof fn lemma_payload_round_trip(r: RequestModel)
    requires
        request_fits(r),
    ensures
        parse_payload(r.command(), payload_bytes(r)) == Some(r),
{
    let p = payload_bytes(r);
    match r {
        RequestModel::Track(t) => {
            lemma_track_round_trip(t, Seq::empty());
            assert(track_bytes(t) + Seq::<u8>::empty() =~= track_bytes(t));
        },
        RequestModel::Select(a, d) => {
            lemma_str_round_trip(a, str_bytes(d));
            let k = str_bytes(a).len() as int;
            assert(p.subrange(k, p.len() as int) =~= str_bytes(d) + Seq::<u8>::empty());
            lemma_str_round_trip(d, Seq::empty());
        },
        RequestModel::List(s) => {
            lemma_str_round_trip(s, Seq::empty());
            assert(str_bytes(s) + Seq::<u8>::empty() =~= str_bytes(s));
        },
        RequestModel::Echo(s) => {
            lemma_str_round_trip(s, Seq::empty());
            assert(str_bytes(s) + Seq::<u8>::empty() =~= str_bytes(s));
        },
        RequestModel::EchoError(s) => {
            lemma_str_round_trip(s, Seq::empty());
            assert(str_bytes(s) + Seq::<u8>::empty() =~= str_bytes(s));
        },
    }
}

/// Decoding the encoding of a request gives the request back, whatever bytes
/// follow it.
pub proof fn lemma_request_round_trip(r: RequestModel, rest: Seq<u8>)
    requires
        request_fits(r),
    ensures
        parse_request(request_bytes(r) + rest) == Some(r),
{
    lemma_packet_round_trip(r.command(), payload_bytes(r), rest);
    lemma_payload_round_trip(r);
}

} // verus!
