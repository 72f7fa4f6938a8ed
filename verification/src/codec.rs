//! Wire codec for the conductor protocol: a tagged three-variant message,
//! serialized as a MessagePack map with a `type` discriminator. Correlation
//! ids travel as MessagePack strings and are modeled here by their UTF-8
//! bytes; payloads travel as MessagePack binary.

use vstd::prelude::*;

verus! {

/// A decoded wire message. The correlation id is held as its UTF-8 bytes.
#[derive(Debug, PartialEq, Eq)]
pub enum Message {
    Request { id: Vec<u8>, data: Vec<u8> },
    Response { id: Vec<u8>, data: Vec<u8> },
    Signal { data: Vec<u8> },
}

/// Mathematical model of a wire message: the same shape over byte sequences.
pub enum MessageView {
    Request { id: Seq<u8>, data: Seq<u8> },
    Response { id: Seq<u8>, data: Seq<u8> },
    Signal { data: Seq<u8> },
}

impl View for Message {
    type V = MessageView;

    open spec fn view(&self) -> MessageView {
        match self {
            Message::Request { id, data } => MessageView::Request { id: id@, data: data@ },
            Message::Response { id, data } => MessageView::Response { id: id@, data: data@ },
            Message::Signal { data } => MessageView::Signal { data: data@ },
        }
    }
}

/// Why a byte buffer failed to decode.
#[derive(Debug, Clone, Copy, PartialEq, Eq)]
pub enum DecodeError {
    /// Not a well-formed frame: bad MessagePack structure, a missing or
    /// misplaced field, or trailing bytes.
    MalformedFrame,
    /// Well-formed map whose `type` discriminator names no known variant.
    UnknownVariant,
}

/// Fields small enough that every length in the frame fits its width prefix.
pub open spec fn wf_message(m: MessageView) -> bool {
    match m {
        MessageView::Request { id, data } => id.len() < 0x1_0000_0000 && data.len()
            < 0x1_0000_0000,
        MessageView::Response { id, data } => id.len() < 0x1_0000_0000 && data.len()
            < 0x1_0000_0000,
        MessageView::Signal { data } => data.len() < 0x1_0000_0000,
    }
}

/// The UTF-8 bytes of the map key `type`.
pub open spec fn key_type() -> Seq<u8> {
    seq![116u8, 121u8, 112u8, 101u8]
}

/// The UTF-8 bytes of the map key `id`.
pub open spec fn key_id() -> Seq<u8> {
    seq![105u8, 100u8]
}

/// The UTF-8 bytes of the map key `data`.
pub open spec fn key_data() -> Seq<u8> {
    seq![100u8, 97u8, 116u8, 97u8]
}

/// The UTF-8 bytes of the discriminator value `Request`.
pub open spec fn tag_request() -> Seq<u8> {
    seq![82u8, 101u8, 113u8, 117u8, 101u8, 115u8, 116u8]
}

/// The UTF-8 bytes of the discriminator value `Response`.
pub open spec fn tag_response() -> Seq<u8> {
    seq![82u8, 101u8, 115u8, 112u8, 111u8, 110u8, 115u8, 101u8]
}

/// The UTF-8 bytes of the discriminator value `Signal`.
pub open spec fn tag_signal() -> Seq<u8> {
    seq![83u8, 105u8, 103u8, 110u8, 97u8, 108u8]
}

/// MessagePack header for a str of `len` bytes, in the shortest form.
pub open spec fn str_header(len: nat) -> Seq<u8> {
    if len < 32 {
        seq![(0xa0 + len) as u8]
    } else if len < 256 {
        seq![0xd9u8, len as u8]
    } else if len < 65536 {
        seq![0xdau8, (len / 256) as u8, (len % 256) as u8]
    } else {
        seq![
            0xdbu8,
            (len / 0x1000000) as u8,
            ((len / 0x10000) % 256) as u8,
            ((len / 256) % 256) as u8,
            (len % 256) as u8,
        ]
    }
}

/// MessagePack header for a bin of `len` bytes, in the shortest form.
pub open spec fn bin_header(len: nat) -> Seq<u8> {
    if len < 256 {
        seq![0xc4u8, len as u8]
    } else if len < 65536 {
        seq![0xc5u8, (len / 256) as u8, (len % 256) as u8]
    } else {
        seq![
            0xc6u8,
            (len / 0x1000000) as u8,
            ((len / 0x10000) % 256) as u8,
            ((len / 256) % 256) as u8,
            (len % 256) as u8,
        ]
    }
}

/// A MessagePack str holding the bytes `b`.
pub open spec fn enc_str(b: Seq<u8>) -> Seq<u8> {
    str_header(b.len()) + b
}

/// A MessagePack bin holding the bytes `b`.
pub open spec fn enc_bin(b: Seq<u8>) -> Seq<u8> {
    bin_header(b.len()) + b
}

/// The canonical encoding of a message: a fixmap with the discriminator
/// first, then the variant's fields in declaration order.
pub open spec fn enc_message(m: MessageView) -> Seq<u8> {
    match m {
        MessageView::Request { id, data } => seq![0x83u8] + enc_str(key_type()) + enc_str(
            tag_request(),
        ) + enc_str(key_id()) + enc_str(id) + enc_str(key_data()) + enc_bin(data),
        MessageView::Response { id, data } => seq![0x83u8] + enc_str(key_type()) + enc_str(
            tag_response(),
        ) + enc_str(key_id()) + enc_str(id) + enc_str(key_data()) + enc_bin(data),
        MessageView::Signal { data } => seq![0x82u8] + enc_str(key_type()) + enc_str(tag_signal())
            + enc_str(key_data()) + enc_bin(data),
    }
}

fn push_str_header(out: &mut Vec<u8>, len: u64)
    requires
        len < 0x1_0000_0000,
    ensures
        final(out)@ == old(out)@ + str_header(len as nat),
{
    if len < 32 {
        out.push(0xa0 + len as u8);
    } else if len < 256 {
        out.push(0xd9);
        out.push(len as u8);
    } else if len < 65536 {
        out.push(0xda);
        out.push((len / 256) as u8);
        out.push((len % 256) as u8);
    } else {
        out.push(0xdb);
        out.push((len / 0x1000000) as u8);
        out.push(((len / 0x10000) % 256) as u8);
        out.push(((len / 256) % 256) as u8);
        out.push((len % 256) as u8);
    }
    assert(out@ =~= old(out)@ + str_header(len as nat));
}

fn push_bin_header(out: &mut Vec<u8>, len: u64)
    requires
        len < 0x1_0000_0000,
    ensures
        final(out)@ == old(out)@ + bin_header(len as nat),
{
    if len < 256 {
        out.push(0xc4);
        out.push(len as u8);
    } else if len < 65536 {
        out.push(0xc5);
        out.push((len / 256) as u8);
        out.push((len % 256) as u8);
    } else {
        out.push(0xc6);
        out.push((len / 0x1000000) as u8);
        out.push(((len / 0x10000) % 256) as u8);
        out.push(((len / 256) % 256) as u8);
        out.push((len % 256) as u8);
    }
    assert(out@ =~= old(out)@ + bin_header(len as nat));
}

fn push_str(out: &mut Vec<u8>, b: &Vec<u8>)
    requires
        b@.len() < 0x1_0000_0000,
    ensures
        final(out)@ == old(out)@ + enc_str(b@),
{
    push_str_header(out, b.len() as u64);
    out.extend_from_slice(b.as_slice());
    assert(out@ =~= old(out)@ + enc_str(b@));
}

fn push_bin(out: &mut Vec<u8>, b: &Vec<u8>)
    requires
        b@.len() < 0x1_0000_0000,
    ensures
        final(out)@ == old(out)@ + enc_bin(b@),
{
    push_bin_header(out, b.len() as u64);
    out.extend_from_slice(b.as_slice());
    assert(out@ =~= old(out)@ + enc_bin(b@));
}

/// Append the fixstr `type` key.
fn push_key_type(out: &mut Vec<u8>)
    ensures
        final(out)@ == old(out)@ + enc_str(key_type()),
{
    out.push(0xa4);
    out.push(116);
    out.push(121);
    out.push(112);
    out.push(101);
    assert(out@ =~= old(out)@ + enc_str(key_type()));
}

/// Append the fixstr `id` key.
fn push_key_id(out: &mut Vec<u8>)
    ensures
        final(out)@ == old(out)@ + enc_str(key_id()),
{
    out.push(0xa2);
    out.push(105);
    out.push(100);
    assert(out@ =~= old(out)@ + enc_str(key_id()));
}

/// Append the fixstr `data` key.
fn push_key_data(out: &mut Vec<u8>)
    ensures
        final(out)@ == old(out)@ + enc_str(key_data()),
{
    out.push(0xa4);
    out.push(100);
    out.push(97);
    out.push(116);
    out.push(97);
    assert(out@ =~= old(out)@ + enc_str(key_data()));
}

/// Encode a message into its canonical frame.
pub fn encode(m: &Message) -> (r: Vec<u8>)
    requires
        wf_message(m@),
    ensures
        r@ == enc_message(m@),
{
    let mut out: Vec<u8> = Vec::new();
    match m {
        Message::Request { id, data } => {
            out.push(0x83);
            push_key_type(&mut out);
            out.push(0xa7);
            out.push(82);
            out.push(101);
            out.push(113);
            out.push(117);
            out.push(101);
            out.push(115);
            out.push(116);
            assert(out@ =~= seq![0x83u8] + enc_str(key_type()) + enc_str(tag_request()));
            push_key_id(&mut out);
            push_str(&mut out, id);
            push_key_data(&mut out);
            push_bin(&mut out, data);
            assert(out@ =~= enc_message(m@));
        },
        Message::Response { id, data } => {
            out.push(0x83);
            push_key_type(&mut out);
            out.push(0xa8);
            out.push(82);
            out.push(101);
            out.push(115);
            out.push(112);
            out.push(111);
            out.push(110);
            out.push(115);
            out.push(101);
            assert(out@ =~= seq![0x83u8] + enc_str(key_type()) + enc_str(tag_response()));
            push_key_id(&mut out);
            push_str(&mut out, id);
            push_key_data(&mut out);
            push_bin(&mut out, data);
            assert(out@ =~= enc_message(m@));
        },
        Message::Signal { data } => {
            out.push(0x82);
            push_key_type(&mut out);
            out.push(0xa6);
            out.push(83);
            out.push(105);
            out.push(103);
            out.push(110);
            out.push(97);
            out.push(108);
            assert(out@ =~= seq![0x82u8] + enc_str(key_type()) + enc_str(tag_signal()));
            push_key_data(&mut out);
            push_bin(&mut out, data);
            assert(out@ =~= enc_message(m@));
        },
    }
    out
}

/// The payload of a length-prefixed item: `len` bytes from `start`, with
/// the position just past them.
pub open spec fn payload_at(buf: Seq<u8>, start: nat, len: nat) -> Option<(Seq<u8>, nat)> {
    if start + len <= buf.len() {
        Some((buf.subrange(start as int, (start + len) as int), (start + len) as nat))
    } else {
        None
    }
}

/// Parse a MessagePack str at `pos`: any of the four header widths.
pub open spec fn parse_str(buf: Seq<u8>, pos: nat) -> Option<(Seq<u8>, nat)> {
    if pos >= buf.len() {
        None
    } else {
        let b0 = buf[pos as int];
        if 0xa0 <= b0 && b0 <= 0xbf {
            payload_at(buf, pos + 1, (b0 - 0xa0) as nat)
        } else if b0 == 0xd9 {
            if pos + 2 <= buf.len() {
                payload_at(buf, pos + 2, buf[pos as int + 1] as nat)
            } else {
                None
            }
        } else if b0 == 0xda {
            if pos + 3 <= buf.len() {
                payload_at(buf, pos + 3, (buf[pos as int + 1] * 256 + buf[pos as int + 2]) as nat)
            } else {
                None
            }
        } else if b0 == 0xdb {
            if pos + 5 <= buf.len() {
                {
                    let n = buf[pos as int + 1] * 0x1000000 + buf[pos as int + 2] * 0x10000 + buf[pos as int + 3] * 256
                        + buf[pos as int + 4];
                    payload_at(buf, pos + 5, n as nat)
                }
            } else {
                None
            }
        } else {
            None
        }
    }
}

/// Parse a MessagePack bin at `pos`: any of the three header widths.
pub open spec fn parse_bin(buf: Seq<u8>, pos: nat) -> Option<(Seq<u8>, nat)> {
    if pos >= buf.len() {
        None
    } else {
        let b0 = buf[pos as int];
        if b0 == 0xc4 {
            if pos + 2 <= buf.len() {
                payload_at(buf, pos + 2, buf[pos as int + 1] as nat)
            } else {
                None
            }
        } else if b0 == 0xc5 {
            if pos + 3 <= buf.len() {
                payload_at(buf, pos + 3, (buf[pos as int + 1] * 256 + buf[pos as int + 2]) as nat)
            } else {
                None
            }
        } else if b0 == 0xc6 {
            if pos + 5 <= buf.len() {
                {
                    let n = buf[pos as int + 1] * 0x1000000 + buf[pos as int + 2] * 0x10000 + buf[pos as int + 3] * 256
                        + buf[pos as int + 4];
                    payload_at(buf, pos + 5, n as nat)
                }
            } else {
                None
            }
        } else {
            None
        }
    }
}

/// The two field slots of a Request or Response after the discriminator:
/// the `id` str, then the `data` bin, then the end of the buffer.
pub open spec fn decode_call_fields(buf: Seq<u8>, pos: nat) -> Result<
    (Seq<u8>, Seq<u8>),
    DecodeError,
> {
    match parse_str(buf, pos) {
        Some((k, p1)) => if k == key_id() {
            match parse_str(buf, p1) {
                Some((id, p2)) => match parse_str(buf, p2) {
                    Some((k2, p3)) => if k2 == key_data() {
                        match parse_bin(buf, p3) {
                            Some((data, p4)) => if p4 == buf.len() {
                                Ok((id, data))
                            } else {
                                Err(DecodeError::MalformedFrame)
                            },
                            None => Err(DecodeError::MalformedFrame),
                        }
                    } else {
                        Err(DecodeError::MalformedFrame)
                    },
                    None => Err(DecodeError::MalformedFrame),
                },
                None => Err(DecodeError::MalformedFrame),
            }
        } else {
            Err(DecodeError::MalformedFrame)
        },
        None => Err(DecodeError::MalformedFrame),
    }
}

/// The single field slot of a Signal after the discriminator: the `data`
/// bin, then the end of the buffer.
pub open spec fn decode_signal_fields(buf: Seq<u8>, pos: nat) -> Result<Seq<u8>, DecodeError> {
    match parse_str(buf, pos) {
        Some((k, p1)) => if k == key_data() {
            match parse_bin(buf, p1) {
                Some((data, p2)) => if p2 == buf.len() {
                    Ok(data)
                } else {
                    Err(DecodeError::MalformedFrame)
                },
                None => Err(DecodeError::MalformedFrame),
            }
        } else {
            Err(DecodeError::MalformedFrame)
        },
        None => Err(DecodeError::MalformedFrame),
    }
}

/// What a byte buffer decodes to: a message, or the error that names what
/// is wrong with it. An unknown discriminator is reported as such before
/// the variant's fields are looked at.
pub open spec fn spec_decode(buf: Seq<u8>) -> Result<MessageView, DecodeError> {
    if buf.len() == 0 {
        Err(DecodeError::MalformedFrame)
    } else {
        let b0 = buf[0];
        if b0 != 0x82 && b0 != 0x83 {
            Err(DecodeError::MalformedFrame)
        } else {
            match parse_str(buf, 1) {
                Some((k, p1)) => if k == key_type() {
                    match parse_str(buf, p1) {
                        Some((tag, p2)) => if tag == tag_request() {
                            if b0 == 0x83 {
                                match decode_call_fields(buf, p2) {
                                    Ok((id, data)) => Ok(MessageView::Request { id, data }),
                                    Err(e) => Err(e),
                                }
                            } else {
                                Err(DecodeError::MalformedFrame)
                            }
                        } else if tag == tag_response() {
                            if b0 == 0x83 {
                                match decode_call_fields(buf, p2) {
                                    Ok((id, data)) => Ok(MessageView::Response { id, data }),
                                    Err(e) => Err(e),
                                }
                            } else {
                                Err(DecodeError::MalformedFrame)
                            }
                        } else if tag == tag_signal() {
                            if b0 == 0x82 {
                                match decode_signal_fields(buf, p2) {
                                    Ok(data) => Ok(MessageView::Signal { data }),
                                    Err(e) => Err(e),
                                }
                            } else {
                                Err(DecodeError::MalformedFrame)
                            }
                        } else {
                            Err(DecodeError::UnknownVariant)
                        },
                        None => Err(DecodeError::MalformedFrame),
                    }
                } else {
                    Err(DecodeError::MalformedFrame)
                },
                None => Err(DecodeError::MalformedFrame),
            }
        }
    }
}

fn read_payload(buf: &Vec<u8>, start: usize, len: u64) -> (r: Option<(Vec<u8>, usize)>)
    requires
        start <= buf@.len(),
    ensures
        match r {
            Some(vp) => payload_at(buf@, start as nat, len as nat) == Some((vp.0@, vp.1 as nat))
                && vp.1 <= buf@.len(),
            None => payload_at(buf@, start as nat, len as nat) is None,
        },
{
    let avail = buf.len() - start;
    if len > avail as u64 {
        return None;
    }
    let cnt = len as usize;
    let end = start + cnt;
    let mut v: Vec<u8> = Vec::new();
    let mut j: usize = 0;
    while j < cnt
        invariant
            j <= cnt,
            cnt as nat == len as nat,
            start + cnt == end,
            start + cnt <= buf@.len(),
            v@ == buf@.subrange(start as int, start + j as int),
        decreases cnt - j,
    {
        v.push(buf[start + j]);
        assert(v@ =~= buf@.subrange(start as int, start + j + 1 as int));
        j += 1;
    }
    assert(v@ == buf@.subrange(start as int, (start + len as nat) as int));
    Some((v, start + cnt))
}

fn read_str(buf: &Vec<u8>, pos: usize) -> (r: Option<(Vec<u8>, usize)>)
    ensures
        match r {
            Some(vp) => parse_str(buf@, pos as nat) == Some((vp.0@, vp.1 as nat)) && vp.1
                <= buf@.len(),
            None => parse_str(buf@, pos as nat) is None,
        },
{
    if pos >= buf.len() {
        return None;
    }
    let b0 = buf[pos];
    if 0xa0 <= b0 && b0 <= 0xbf {
        read_payload(buf, pos + 1, (b0 - 0xa0) as u64)
    } else if b0 == 0xd9 {
        if buf.len() - pos < 2 {
            return None;
        }
        read_payload(buf, pos + 2, buf[pos + 1] as u64)
    } else if b0 == 0xda {
        if buf.len() - pos < 3 {
            return None;
        }
        let l: u64 = buf[pos + 1] as u64 * 256 + buf[pos + 2] as u64;
        read_payload(buf, pos + 3, l)
    } else if b0 == 0xdb {
        if buf.len() - pos < 5 {
            return None;
        }
        let l: u64 = buf[pos + 1] as u64 * 0x1000000 + buf[pos + 2] as u64 * 0x10000 + buf[pos
            + 3] as u64 * 256 + buf[pos + 4] as u64;
        read_payload(buf, pos + 5, l)
    } else {
        None
    }
}

fn read_bin(buf: &Vec<u8>, pos: usize) -> (r: Option<(Vec<u8>, usize)>)
    ensures
        match r {
            Some(vp) => parse_bin(buf@, pos as nat) == Some((vp.0@, vp.1 as nat)) && vp.1
                <= buf@.len(),
            None => parse_bin(buf@, pos as nat) is None,
        },
{
    if pos >= buf.len() {
        return None;
    }
    let b0 = buf[pos];
    if b0 == 0xc4 {
        if buf.len() - pos < 2 {
            return None;
        }
        read_payload(buf, pos + 2, buf[pos + 1] as u64)
    } else if b0 == 0xc5 {
        if buf.len() - pos < 3 {
            return None;
        }
        let l: u64 = buf[pos + 1] as u64 * 256 + buf[pos + 2] as u64;
        read_payload(buf, pos + 3, l)
    } else if b0 == 0xc6 {
        if buf.len() - pos < 5 {
            return None;
        }
        let l: u64 = buf[pos + 1] as u64 * 0x1000000 + buf[pos + 2] as u64 * 0x10000 + buf[pos
            + 3] as u64 * 256 + buf[pos + 4] as u64;
        read_payload(buf, pos + 5, l)
    } else {
        None
    }
}

fn is_bytes_type(k: &Vec<u8>) -> (r: bool)
    ensures
        r == (k@ == key_type()),
{
    let r = k.len() == 4 && k[0] == 116 && k[1] == 121 && k[2] == 112 && k[3] == 101;
    if r {
        assert(k@ =~= key_type());
    }
    r
}

fn is_bytes_id(k: &Vec<u8>) -> (r: bool)
    ensures
        r == (k@ == key_id()),
{
    let r = k.len() == 2 && k[0] == 105 && k[1] == 100;
    if r {
        assert(k@ =~= key_id());
    }
    r
}

fn is_bytes_data(k: &Vec<u8>) -> (r: bool)
    ensures
        r == (k@ == key_data()),
{
    let r = k.len() == 4 && k[0] == 100 && k[1] == 97 && k[2] == 116 && k[3] == 97;
    if r {
        assert(k@ =~= key_data());
    }
    r
}

fn is_bytes_request(k: &Vec<u8>) -> (r: bool)
    ensures
        r == (k@ == tag_request()),
{
    let r = k.len() == 7 && k[0] == 82 && k[1] == 101 && k[2] == 113 && k[3] == 117 && k[4] == 101
        && k[5] == 115 && k[6] == 116;
    if r {
        assert(k@ =~= tag_request());
    }
    r
}

fn is_bytes_response(k: &Vec<u8>) -> (r: bool)
    ensures
        r == (k@ == tag_response()),
{
    let r = k.len() == 8 && k[0] == 82 && k[1] == 101 && k[2] == 115 && k[3] == 112 && k[4] == 111
        && k[5] == 110 && k[6] == 115 && k[7] == 101;
    if r {
        assert(k@ =~= tag_response());
    }
    r
}

fn is_bytes_signal(k: &Vec<u8>) -> (r: bool)
    ensures
        r == (k@ == tag_signal()),
{
    let r = k.len() == 6 && k[0] == 83 && k[1] == 105 && k[2] == 103 && k[3] == 110 && k[4] == 97
        && k[5] == 108;
    if r {
        assert(k@ =~= tag_signal());
    }
    r
}

fn read_call_fields(buf: &Vec<u8>, pos: usize) -> (r: Result<(Vec<u8>, Vec<u8>), DecodeError>)
    ensures
        match r {
            Ok(p) => decode_call_fields(buf@, pos as nat) == Ok::<_, DecodeError>((p.0@, p.1@)),
            Err(e) => decode_call_fields(buf@, pos as nat) == Err::<(Seq<u8>, Seq<u8>), _>(e),
        },
{
    let k = match read_str(buf, pos) {
        Some(kp) => kp,
        None => {
            return Err(DecodeError::MalformedFrame);
        },
    };
    if !is_bytes_id(&k.0) {
        return Err(DecodeError::MalformedFrame);
    }
    let idp = match read_str(buf, k.1) {
        Some(x) => x,
        None => {
            return Err(DecodeError::MalformedFrame);
        },
    };
    let k2 = match read_str(buf, idp.1) {
        Some(x) => x,
        None => {
            return Err(DecodeError::MalformedFrame);
        },
    };
    if !is_bytes_data(&k2.0) {
        return Err(DecodeError::MalformedFrame);
    }
    let datap = match read_bin(buf, k2.1) {
        Some(x) => x,
        None => {
            return Err(DecodeError::MalformedFrame);
        },
    };
    if datap.1 != buf.len() {
        return Err(DecodeError::MalformedFrame);
    }
    Ok((idp.0, datap.0))
}

fn read_signal_fields(buf: &Vec<u8>, pos: usize) -> (r: Result<Vec<u8>, DecodeError>)
    ensures
        match r {
            Ok(d) => decode_signal_fields(buf@, pos as nat) == Ok::<_, DecodeError>(d@),
            Err(e) => decode_signal_fields(buf@, pos as nat) == Err::<Seq<u8>, _>(e),
        },
{
    let k = match read_str(buf, pos) {
        Some(kp) => kp,
        None => {
            return Err(DecodeError::MalformedFrame);
        },
    };
    if !is_bytes_data(&k.0) {
        return Err(DecodeError::MalformedFrame);
    }
    let datap = match read_bin(buf, k.1) {
        Some(x) => x,
        None => {
            return Err(DecodeError::MalformedFrame);
        },
    };
    if datap.1 != buf.len() {
        return Err(DecodeError::MalformedFrame);
    }
    Ok(datap.0)
}

/// Decode a frame into a message, or say why the bytes are not one.
pub fn decode(buf: &Vec<u8>) -> (r: Result<Message, DecodeError>)
    ensures
        match r {
            Ok(m) => spec_decode(buf@) == Ok::<_, DecodeError>(m@),
            Err(e) => spec_decode(buf@) == Err::<MessageView, _>(e),
        },
{
    if buf.len() == 0 {
        return Err(DecodeError::MalformedFrame);
    }
    let b0 = buf[0];
    if b0 != 0x82 && b0 != 0x83 {
        return Err(DecodeError::MalformedFrame);
    }
    let k = match read_str(buf, 1) {
        Some(x) => x,
        None => {
            return Err(DecodeError::MalformedFrame);
        },
    };
    if !is_bytes_type(&k.0) {
        return Err(DecodeError::MalformedFrame);
    }
    let tagp = match read_str(buf, k.1) {
        Some(x) => x,
        None => {
            return Err(DecodeError::MalformedFrame);
        },
    };
    if is_bytes_request(&tagp.0) {
        if b0 != 0x83 {
            return Err(DecodeError::MalformedFrame);
        }
        match read_call_fields(buf, tagp.1) {
            Ok(p) => Ok(Message::Request { id: p.0, data: p.1 }),
            Err(e) => Err(e),
        }
    } else if is_bytes_response(&tagp.0) {
        if b0 != 0x83 {
            return Err(DecodeError::MalformedFrame);
        }
        match read_call_fields(buf, tagp.1) {
            Ok(p) => Ok(Message::Response { id: p.0, data: p.1 }),
            Err(e) => Err(e),
        }
    } else if is_bytes_signal(&tagp.0) {
        if b0 != 0x82 {
            return Err(DecodeError::MalformedFrame);
        }
        match read_signal_fields(buf, tagp.1) {
            Ok(d) => Ok(Message::Signal { data: d }),
            Err(e) => Err(e),
        }
    } else {
        Err(DecodeError::UnknownVariant)
    }
}

proof fn lemma_bytes16(l: u64)
    requires
        l < 0x10000,
    ensures
        (l / 256) * 256 + (l % 256) == l,
        l / 256 < 256,
{
    assert((l / 256) * 256 + (l % 256) == l && l / 256 < 256) by (bit_vector)
        requires
            l < 0x10000,
    ;
}

proof fn lemma_bytes32(l: u64)
    requires
        l < 0x1_0000_0000,
    ensures
        (l / 0x1000000) * 0x1000000 + ((l / 0x10000) % 256) * 0x10000 + ((l / 256) % 256) * 256 + (
        l % 256) == l,
        l / 0x1000000 < 256,
{
    assert((l / 0x1000000) * 0x1000000 + ((l / 0x10000) % 256) * 0x10000 + ((l / 256) % 256) * 256
        + (l % 256) == l && l / 0x1000000 < 256) by (bit_vector)
        requires
            l < 0x1_0000_0000,
    ;
}

/// If the bytes of `enc_str(b)` stand at `pos` in `buf`, the parser finds
/// exactly `b` there and stops just past it.
proof fn lemma_parse_str_at(buf: Seq<u8>, pos: nat, b: Seq<u8>)
    requires
        b.len() < 0x1_0000_0000,
        pos + enc_str(b).len() <= buf.len(),
        forall|i: int| 0 <= i < enc_str(b).len() ==> buf[pos + i] == enc_str(b)[i],
    ensures
        parse_str(buf, pos) == Some((b, (pos + enc_str(b).len()) as nat)),
{
    let n = b.len();
    let h = str_header(n);
    let hl = h.len();
    assert(enc_str(b).len() == hl + n);
    assert(forall|i: int| 0 <= i < hl ==> enc_str(b)[i] == h[i]);
    assert(buf[pos as int] == enc_str(b)[0]) by {
        assert(buf[pos as int + 0] == enc_str(b)[0]);
    }
    assert forall|i: int| 0 <= i < n implies #[trigger] b[i] == buf[pos + hl + i] by {
        assert(enc_str(b)[hl + i] == b[i]);
    }
    assert(buf.subrange((pos + hl) as int, (pos + hl + n) as int) =~= b);
    if n < 32 {
        assert(buf[pos as int] == (0xa0 + n) as u8);
    } else if n < 256 {
        assert(buf[pos as int] == 0xd9);
        assert(buf[pos as int + 1] == n as u8);
    } else if n < 65536 {
        lemma_bytes16(n as u64);
        assert(buf[pos as int] == 0xda);
        assert(buf[pos as int + 1] == (n / 256) as u8);
        assert(buf[pos as int + 2] == (n % 256) as u8);
    } else {
        lemma_bytes32(n as u64);
        assert(buf[pos as int] == 0xdb);
        assert(buf[pos as int + 1] == (n / 0x1000000) as u8);
        assert(buf[pos as int + 2] == ((n / 0x10000) % 256) as u8);
        assert(buf[pos as int + 3] == ((n / 256) % 256) as u8);
        assert(buf[pos as int + 4] == (n % 256) as u8);
    }
}

/// The bin counterpart of `lemma_parse_str_at`.
proof fn lemma_parse_bin_at(buf: Seq<u8>, pos: nat, b: Seq<u8>)
    requires
        b.len() < 0x1_0000_0000,
        pos + enc_bin(b).len() <= buf.len(),
        forall|i: int| 0 <= i < enc_bin(b).len() ==> buf[pos + i] == enc_bin(b)[i],
    ensures
        parse_bin(buf, pos) == Some((b, (pos + enc_bin(b).len()) as nat)),
{
    let n = b.len();
    let h = bin_header(n);
    let hl = h.len();
    assert(enc_bin(b).len() == hl + n);
    assert(forall|i: int| 0 <= i < hl ==> enc_bin(b)[i] == h[i]);
    assert(buf[pos as int] == enc_bin(b)[0]) by {
        assert(buf[pos as int + 0] == enc_bin(b)[0]);
    }
    assert forall|i: int| 0 <= i < n implies #[trigger] b[i] == buf[pos + hl + i] by {
        assert(enc_bin(b)[hl + i] == b[i]);
    }
    assert(buf.subrange((pos + hl) as int, (pos + hl + n) as int) =~= b);
    if n < 256 {
        assert(buf[pos as int] == 0xc4);
        assert(buf[pos as int + 1] == n as u8);
    } else if n < 65536 {
        lemma_bytes16(n as u64);
        assert(buf[pos as int] == 0xc5);
        assert(buf[pos as int + 1] == (n / 256) as u8);
        assert(buf[pos as int + 2] == (n % 256) as u8);
    } else {
        lemma_bytes32(n as u64);
        assert(buf[pos as int] == 0xc6);
        assert(buf[pos as int + 1] == (n / 0x1000000) as u8);
        assert(buf[pos as int + 2] == ((n / 0x10000) % 256) as u8);
        assert(buf[pos as int + 3] == ((n / 256) % 256) as u8);
        assert(buf[pos as int + 4] == (n % 256) as u8);
    }
}

/// Decoding inverts encoding: the canonical frame of any well-formed
/// message decodes back to exactly that message.
pub proof fn lemma_round_trip(m: MessageView)
    requires
        wf_message(m),
    ensures
        spec_decode(enc_message(m)) == Ok::<MessageView, DecodeError>(m),
{
    match m {
        MessageView::Request { id, data } => {
            lemma_round_trip_request(id, data);
        },
        MessageView::Response { id, data } => {
            lemma_round_trip_response(id, data);
        },
        MessageView::Signal { data } => {
            lemma_round_trip_signal(data);
        },
    }
}

#[verifier::rlimit(100)]
#[verifier::spinoff_prover]
proof fn lemma_round_trip_request(id: Seq<u8>, data: Seq<u8>)
    requires
        id.len() < 0x1_0000_0000,
        data.len() < 0x1_0000_0000,
    ensures
        spec_decode(enc_message(MessageView::Request { id, data })) == Ok::<
            MessageView,
            DecodeError,
        >(MessageView::Request { id, data }),
{
    let m = MessageView::Request { id, data };
    let buf = enc_message(m);
    let s4 = enc_str(id);
    let s6 = enc_bin(data);
    let p4 = 17 + s4.len();
    let p6 = p4 + 5 + s6.len();
    assert(enc_str(key_type()).len() == 5);
    assert(enc_str(tag_request()).len() == 8);
    assert(enc_str(key_id()).len() == 3);
    assert(enc_str(key_data()).len() == 5);
    assert(buf.len() == p6);
    assert(buf[0] == 0x83);
    assert forall|i: int| 0 <= i < 5 implies buf[1 + i] == enc_str(key_type())[i] by {}
    lemma_parse_str_at(buf, 1, key_type());
    assert forall|i: int| 0 <= i < 8 implies buf[6 + i] == enc_str(tag_request())[i] by {}
    lemma_parse_str_at(buf, 6, tag_request());
    assert forall|i: int| 0 <= i < 3 implies buf[14 + i] == enc_str(key_id())[i] by {}
    lemma_parse_str_at(buf, 14, key_id());
    assert forall|i: int| 0 <= i < s4.len() implies buf[17 + i] == s4[i] by {}
    lemma_parse_str_at(buf, 17, id);
    assert forall|i: int| 0 <= i < 5 implies buf[p4 as int + i] == enc_str(key_data())[i] by {}
    lemma_parse_str_at(buf, p4 as nat, key_data());
    assert forall|i: int| 0 <= i < s6.len() implies buf[p4 as int + 5 + i] == s6[i] by {}
    lemma_parse_bin_at(buf, (p4 + 5) as nat, data);
    assert(tag_request() != tag_response());
    assert(tag_request() != tag_signal());
    assert(decode_call_fields(buf, 14) == Ok::<_, DecodeError>((id, data)));
}

#[verifier::rlimit(100)]
#[verifier::spinoff_prover]
proof fn lemma_round_trip_response(id: Seq<u8>, data: Seq<u8>)
    requires
        id.len() < 0x1_0000_0000,
        data.len() < 0x1_0000_0000,
    ensures
        spec_decode(enc_message(MessageView::Response { id, data })) == Ok::<
            MessageView,
            DecodeError,
        >(MessageView::Response { id, data }),
{
    let m = MessageView::Response { id, data };
    let buf = enc_message(m);
    let s4 = enc_str(id);
    let s6 = enc_bin(data);
    let p4 = 18 + s4.len();
    let p6 = p4 + 5 + s6.len();
    assert(enc_str(key_type()).len() == 5);
    assert(enc_str(tag_response()).len() == 9);
    assert(enc_str(key_id()).len() == 3);
    assert(enc_str(key_data()).len() == 5);
    assert(buf.len() == p6);
    assert(buf[0] == 0x83);
    assert forall|i: int| 0 <= i < 5 implies buf[1 + i] == enc_str(key_type())[i] by {}
    lemma_parse_str_at(buf, 1, key_type());
    assert forall|i: int| 0 <= i < 9 implies buf[6 + i] == enc_str(tag_response())[i] by {}
    lemma_parse_str_at(buf, 6, tag_response());
    assert forall|i: int| 0 <= i < 3 implies buf[15 + i] == enc_str(key_id())[i] by {}
    lemma_parse_str_at(buf, 15, key_id());
    assert forall|i: int| 0 <= i < s4.len() implies buf[18 + i] == s4[i] by {}
    lemma_parse_str_at(buf, 18, id);
    assert forall|i: int| 0 <= i < 5 implies buf[p4 as int + i] == enc_str(key_data())[i] by {}
    lemma_parse_str_at(buf, p4 as nat, key_data());
    assert forall|i: int| 0 <= i < s6.len() implies buf[p4 as int + 5 + i] == s6[i] by {}
    lemma_parse_bin_at(buf, (p4 + 5) as nat, data);
    assert(tag_response() != tag_request());
    assert(tag_response() != tag_signal());
    assert(decode_call_fields(buf, 15) == Ok::<_, DecodeError>((id, data)));
}

#[verifier::rlimit(100)]
#[verifier::spinoff_prover]
proof fn lemma_round_trip_signal(data: Seq<u8>)
    requires
        data.len() < 0x1_0000_0000,
    ensures
        spec_decode(enc_message(MessageView::Signal { data })) == Ok::<MessageView, DecodeError>(
            MessageView::Signal { data },
        ),
{
    let m = MessageView::Signal { data };
    let buf = enc_message(m);
    let s4 = enc_bin(data);
    let p4 = 18 + s4.len();
    assert(enc_str(key_type()).len() == 5);
    assert(enc_str(tag_signal()).len() == 7);
    assert(enc_str(key_data()).len() == 5);
    assert(buf.len() == p4);
    assert(buf[0] == 0x82);
    assert forall|i: int| 0 <= i < 5 implies buf[1 + i] == enc_str(key_type())[i] by {}
    lemma_parse_str_at(buf, 1, key_type());
    assert forall|i: int| 0 <= i < 7 implies buf[6 + i] == enc_str(tag_signal())[i] by {}
    lemma_parse_str_at(buf, 6, tag_signal());
    assert forall|i: int| 0 <= i < 5 implies buf[13 + i] == enc_str(key_data())[i] by {}
    lemma_parse_str_at(buf, 13, key_data());
    assert forall|i: int| 0 <= i < s4.len() implies buf[18 + i] == s4[i] by {}
    lemma_parse_bin_at(buf, 18, data);
    assert(tag_signal() != tag_request());
    assert(tag_signal() != tag_response());
    assert(decode_signal_fields(buf, 13) == Ok::<_, DecodeError>(data));
}

/// Build the frame for an outbound call: a Request with the given
/// correlation id and payload.
pub fn request(id: Vec<u8>, data_buf: Vec<u8>) -> (r: Vec<u8>)
    requires
        id@.len() < 0x1_0000_0000,
        data_buf@.len() < 0x1_0000_0000,
    ensures
        r@ == enc_message(MessageView::Request { id: id@, data: data_buf@ }),
{
    let msg = Message::Request { id, data: data_buf };
    encode(&msg)
}

} // verus!
