//! The proprietary HDHomeRun protocol: TLV encoding and decoding, the UDP
//! discovery reply and the TCP get/set exchange.
//!
//! A packet is `type (u16 BE) | payload length (u16 BE) | payload | CRC32 (u32 LE)`,
//! the CRC taken over everything before it. The payload is a sequence of
//! tag/length/value records.

use vstd::prelude::*;
use vstd::string::*;
use vstd::utf8::{decode_utf8, encode_utf8, valid_utf8};
use crate::text::{
    concat_str, dec_digits, ends_with, find_char, first_index_of, parse_unsigned,
    parse_unsigned_str, parse_usize, push_decimal, starts_with, str_ends_with, str_starts_with,
    trim_end_char, trim_end_char_str,
};

verus! {

broadcast use vstd::std_specs::hash::group_hash_axioms;

pub const HDHR_PROPRIETARY_PORT: u16 = 65001;

pub const HDHOMERUN_TYPE_DISCOVER_REQ: u16 = 0x0002;
pub const HDHOMERUN_TYPE_DISCOVER_RSP: u16 = 0x0003;
pub const HDHOMERUN_TYPE_GETSET_REQ: u16 = 0x0004;
pub const HDHOMERUN_TYPE_GETSET_RSP: u16 = 0x0005;

pub const HDHOMERUN_TAG_DEVICE_TYPE: u8 = 0x01;
pub const HDHOMERUN_TAG_DEVICE_ID: u8 = 0x02;
pub const HDHOMERUN_TAG_TUNER_COUNT: u8 = 0x10;
pub const HDHOMERUN_TAG_GETSET_NAME: u8 = 0x03;
pub const HDHOMERUN_TAG_GETSET_VALUE: u8 = 0x04;
pub const HDHOMERUN_TAG_ERROR_MESSAGE: u8 = 0x05;
pub const HDHOMERUN_TAG_BASE_URL: u8 = 0x2A;
pub const HDHOMERUN_TAG_LINEUP_URL: u8 = 0x27;

pub const HDHOMERUN_DEVICE_TYPE_TUNER: u32 = 0x0000_0001;
pub const HDHOMERUN_DEVICE_ID_WILDCARD: u32 = 0xFFFF_FFFF;

/// One emulated tuner device, as far as the protocol reads it.
pub struct HdHomeRunDeviceConfig {
    pub name: String,
    /// The device id in hexadecimal.
    pub device_id: String,
    pub port: u16,
    pub tuner_count: u8,
    pub t_enabled: bool,
}

pub struct HdHomeRunConfig {
    pub enabled: bool,
    pub devices: Vec<HdHomeRunDeviceConfig>,
}

// ---------------------------------------------------------------------------
// Byte layout
// ---------------------------------------------------------------------------

pub open spec fn u16_be(v: nat) -> Seq<u8> {
    seq![((v / 0x100) % 0x100) as u8, (v % 0x100) as u8]
}

pub open spec fn u32_be(v: u32) -> Seq<u8> {
    seq![
        (v / 0x100_0000) as u8,
        ((v / 0x1_0000) % 0x100) as u8,
        ((v / 0x100) % 0x100) as u8,
        (v % 0x100) as u8,
    ]
}

pub open spec fn u32_le(v: u32) -> Seq<u8> {
    seq![
        (v % 0x100) as u8,
        ((v / 0x100) % 0x100) as u8,
        ((v / 0x1_0000) % 0x100) as u8,
        (v / 0x100_0000) as u8,
    ]
}

/// The `u32` that four bytes denote big-endian (`u32::from_be_bytes`).
pub open spec fn u32_from_be(b: Seq<u8>) -> u32 {
    (b[0] as nat * 0x100_0000 + b[1] as nat * 0x1_0000 + b[2] as nat * 0x100 + b[3] as nat) as u32
}

/// The `u32` that four bytes denote little-endian (`u32::from_le_bytes`).
pub open spec fn u32_from_le(b: Seq<u8>) -> u32 {
    (b[0] as nat + b[1] as nat * 0x100 + b[2] as nat * 0x1_0000 + b[3] as nat * 0x100_0000) as u32
}

/// A length that does not fit a `u16` is written as 0.
pub open spec fn u16_or_zero(n: nat) -> nat {
    if n <= 0xFFFF {
        n
    } else {
        0
    }
}

pub open spec fn tlv_u32(tag: u8, value: u32) -> Seq<u8> {
    seq![tag, 4u8] + u32_be(value)
}

pub open spec fn tlv_u8(tag: u8, value: u8) -> Seq<u8> {
    seq![tag, 1u8, value]
}

/// The length field of a TLV record: one byte below 0x80, otherwise 0x82
/// followed by the length as a big-endian `u16`.
pub open spec fn tlv_length(len: nat) -> Seq<u8> {
    if len < 0x80 {
        seq![len as u8]
    } else {
        seq![0x82u8] + u16_be(u16_or_zero(len))
    }
}

pub open spec fn tlv_bytes(tag: u8, bytes: Seq<u8>) -> Seq<u8> {
    seq![tag] + tlv_length(bytes.len()) + bytes
}

/// A string record: the UTF-8 bytes of `s`.
pub open spec fn tlv_str(tag: u8, s: Seq<char>) -> Seq<u8> {
    tlv_bytes(tag, encode_utf8(s))
}

/// The part of a packet that the CRC covers.
pub open spec fn packet_body(msg_type: u16, payload: Seq<u8>) -> Seq<u8> {
    u16_be(msg_type as nat) + u16_be(u16_or_zero(payload.len())) + payload
}

/// `k` rounds of the bitwise CRC-32 register update: shift right, and
/// when a one drops out, xor the reflected IEEE polynomial 0xEDB88320.
pub open spec fn crc32_shift(c: u32, k: nat) -> u32
    decreases k,
{
    if k == 0 {
        c
    } else {
        crc32_shift(if c & 1 == 1 { (c >> 1u32) ^ 0xEDB8_8320u32 } else { c >> 1u32 }, (k - 1) as nat)
    }
}

/// The CRC-32 register after feeding `data` byte by byte.
pub open spec fn crc32_update(crc: u32, data: Seq<u8>) -> u32
    decreases data.len(),
{
    if data.len() == 0 {
        crc
    } else {
        crc32_update(crc32_shift(crc ^ (data[0] as u32), 8), data.drop_first())
    }
}

/// The CRC-32 (IEEE 802.3) checksum of `data`, as `crc32fast::hash`
/// computes it: register preset to all ones, bytes fed least significant
/// bit first, result inverted.
pub open spec fn crc32_of(data: Seq<u8>) -> u32 {
    crc32_update(0xFFFF_FFFFu32, data) ^ 0xFFFF_FFFFu32
}

/// A complete packet: body and the little-endian CRC of the body.
pub open spec fn packet(msg_type: u16, payload: Seq<u8>) -> Seq<u8> {
    packet_body(msg_type, payload) + u32_le(crc32_of(packet_body(msg_type, payload)))
}

/// Computes the CRC-32 checksum of a byte slice.
///
/// Trusted: wraps `crc32fast::hash`, which computes the standard CRC-32
/// stated by `crc32_of`.
#[verifier::external_body]
fn crc32_hash(data: &[u8]) -> (r: u32)
    ensures
        r == crc32_of(data@),
{
    crc32fast::hash(data)
}

fn append_bytes(buf: &mut Vec<u8>, bytes: &[u8])
    ensures
        final(buf)@ == old(buf)@ + bytes@,
{
    let n: usize = bytes.len();
    let mut i: usize = 0;
    while i < n
        invariant
            n == bytes@.len(),
            i <= n,
            buf@ == old(buf)@ + bytes@.take(i as int),
        decreases n - i,
    {
        buf.push(bytes[i]);
        assert(bytes@.take(i + 1) =~= bytes@.take(i as int).push(bytes@[i as int]));
        i = i + 1;
    }
    assert(bytes@.take(n as int) =~= bytes@);
}

fn put_u16_be(buf: &mut Vec<u8>, v: u16)
    ensures
        final(buf)@ == old(buf)@ + u16_be(v as nat),
{
    buf.push(((v / 0x100) % 0x100) as u8);
    buf.push((v % 0x100) as u8);
    assert(buf@ =~= old(buf)@ + u16_be(v as nat));
}

fn put_u32_be(buf: &mut Vec<u8>, v: u32)
    ensures
        final(buf)@ == old(buf)@ + u32_be(v),
{
    buf.push((v / 0x100_0000) as u8);
    buf.push(((v / 0x1_0000) % 0x100) as u8);
    buf.push(((v / 0x100) % 0x100) as u8);
    buf.push((v % 0x100) as u8);
    assert(buf@ =~= old(buf)@ + u32_be(v));
}

fn put_u32_le(buf: &mut Vec<u8>, v: u32)
    ensures
        final(buf)@ == old(buf)@ + u32_le(v),
{
    buf.push((v % 0x100) as u8);
    buf.push(((v / 0x100) % 0x100) as u8);
    buf.push(((v / 0x1_0000) % 0x100) as u8);
    buf.push((v / 0x100_0000) as u8);
    assert(buf@ =~= old(buf)@ + u32_le(v));
}

/// Appends a record whose value is a big-endian `u32`.
pub fn write_tlv_u32(buf: &mut Vec<u8>, tag: u8, value: u32)
    ensures
        final(buf)@ == old(buf)@ + tlv_u32(tag, value),
{
    buf.push(tag);
    buf.push(4);
    put_u32_be(buf, value);
    assert(buf@ =~= old(buf)@ + tlv_u32(tag, value));
}

/// Appends a record whose value is one byte.
pub fn write_tlv_u8(buf: &mut Vec<u8>, tag: u8, value: u8)
    ensures
        final(buf)@ == old(buf)@ + tlv_u8(tag, value),
{
    buf.push(tag);
    buf.push(1);
    buf.push(value);
    assert(buf@ =~= old(buf)@ + tlv_u8(tag, value));
}

/// Appends a record whose value is the UTF-8 encoding of `value`.
pub fn write_tlv_str(buf: &mut Vec<u8>, tag: u8, value: &str)
    ensures
        final(buf)@ == old(buf)@ + tlv_str(tag, value@),
{
    let bytes: &[u8] = value.as_bytes();
    let len: usize = bytes.len();
    buf.push(tag);
    if len < 0x80 {
        buf.push(len as u8);
    } else {
        buf.push(0x82);
        let l16: u16 = if len <= 0xFFFF {
            len as u16
        } else {
            0
        };
        put_u16_be(buf, l16);
    }
    append_bytes(buf, bytes);
    assert(buf@ =~= old(buf)@ + tlv_str(tag, value@));
}

/// The header and payload of a packet, without its CRC.
pub fn packet_body_bytes(msg_type: u16, payload: &[u8]) -> (r: Vec<u8>)
    ensures
        r@ == packet_body(msg_type, payload@),
{
    let mut out: Vec<u8> = Vec::new();
    put_u16_be(&mut out, msg_type);
    let len: usize = payload.len();
    let l16: u16 = if len <= 0xFFFF {
        len as u16
    } else {
        0
    };
    put_u16_be(&mut out, l16);
    append_bytes(&mut out, payload);
    assert(out@ =~= packet_body(msg_type, payload@));
    out
}

/// Completes a packet body with the given checksum.
pub fn append_crc(body: Vec<u8>, crc: u32) -> (r: Vec<u8>)
    ensures
        r@ == body@ + u32_le(crc),
{
    let mut out: Vec<u8> = body;
    put_u32_le(&mut out, crc);
    out
}

/// Builds a complete packet of the given type around `payload`.
pub fn seal_packet(msg_type: u16, payload: &[u8]) -> (r: Vec<u8>)
    ensures
        r@ == packet(msg_type, payload@),
{
    let body: Vec<u8> = packet_body_bytes(msg_type, payload);
    let crc: u32 = crc32_hash(body.as_slice());
    append_crc(body, crc)
}

// ---------------------------------------------------------------------------
// TLV decoding
// ---------------------------------------------------------------------------

/// The big-endian value of the extended length bytes, accumulated in a
/// `usize` whose high bits shift out (`(acc << 8) | b`).
pub open spec fn be_length(s: Seq<u8>) -> nat
    decreases s.len(),
{
    if s.len() == 0 {
        0
    } else {
        (be_length(s.drop_last()) % (usize::MAX as nat / 0x100 + 1)) * 0x100 + s.last() as nat
    }
}

/// The records of a TLV payload, in order. Decoding stops at the first
/// record whose length field or value is cut short.
pub open spec fn tlv_records(data: Seq<u8>) -> Seq<(u8, Seq<u8>)>
    decreases data.len(),
{
    if data.len() < 2 {
        seq![]
    } else {
        let tag = data[0];
        let lb = data[1];
        let rest = data.skip(2);
        if lb < 0x80 {
            let len = lb as nat;
            if rest.len() < len {
                seq![]
            } else {
                seq![(tag, rest.take(len as int))] + tlv_records(rest.skip(len as int))
            }
        } else {
            let ext = (lb - 0x80) as nat;
            if rest.len() < ext {
                seq![]
            } else {
                let len = be_length(rest.take(ext as int));
                let rest2 = rest.skip(ext as int);
                if rest2.len() < len {
                    seq![]
                } else {
                    seq![(tag, rest2.take(len as int))] + tlv_records(rest2.skip(len as int))
                }
            }
        }
    }
}

/// The tag map of a list of records: a later record of a tag replaces an
/// earlier one.
pub open spec fn records_to_map(recs: Seq<(u8, Seq<u8>)>) -> Map<u8, Seq<u8>>
    decreases recs.len(),
{
    if recs.len() == 0 {
        Map::empty()
    } else {
        records_to_map(recs.drop_last()).insert(recs.last().0, recs.last().1)
    }
}

pub open spec fn tlv_map(data: Seq<u8>) -> Map<u8, Seq<u8>> {
    records_to_map(tlv_records(data))
}

/// The map `m` holds exactly the tags of `spec`, each with its bytes.
pub open spec fn tags_match(m: Map<u8, Vec<u8>>, spec: Map<u8, Seq<u8>>) -> bool {
    &&& forall|k: u8| m.contains_key(k) <==> spec.contains_key(k)
    &&& forall|k: u8| #[trigger] m.contains_key(k) ==> m[k]@ == spec[k]
}

fn copy_range(data: &[u8], from: usize, to: usize) -> (r: Vec<u8>)
    requires
        from <= to <= data@.len(),
    ensures
        r@ == data@.subrange(from as int, to as int),
{
    let mut out: Vec<u8> = Vec::new();
    let mut i: usize = from;
    while i < to
        invariant
            from <= i <= to <= data@.len(),
            out@ == data@.subrange(from as int, i as int),
        decreases to - i,
    {
        out.push(data[i]);
        assert(data@.subrange(from as int, i + 1) =~= data@.subrange(from as int, i as int).push(
            data@[i as int],
        ));
        i = i + 1;
    }
    out
}

/// Decodes the TLV records of a payload into a map from tag to value.
pub fn parse_tlv(data: &[u8]) -> (r: std::collections::HashMap<u8, Vec<u8>>)
    ensures
        tags_match(r@, tlv_map(data@)),
{
    let mut tags: std::collections::HashMap<u8, Vec<u8>> = std::collections::HashMap::new();
    let n: usize = data.len();
    let mut pos: usize = 0;
    let ghost mut done: Seq<(u8, Seq<u8>)> = seq![];
    assert(data@.skip(0) =~= data@);
    while pos < n
        invariant
            n == data@.len(),
            pos <= n,
            pos == n ==> done == tlv_records(data@),
            done + tlv_records(data@.skip(pos as int)) == tlv_records(data@),
            tags_match(tags@, records_to_map(done)),
        ensures
            done == tlv_records(data@),
            tags_match(tags@, records_to_map(done)),
        decreases n - pos,
    {
        let ghost cur = data@.skip(pos as int);
        if n - pos < 2 {
            assert(tlv_records(cur) =~= seq![]);
            assert(done + seq![] =~= done);
            break;
        }
        let tag: u8 = data[pos];
        let lb: u8 = data[pos + 1];
        let start: usize = pos + 2;
        assert(cur[0] == tag && cur[1] == lb);
        assert(cur.skip(2) =~= data@.skip(start as int));
        let mut len: usize = 0;
        let mut vstart: usize = start;
        if lb < 0x80 {
            len = lb as usize;
        } else {
            let ext: usize = (lb - 0x80) as usize;
            if n - start < ext {
                assert(tlv_records(cur) =~= seq![]);
                assert(done + seq![] =~= done);
                break;
            }
            let mut acc: usize = 0;
            let mut i: usize = 0;
            while i < ext
                invariant
                    start + ext <= n,
                    n == data@.len(),
                    i <= ext,
                    acc as nat == be_length(data@.subrange(start as int, start + i)),
                decreases ext - i,
            {
                let b: u8 = data[start + i];
                assert(data@.subrange(start as int, start + i + 1).drop_last() =~= data@.subrange(
                    start as int,
                    start + i,
                ));
                acc = (acc % (usize::MAX / 0x100 + 1)) * 0x100 + b as usize;
                i = i + 1;
            }
            assert(data@.subrange(start as int, start + ext) =~= data@.skip(start as int).take(ext as int));
            len = acc;
            vstart = start + ext;
            assert(data@.skip(start as int).skip(ext as int) =~= data@.skip(vstart as int));
        }
        if n - vstart < len {
            assert(tlv_records(cur) =~= seq![]);
            assert(done + seq![] =~= done);
            break;
        }
        let value: Vec<u8> = copy_range(data, vstart, vstart + len);
        let ghost rec = (tag, value@);
        assert(value@ =~= data@.skip(vstart as int).take(len as int));
        assert(data@.skip(vstart as int).skip(len as int) =~= data@.skip((vstart + len) as int));
        assert(tlv_records(cur) =~= seq![rec] + tlv_records(data@.skip((vstart + len) as int)));
        tags.insert(tag, value);
        proof {
            assert((done + seq![rec]).drop_last() =~= done);
            assert(done + seq![rec] + tlv_records(data@.skip((vstart + len) as int)) =~= done + (
            seq![rec] + tlv_records(data@.skip((vstart + len) as int))));
            done = done + seq![rec];
        }
        pos = vstart + len;
        if pos == n {
            assert(tlv_records(data@.skip(pos as int)) =~= seq![]);
            assert(done + seq![] =~= done);
        }
    }
    tags
}

} // verus!

verus! {

// ---------------------------------------------------------------------------
// Discovery
// ---------------------------------------------------------------------------

/// The numeric device id: the hexadecimal `device_id`, or 0 when it does
/// not parse (`u32::from_str_radix(.., 16).unwrap_or(0)`).
pub open spec fn device_id_value(device_id: Seq<char>) -> u32 {
    match parse_unsigned(device_id, 16, u32::MAX as nat) {
        Some(v) => v as u32,
        None => 0,
    }
}

pub open spec fn base_url(host: Seq<char>, port: u16) -> Seq<char> {
    "http://"@ + host + ":"@ + dec_digits(port as nat)
}

/// The records of a discovery reply: device type, device id, base URL,
/// tuner count and lineup URL, in this order.
pub open spec fn discover_payload(device: HdHomeRunDeviceConfig, host: Seq<char>) -> Seq<u8> {
    let url = base_url(host, device.port);
    tlv_u32(HDHOMERUN_TAG_DEVICE_TYPE, HDHOMERUN_DEVICE_TYPE_TUNER) + tlv_u32(
        HDHOMERUN_TAG_DEVICE_ID,
        device_id_value(device.device_id@),
    ) + tlv_str(HDHOMERUN_TAG_BASE_URL, url) + tlv_u8(HDHOMERUN_TAG_TUNER_COUNT, device.tuner_count)
        + tlv_str(HDHOMERUN_TAG_LINEUP_URL, url + "/lineup.json"@)
}

pub open spec fn discover_response(device: HdHomeRunDeviceConfig, host: Seq<char>) -> Seq<u8> {
    packet(HDHOMERUN_TYPE_DISCOVER_RSP, discover_payload(device, host))
}

fn parse_device_id(device_id: &str) -> (r: u32)
    ensures
        r == device_id_value(device_id@),
{
    match parse_unsigned_str(device_id, 16, u32::MAX as u64) {
        Some(v) => v as u32,
        None => 0,
    }
}

/// The discovery reply packet of one device, announcing
/// `http://{server_host}:{port}` and its `/lineup.json`.
pub fn build_discover_response(device: &HdHomeRunDeviceConfig, server_host: &str) -> (r: Vec<u8>)
    ensures
        r@ == discover_response(*device, server_host@),
{
    let mut url: String = concat_str("http://", server_host);
    url.append(":");
    push_decimal(&mut url, device.port as u128);
    let mut lineup_url: String = url.clone();
    lineup_url.append("/lineup.json");
    let device_id: u32 = parse_device_id(device.device_id.as_str());
    let mut payload: Vec<u8> = Vec::new();
    write_tlv_u32(&mut payload, HDHOMERUN_TAG_DEVICE_TYPE, HDHOMERUN_DEVICE_TYPE_TUNER);
    write_tlv_u32(&mut payload, HDHOMERUN_TAG_DEVICE_ID, device_id);
    write_tlv_str(&mut payload, HDHOMERUN_TAG_BASE_URL, url.as_str());
    write_tlv_u8(&mut payload, HDHOMERUN_TAG_TUNER_COUNT, device.tuner_count);
    write_tlv_str(&mut payload, HDHOMERUN_TAG_LINEUP_URL, lineup_url.as_str());
    assert(url@ =~= base_url(server_host@, device.port));
    assert(payload@ =~= discover_payload(*device, server_host@));
    seal_packet(HDHOMERUN_TYPE_DISCOVER_RSP, payload.as_slice())
}

/// The device id a discovery request asks for, if it names one; an id
/// record that is not four bytes long counts as id 0.
pub open spec fn requested_device_id(tags: Map<u8, Seq<u8>>) -> Option<u32> {
    if tags.contains_key(HDHOMERUN_TAG_DEVICE_ID) {
        let id = tags[HDHOMERUN_TAG_DEVICE_ID];
        Some(
            if id.len() == 4 {
                u32_from_be(id)
            } else {
                0
            },
        )
    } else {
        None
    }
}

/// A device answers a request without id, with the wildcard id, or with
/// its own id.
pub open spec fn spec_should_reply(requested: Option<u32>, device_id: u32) -> bool {
    match requested {
        None => true,
        Some(x) => x == HDHOMERUN_DEVICE_ID_WILDCARD || x == device_id,
    }
}

pub fn should_reply(requested: Option<u32>, device_id: u32) -> (r: bool)
    ensures
        r == spec_should_reply(requested, device_id),
{
    match requested {
        None => true,
        Some(x) => x == HDHOMERUN_DEVICE_ID_WILDCARD || x == device_id,
    }
}

/// The replies to a discovery request from the enabled devices that
/// answer it, in configuration order.
pub open spec fn discover_replies(
    devices: Seq<HdHomeRunDeviceConfig>,
    requested: Option<u32>,
    host: Seq<char>,
) -> Seq<Seq<u8>>
    decreases devices.len(),
{
    if devices.len() == 0 {
        seq![]
    } else {
        let d = devices.last();
        let earlier = discover_replies(devices.drop_last(), requested, host);
        if d.t_enabled && spec_should_reply(requested, device_id_value(d.device_id@)) {
            earlier.push(discover_response(d, host))
        } else {
            earlier
        }
    }
}

/// The message type field of a packet.
pub open spec fn message_type(data: Seq<u8>) -> nat {
    data[0] as nat * 0x100 + data[1] as nat
}

/// What the discovery listener sends back for one datagram: nothing for a
/// datagram under four bytes, another message type, or a disabled
/// configuration; otherwise the replies of the answering devices.
pub open spec fn spec_discover_responses(
    data: Seq<u8>,
    config: HdHomeRunConfig,
    host: Seq<char>,
) -> Seq<Seq<u8>> {
    if data.len() < 4 || message_type(data) != HDHOMERUN_TYPE_DISCOVER_REQ as nat || !config.enabled {
        seq![]
    } else {
        discover_replies(config.devices@, requested_device_id(tlv_map(data.skip(4))), host)
    }
}

fn requested_id_of(tags: &std::collections::HashMap<u8, Vec<u8>>, spec_tags: Ghost<Map<u8, Seq<u8>>>) -> (r: Option<u32>)
    requires
        tags_match(tags@, spec_tags@),
    ensures
        r == requested_device_id(spec_tags@),
{
    match tags.get(&HDHOMERUN_TAG_DEVICE_ID) {
        Some(id) => {
            assert(tags@.contains_key(HDHOMERUN_TAG_DEVICE_ID));
            if id.len() == 4 {
                Some(
                    (id[0] as u32) * 0x100_0000 + (id[1] as u32) * 0x1_0000 + (id[2] as u32) * 0x100
                        + (id[3] as u32),
                )
            } else {
                Some(0)
            }
        },
        None => None,
    }
}

/// The replies that the discovery listener sends for one received datagram.
pub fn discover_responses(data: &[u8], config: &HdHomeRunConfig, server_host: &str) -> (r: Vec<Vec<u8>>)
    ensures
        r@.len() == spec_discover_responses(data@, *config, server_host@).len(),
        forall|i: int|
            0 <= i < r@.len() ==> #[trigger] r@[i]@ == spec_discover_responses(
                data@,
                *config,
                server_host@,
            )[i],
{
    let mut out: Vec<Vec<u8>> = Vec::new();
    if data.len() < 4 {
        return out;
    }
    let msg_type: u16 = (data[0] as u16) * 0x100 + data[1] as u16;
    if msg_type != HDHOMERUN_TYPE_DISCOVER_REQ || !config.enabled {
        return out;
    }
    let payload: Vec<u8> = copy_range(data, 4, data.len());
    assert(payload@ =~= data@.skip(4));
    let tags: std::collections::HashMap<u8, Vec<u8>> = parse_tlv(payload.as_slice());
    let requested: Option<u32> = requested_id_of(&tags, Ghost(tlv_map(data@.skip(4))));
    let n: usize = config.devices.len();
    let mut i: usize = 0;
    while i < n
        invariant
            n == config.devices@.len(),
            i <= n,
            requested == requested_device_id(tlv_map(data@.skip(4))),
            out@.len() == discover_replies(config.devices@.take(i as int), requested, server_host@).len(),
            forall|j: int|
                0 <= j < out@.len() ==> #[trigger] out@[j]@ == discover_replies(
                    config.devices@.take(i as int),
                    requested,
                    server_host@,
                )[j],
        decreases n - i,
    {
        let device: &HdHomeRunDeviceConfig = &config.devices[i];
        assert(config.devices@.take(i + 1).drop_last() =~= config.devices@.take(i as int));
        if device.t_enabled && should_reply(requested, parse_device_id(device.device_id.as_str())) {
            let response: Vec<u8> = build_discover_response(device, server_host);
            out.push(response);
        }
        i = i + 1;
    }
    assert(config.devices@.take(n as int) =~= config.devices@);
    out
}

// ---------------------------------------------------------------------------
// Get/set
// ---------------------------------------------------------------------------

/// The characters that `String::from_utf8_lossy` decodes from `bytes`
/// (invalid sequences replaced by U+FFFD).
pub uninterp spec fn utf8_lossy(bytes: Seq<u8>) -> Seq<char>;

/// Decodes bytes as UTF-8, replacing invalid sequences.
///
/// The text of decoded bytes: valid UTF-8 decodes as it is, other bytes
/// as `String::from_utf8_lossy` replaces them.
pub open spec fn lossy_text(bytes: Seq<u8>) -> Seq<char> {
    if valid_utf8(bytes) {
        decode_utf8(bytes)
    } else {
        utf8_lossy(bytes)
    }
}

/// Trusted: wraps `String::from_utf8_lossy`. The contract names the result
/// (`utf8_lossy`, a function of the bytes alone) and states what std
/// documents for valid UTF-8: the bytes are decoded unchanged. How invalid
/// sequences are replaced is not stated.
#[verifier::external_body]
fn bytes_to_string_lossy(bytes: &[u8]) -> (r: String)
    ensures
        r@ == utf8_lossy(bytes@),
        valid_utf8(bytes@) ==> r@ == decode_utf8(bytes@),
{
    String::from_utf8_lossy(bytes).into_owned()
}

/// The tuner number in a name `/tuner<N>/...`: the text after `/tuner` up
/// to the next `/`, parsed as a `usize`.
pub open spec fn tuner_index(name: Seq<char>) -> Option<nat> {
    let rest = name.skip(6);
    let end: nat = match first_index_of(rest, '/') {
        Some(i) => i,
        None => rest.len(),
    };
    parse_unsigned(rest.take(end as int), 10, usize::MAX as nat)
}

pub open spec fn tuner_status(streams: Seq<Seq<char>>, i: nat) -> Seq<char> {
    if i < streams.len() {
        "ch="@ + streams[i as int] + " lock=8vsb ss=98 snq=80 seq=90 bps=12345678 pps=1234"@
    } else {
        "ch=none lock=none ss=0 snq=0 seq=0 bps=0 pps=0"@
    }
}

pub open spec fn tuner_vchannel(streams: Seq<Seq<char>>, i: nat) -> Seq<char> {
    if i < streams.len() {
        streams[i as int]
    } else {
        "none"@
    }
}

pub open spec fn is_tuner_item(name: Seq<char>, item: Seq<char>) -> bool {
    starts_with(name, "/tuner"@) && ends_with(name, item)
}

/// The payload of a get/set reply for the variable `name`: the name
/// record, then its value (`/sys/model`, `/tunerN/status`,
/// `/tunerN/vchannel`), an error for `/tunerN/lockkey`, or an empty value
/// for any other name. A tuner name whose number does not parse gets no
/// value record.
pub open spec fn getset_reply_records(name: Seq<char>, streams: Seq<Seq<char>>) -> Seq<u8> {
    let head = tlv_str(HDHOMERUN_TAG_GETSET_NAME, name);
    if name == "/sys/model"@ {
        head + tlv_str(HDHOMERUN_TAG_GETSET_VALUE, "hdhomerun4_atsc"@)
    } else if is_tuner_item(name, "/status"@) {
        match tuner_index(name) {
            Some(i) => head + tlv_str(HDHOMERUN_TAG_GETSET_VALUE, tuner_status(streams, i)),
            None => head,
        }
    } else if is_tuner_item(name, "/vchannel"@) {
        match tuner_index(name) {
            Some(i) => head + tlv_str(HDHOMERUN_TAG_GETSET_VALUE, tuner_vchannel(streams, i)),
            None => head,
        }
    } else if is_tuner_item(name, "/lockkey"@) {
        head + tlv_str(HDHOMERUN_TAG_ERROR_MESSAGE, "ERROR: resource locked"@)
    } else {
        head + tlv_str(HDHOMERUN_TAG_GETSET_VALUE, ""@)
    }
}

/// The requested variable name: the name record decoded, trailing NULs
/// removed.
pub open spec fn getset_name(tags: Map<u8, Seq<u8>>) -> Seq<char> {
    trim_end_char(lossy_text(tags[HDHOMERUN_TAG_GETSET_NAME]), '\0')
}

pub open spec fn getset_payload(tags: Map<u8, Seq<u8>>, streams: Seq<Seq<char>>) -> Seq<u8> {
    if tags.contains_key(HDHOMERUN_TAG_GETSET_NAME) {
        getset_reply_records(getset_name(tags), streams)
    } else {
        seq![]
    }
}

pub open spec fn crc_field(request: Seq<u8>) -> u32 {
    u32_from_le(request.skip(request.len() - 4))
}

pub open spec fn crc_matches(request: Seq<u8>) -> bool {
    crc32_of(request.take(request.len() - 4)) == crc_field(request)
}

/// The reply to a get/set request: empty when the CRC does not match,
/// otherwise a reply packet for the requested variable.
pub open spec fn spec_getset_response(request: Seq<u8>, streams: Seq<Seq<char>>) -> Seq<u8> {
    if !crc_matches(request) {
        seq![]
    } else {
        packet(
            HDHOMERUN_TYPE_GETSET_RSP,
            getset_payload(tlv_map(request.take(request.len() - 4).skip(4)), streams),
        )
    }
}

pub open spec fn titles_view(titles: Seq<String>) -> Seq<Seq<char>> {
    titles.map_values(|t: String| t@)
}

fn tuner_index_of(name: &str) -> (r: Option<usize>)
    requires
        starts_with(name@, "/tuner"@),
    ensures
        match r {
            Some(i) => tuner_index(name@) == Some(i as nat),
            None => tuner_index(name@) is None,
        },
{
    proof {
        reveal_strlit("/tuner");
    }
    let n: usize = name.unicode_len();
    let rest: &str = name.substring_char(6, n);
    assert(rest@ =~= name@.skip(6));
    let end: usize = match find_char(rest, '/') {
        Some(i) => i,
        None => rest.unicode_len(),
    };
    proof {
        if first_index_of(rest@, '/') is Some {
            crate::text::lemma_first_index_bound(rest@, '/');
        }
    }
    let digits: &str = rest.substring_char(0, end);
    assert(digits@ =~= rest@.take(end as int));
    parse_usize(digits)
}

fn write_reply_records(buf: &mut Vec<u8>, name: &str, stream_titles: &Vec<String>)
    ensures
        final(buf)@ == old(buf)@ + getset_reply_records(name@, titles_view(stream_titles@)),
{
    let ghost streams = titles_view(stream_titles@);
    write_tlv_str(buf, HDHOMERUN_TAG_GETSET_NAME, name);
    let ghost after_head = buf@;
    if crate::text::str_eq(name, "/sys/model") {
        write_tlv_str(buf, HDHOMERUN_TAG_GETSET_VALUE, "hdhomerun4_atsc");
    } else if str_starts_with(name, "/tuner") && str_ends_with(name, "/status") {
        match tuner_index_of(name) {
            Some(i) => {
                if i < stream_titles.len() {
                    let mut status: String = concat_str("ch=", stream_titles[i].as_str());
                    status.append(" lock=8vsb ss=98 snq=80 seq=90 bps=12345678 pps=1234");
                    write_tlv_str(buf, HDHOMERUN_TAG_GETSET_VALUE, status.as_str());
                } else {
                    write_tlv_str(
                        buf,
                        HDHOMERUN_TAG_GETSET_VALUE,
                        "ch=none lock=none ss=0 snq=0 seq=0 bps=0 pps=0",
                    );
                }
            },
            None => {},
        }
    } else if str_starts_with(name, "/tuner") && str_ends_with(name, "/vchannel") {
        match tuner_index_of(name) {
            Some(i) => {
                if i < stream_titles.len() {
                    write_tlv_str(buf, HDHOMERUN_TAG_GETSET_VALUE, stream_titles[i].as_str());
                } else {
                    write_tlv_str(buf, HDHOMERUN_TAG_GETSET_VALUE, "none");
                }
            },
            None => {},
        }
    } else if str_starts_with(name, "/tuner") && str_ends_with(name, "/lockkey") {
        write_tlv_str(buf, HDHOMERUN_TAG_ERROR_MESSAGE, "ERROR: resource locked");
    } else {
        write_tlv_str(buf, HDHOMERUN_TAG_GETSET_VALUE, "");
    }
    assert(buf@ =~= old(buf)@ + getset_reply_records(name@, streams));
}

/// Answers a get/set request packet (CRC included) for the given active
/// streams, listed by channel title in tuner order. An empty result means
/// that the CRC did not match.
pub fn process_getset_request(request: &[u8], stream_titles: &Vec<String>) -> (r: Vec<u8>)
    requires
        request@.len() >= 4,
        request@.len() < 8 ==> !crc_matches(request@),
    ensures
        r@ == spec_getset_response(request@, titles_view(stream_titles@)),
{
    let len: usize = request.len();
    let data: Vec<u8> = copy_range(request, 0, len - 4);
    assert(data@ =~= request@.take(len - 4));
    let received: u32 = (request[len - 4] as u32) + (request[len - 3] as u32) * 0x100
        + (request[len - 2] as u32) * 0x1_0000 + (request[len - 1] as u32) * 0x100_0000;
    assert(received == crc_field(request@));
    if crc32_hash(data.as_slice()) != received {
        return Vec::new();
    }
    let body: Vec<u8> = copy_range(data.as_slice(), 4, data.len());
    assert(body@ =~= data@.skip(4));
    let tags: std::collections::HashMap<u8, Vec<u8>> = parse_tlv(body.as_slice());
    let ghost spec_tags = tlv_map(body@);
    let mut payload: Vec<u8> = Vec::new();
    match tags.get(&HDHOMERUN_TAG_GETSET_NAME) {
        Some(name_bytes) => {
            assert(tags@.contains_key(HDHOMERUN_TAG_GETSET_NAME));
            let name: String = bytes_to_string_lossy(name_bytes.as_slice());
            let name_str: &str = trim_end_char_str(name.as_str(), '\0');
            write_reply_records(&mut payload, name_str, stream_titles);
            assert(payload@ =~= getset_payload(spec_tags, titles_view(stream_titles@)));
        },
        None => {
            assert(payload@ =~= getset_payload(spec_tags, titles_view(stream_titles@)));
        },
    }
    seal_packet(HDHOMERUN_TYPE_GETSET_RSP, payload.as_slice())
}

/// What the TCP connection handler does with one read of `request`.
pub enum TcpAction {
    /// Keep reading: too short, or not a get/set request.
    Ignore,
    /// Send the reply and keep the connection.
    Reply(Vec<u8>),
    /// Close the connection: the request failed its checks.
    Close,
}

/// The decision of the TCP handler for one chunk it read: ignore a chunk
/// under four bytes or of another type; close on a CRC mismatch or on a
/// get/set request too short to hold a header; otherwise reply.
pub fn tcp_request_action(request: &[u8], stream_titles: &Vec<String>) -> (r: TcpAction)
    ensures
        request@.len() < 4 ==> r is Ignore,
        request@.len() >= 4 && message_type(request@) != HDHOMERUN_TYPE_GETSET_REQ as nat
            ==> r is Ignore,
        request@.len() >= 4 && message_type(request@) == HDHOMERUN_TYPE_GETSET_REQ as nat ==> (
        match r {
            TcpAction::Reply(bytes) => request@.len() >= 8 && crc_matches(request@) && bytes@
                == spec_getset_response(request@, titles_view(stream_titles@)),
            TcpAction::Close => !crc_matches(request@) || request@.len() < 8,
            TcpAction::Ignore => false,
        }),
{
    if request.len() < 4 {
        return TcpAction::Ignore;
    }
    let msg_type: u16 = (request[0] as u16) * 0x100 + request[1] as u16;
    if msg_type != HDHOMERUN_TYPE_GETSET_REQ {
        return TcpAction::Ignore;
    }
    let len: usize = request.len();
    if len < 8 {
        return TcpAction::Close;
    }
    let response: Vec<u8> = process_getset_request(request, stream_titles);
    if response.len() == 0 {
        TcpAction::Close
    } else {
        assert(crc_matches(request@)) by {
            if !crc_matches(request@) {
                assert(spec_getset_response(request@, titles_view(stream_titles@)) =~= seq![]);
            }
        }
        TcpAction::Reply(response)
    }
}

} // verus!

verus! {

// ---------------------------------------------------------------------------
// Laws
// ---------------------------------------------------------------------------

/// Decoding reads back an encoded byte record: a record of at most 0xFFFF
/// bytes, followed by any further bytes, decodes to that record and then
/// to what the further bytes decode to.
pub proof fn law_tlv_bytes_roundtrip(tag: u8, bytes: Seq<u8>, rest: Seq<u8>)
    requires
        bytes.len() <= 0xFFFF,
    ensures
        tlv_records(tlv_bytes(tag, bytes) + rest) == seq![(tag, bytes)] + tlv_records(rest),
{
    let len = bytes.len();
    let data = tlv_bytes(tag, bytes) + rest;
    if len < 0x80 {
        assert(data[0] == tag);
        assert(data[1] == len as u8);
        assert(data.skip(2) =~= bytes + rest);
        assert((bytes + rest).take(len as int) =~= bytes);
        assert((bytes + rest).skip(len as int) =~= rest);
    } else {
        let hi = ((len / 0x100) % 0x100) as u8;
        let lo = (len % 0x100) as u8;
        assert(data[0] == tag);
        assert(data[1] == 0x82u8);
        let after = data.skip(2);
        assert(after =~= seq![hi, lo] + bytes + rest);
        assert(after.take(2) =~= seq![hi, lo]);
        let m = usize::MAX as nat / 0x100 + 1;
        assert(m > 0x100) by {
            assert(usize::MAX >= 0xFFFF_FFFF);
        }
        assert(seq![hi, lo].drop_last() =~= seq![hi]);
        assert(seq![hi].drop_last() =~= Seq::<u8>::empty());
        vstd::arithmetic::div_mod::lemma_small_mod(0, m);
        vstd::arithmetic::div_mod::lemma_small_mod(hi as nat, m);
        assert(be_length(Seq::<u8>::empty()) == 0);
        assert(be_length(seq![hi]) == (be_length(Seq::<u8>::empty()) % m) * 0x100 + hi as nat);
        assert(be_length(seq![hi]) == hi as nat);
        assert(be_length(seq![hi, lo]) == (hi as nat % m) * 0x100 + lo as nat);
        assert((hi as nat) % m == hi as nat);
        assert((hi as nat) * 0x100 + lo as nat == len);
        assert(after.skip(2) =~= bytes + rest);
        assert((bytes + rest).take(len as int) =~= bytes);
        assert((bytes + rest).skip(len as int) =~= rest);
    }
}

/// A `u32` record decodes to the four big-endian bytes of the value, which
/// read back as the value.
pub proof fn law_tlv_u32_roundtrip(tag: u8, value: u32, rest: Seq<u8>)
    ensures
        tlv_records(tlv_u32(tag, value) + rest) == seq![(tag, u32_be(value))] + tlv_records(rest),
        u32_from_be(u32_be(value)) == value,
{
    assert(tlv_u32(tag, value) =~= tlv_bytes(tag, u32_be(value)));
    law_tlv_bytes_roundtrip(tag, u32_be(value), rest);
    let v = value as nat;
    assert((v / 0x100_0000) * 0x100_0000 + ((v / 0x1_0000) % 0x100) * 0x1_0000 + ((v / 0x100) % 0x100)
        * 0x100 + v % 0x100 == v) by (nonlinear_arith)
        requires v < 0x1_0000_0000;
}

/// A one-byte record decodes to that byte.
pub proof fn law_tlv_u8_roundtrip(tag: u8, value: u8, rest: Seq<u8>)
    ensures
        tlv_records(tlv_u8(tag, value) + rest) == seq![(tag, seq![value])] + tlv_records(rest),
{
    assert(tlv_u8(tag, value) =~= tlv_bytes(tag, seq![value]));
    law_tlv_bytes_roundtrip(tag, seq![value], rest);
}

/// A packet that this module builds passes the CRC check of a request.
pub proof fn law_packet_crc_matches(msg_type: u16, payload: Seq<u8>)
    ensures
        crc_matches(packet(msg_type, payload)),
{
    let body = packet_body(msg_type, payload);
    let p = packet(msg_type, payload);
    let crc = crc32_of(body);
    assert(p.take(p.len() - 4) =~= body);
    assert(p.skip(p.len() - 4) =~= u32_le(crc));
    let v = crc as nat;
    assert(v % 0x100 + ((v / 0x100) % 0x100) * 0x100 + ((v / 0x1_0000) % 0x100) * 0x1_0000 + (v
        / 0x100_0000) * 0x100_0000 == v) by (nonlinear_arith)
        requires v < 0x1_0000_0000;
}

/// A discovery reply decodes to its five records in order: device type,
/// device id, base URL, tuner count and lineup URL (given URLs of at most
/// 0xFFFF bytes).
pub proof fn law_discover_payload_records(device: HdHomeRunDeviceConfig, host: Seq<char>)
    requires
        encode_utf8(base_url(host, device.port)).len() <= 0xFFFF,
        encode_utf8(base_url(host, device.port) + "/lineup.json"@).len() <= 0xFFFF,
    ensures
        tlv_records(discover_payload(device, host)) == seq![
            (HDHOMERUN_TAG_DEVICE_TYPE, u32_be(HDHOMERUN_DEVICE_TYPE_TUNER)),
            (HDHOMERUN_TAG_DEVICE_ID, u32_be(device_id_value(device.device_id@))),
            (HDHOMERUN_TAG_BASE_URL, encode_utf8(base_url(host, device.port))),
            (HDHOMERUN_TAG_TUNER_COUNT, seq![device.tuner_count]),
            (HDHOMERUN_TAG_LINEUP_URL, encode_utf8(base_url(host, device.port) + "/lineup.json"@)),
        ],
{
    let url = base_url(host, device.port);
    let lineup = url + "/lineup.json"@;
    let r4 = tlv_str(HDHOMERUN_TAG_LINEUP_URL, lineup);
    let r3 = tlv_u8(HDHOMERUN_TAG_TUNER_COUNT, device.tuner_count) + r4;
    let r2 = tlv_str(HDHOMERUN_TAG_BASE_URL, url) + r3;
    let r1 = tlv_u32(HDHOMERUN_TAG_DEVICE_ID, device_id_value(device.device_id@)) + r2;
    let r0 = tlv_u32(HDHOMERUN_TAG_DEVICE_TYPE, HDHOMERUN_DEVICE_TYPE_TUNER) + r1;
    assert(discover_payload(device, host) =~= r0);
    law_tlv_bytes_roundtrip(HDHOMERUN_TAG_LINEUP_URL, encode_utf8(lineup), seq![]);
    assert(r4 + seq![] =~= r4);
    assert(tlv_records(Seq::<u8>::empty()) =~= Seq::<(u8, Seq<u8>)>::empty());
    law_tlv_u8_roundtrip(HDHOMERUN_TAG_TUNER_COUNT, device.tuner_count, r4);
    law_tlv_bytes_roundtrip(HDHOMERUN_TAG_BASE_URL, encode_utf8(url), r3);
    law_tlv_u32_roundtrip(HDHOMERUN_TAG_DEVICE_ID, device_id_value(device.device_id@), r2);
    law_tlv_u32_roundtrip(HDHOMERUN_TAG_DEVICE_TYPE, HDHOMERUN_DEVICE_TYPE_TUNER, r1);
    assert(tlv_records(discover_payload(device, host)) =~= seq![
        (HDHOMERUN_TAG_DEVICE_TYPE, u32_be(HDHOMERUN_DEVICE_TYPE_TUNER)),
        (HDHOMERUN_TAG_DEVICE_ID, u32_be(device_id_value(device.device_id@))),
        (HDHOMERUN_TAG_BASE_URL, encode_utf8(url)),
        (HDHOMERUN_TAG_TUNER_COUNT, seq![device.tuner_count]),
        (HDHOMERUN_TAG_LINEUP_URL, encode_utf8(lineup)),
    ]);
}

/// A discovery request without device id, or with the wildcard id, is
/// answered by every enabled device.
pub proof fn law_wildcard_discovery_answers_all(devices: Seq<HdHomeRunDeviceConfig>, requested: Option<u32>, host: Seq<char>)
    requires
        requested is None || requested == Some(HDHOMERUN_DEVICE_ID_WILDCARD),
    ensures
        discover_replies(devices, requested, host).len() == devices.filter(
            |d: HdHomeRunDeviceConfig| d.t_enabled,
        ).len(),
    decreases devices.len(),
{
    reveal(Seq::filter);
    if devices.len() > 0 {
        law_wildcard_discovery_answers_all(devices.drop_last(), requested, host);
    }
}

} // verus!

verus! {

/// One call of a TLV writer: `write_tlv_u32`, `write_tlv_u8` or
/// `write_tlv_str`, with its tag and value.
pub enum TlvWrite {
    U32(u8, u32),
    U8(u8, u8),
    Str(u8, Seq<char>),
}

pub open spec fn write_tag(w: TlvWrite) -> u8 {
    match w {
        TlvWrite::U32(t, _) => t,
        TlvWrite::U8(t, _) => t,
        TlvWrite::Str(t, _) => t,
    }
}

/// The value bytes a write puts into its record.
pub open spec fn write_value(w: TlvWrite) -> Seq<u8> {
    match w {
        TlvWrite::U32(_, v) => u32_be(v),
        TlvWrite::U8(_, v) => seq![v],
        TlvWrite::Str(_, s) => encode_utf8(s),
    }
}

/// The bytes a write appends (see the writers' contracts).
pub open spec fn write_bytes(w: TlvWrite) -> Seq<u8> {
    match w {
        TlvWrite::U32(t, v) => tlv_u32(t, v),
        TlvWrite::U8(t, v) => tlv_u8(t, v),
        TlvWrite::Str(t, s) => tlv_str(t, s),
    }
}

/// The buffer that a sequence of writes fills, starting from empty.
pub open spec fn encode_writes(ws: Seq<TlvWrite>) -> Seq<u8>
    decreases ws.len(),
{
    if ws.len() == 0 {
        seq![]
    } else {
        write_bytes(ws[0]) + encode_writes(ws.drop_first())
    }
}

/// The writes can be read back: every string is at most 0xFFFF bytes.
pub open spec fn writes_fit(ws: Seq<TlvWrite>) -> bool {
    forall|i: int| 0 <= i < ws.len() ==> (#[trigger] write_value(ws[i])).len() <= 0xFFFF
}

pub open spec fn write_tags_distinct(ws: Seq<TlvWrite>) -> bool {
    forall|i: int, j: int| 0 <= i < j < ws.len() ==> write_tag(#[trigger] ws[i]) != write_tag(#[trigger] ws[j])
}

pub open spec fn write_record(w: TlvWrite) -> (u8, Seq<u8>) {
    (write_tag(w), write_value(w))
}

proof fn lemma_write_roundtrip(w: TlvWrite, rest: Seq<u8>)
    requires
        write_value(w).len() <= 0xFFFF,
    ensures
        tlv_records(write_bytes(w) + rest) == seq![write_record(w)] + tlv_records(rest),
{
    match w {
        TlvWrite::U32(t, v) => law_tlv_u32_roundtrip(t, v, rest),
        TlvWrite::U8(t, v) => law_tlv_u8_roundtrip(t, v, rest),
        TlvWrite::Str(t, s) => law_tlv_bytes_roundtrip(t, encode_utf8(s), rest),
    }
}

proof fn lemma_writes_records(ws: Seq<TlvWrite>)
    requires
        writes_fit(ws),
    ensures
        tlv_records(encode_writes(ws)) == ws.map_values(|w: TlvWrite| write_record(w)),
    decreases ws.len(),
{
    if ws.len() == 0 {
        assert(tlv_records(Seq::<u8>::empty()) =~= Seq::<(u8, Seq<u8>)>::empty());
        assert(ws.map_values(|w: TlvWrite| write_record(w)) =~= Seq::<(u8, Seq<u8>)>::empty());
    } else {
        let rest = ws.drop_first();
        assert(writes_fit(rest)) by {
            assert forall|i: int| 0 <= i < rest.len() implies (#[trigger] write_value(rest[i])).len() <= 0xFFFF by {
                assert(rest[i] == ws[i + 1]);
            }
        }
        assert(write_value(ws[0]).len() <= 0xFFFF);
        lemma_writes_records(rest);
        lemma_write_roundtrip(ws[0], encode_writes(rest));
        assert(ws.map_values(|w: TlvWrite| write_record(w)) =~= seq![write_record(ws[0])] + rest.map_values(
            |w: TlvWrite| write_record(w),
        ));
    }
}

proof fn lemma_records_map(recs: Seq<(u8, Seq<u8>)>)
    requires
        forall|i: int, j: int| 0 <= i < j < recs.len() ==> (#[trigger] recs[i]).0 != (#[trigger] recs[j]).0,
    ensures
        forall|i: int|
            0 <= i < recs.len() ==> records_to_map(recs).contains_key((#[trigger] recs[i]).0)
                && records_to_map(recs)[recs[i].0] == recs[i].1,
        forall|k: u8|
            #[trigger] records_to_map(recs).contains_key(k) ==> exists|i: int|
                0 <= i < recs.len() && (#[trigger] recs[i]).0 == k,
    decreases recs.len(),
{
    if recs.len() > 0 {
        let init = recs.drop_last();
        assert forall|i: int, j: int| 0 <= i < j < init.len() implies (#[trigger] init[i]).0 != (#[trigger] init[j]).0 by {
            assert(init[i] == recs[i] && init[j] == recs[j]);
        }
        lemma_records_map(init);
        let m = records_to_map(recs);
        let last = recs.last();
        assert forall|i: int| 0 <= i < recs.len() implies m.contains_key((#[trigger] recs[i]).0)
            && m[recs[i].0] == recs[i].1 by {
            if i < recs.len() - 1 {
                assert(init[i] == recs[i]);
                assert(recs[i].0 != last.0);
            }
        }
        assert forall|k: u8| #[trigger] m.contains_key(k) implies exists|i: int|
            0 <= i < recs.len() && (#[trigger] recs[i]).0 == k by {
            if k == last.0 {
                assert(recs[recs.len() - 1].0 == k);
            } else {
                assert(records_to_map(init).contains_key(k));
                let i = choose|i: int| 0 <= i < init.len() && (#[trigger] init[i]).0 == k;
                assert(recs[i] == init[i]);
            }
        }
    }
}

/// A buffer filled by TLV writes with distinct tags, every string at most
/// 0xFFFF bytes, decodes record by record to exactly those writes, so the
/// whole buffer is consumed; the decoded map holds exactly the written
/// tags, each with its written value bytes (a `u32` as its four big-endian
/// bytes, a `u8` as itself, a string as its UTF-8 bytes).
pub proof fn law_tlv_writes_read_back(ws: Seq<TlvWrite>)
    requires
        writes_fit(ws),
        write_tags_distinct(ws),
    ensures
        tlv_records(encode_writes(ws)) == ws.map_values(|w: TlvWrite| write_record(w)),
        forall|i: int|
            0 <= i < ws.len() ==> tlv_map(encode_writes(ws)).contains_key(write_tag(#[trigger] ws[i]))
                && tlv_map(encode_writes(ws))[write_tag(ws[i])] == write_value(ws[i]),
        forall|k: u8|
            #[trigger] tlv_map(encode_writes(ws)).contains_key(k) ==> exists|i: int|
                0 <= i < ws.len() && write_tag(#[trigger] ws[i]) == k,
{
    lemma_writes_records(ws);
    let recs = ws.map_values(|w: TlvWrite| write_record(w));
    assert forall|i: int, j: int| 0 <= i < j < recs.len() implies (#[trigger] recs[i]).0 != (#[trigger] recs[j]).0 by {
        assert(recs[i] == write_record(ws[i]) && recs[j] == write_record(ws[j]));
    }
    lemma_records_map(recs);
    assert forall|i: int| 0 <= i < ws.len() implies tlv_map(encode_writes(ws)).contains_key(
        write_tag(#[trigger] ws[i]),
    ) && tlv_map(encode_writes(ws))[write_tag(ws[i])] == write_value(ws[i]) by {
        assert(recs[i] == write_record(ws[i]));
    }
    assert forall|k: u8| #[trigger] tlv_map(encode_writes(ws)).contains_key(k) implies exists|i: int|
        0 <= i < ws.len() && write_tag(#[trigger] ws[i]) == k by {
        let i = choose|i: int| 0 <= i < recs.len() && (#[trigger] recs[i]).0 == k;
        assert(recs[i] == write_record(ws[i]));
    }
}

} // verus!

verus! {

proof fn lemma_replies_from_enabled(devices: Seq<HdHomeRunDeviceConfig>, requested: Option<u32>, host: Seq<char>)
    ensures
        discover_replies(devices, requested, host).len() <= devices.len(),
        forall|i: int|
            0 <= i < discover_replies(devices, requested, host).len() ==> exists|j: int|
                0 <= j < devices.len() && (#[trigger] devices[j]).t_enabled && spec_should_reply(
                    requested,
                    device_id_value(devices[j].device_id@),
                ) && #[trigger] discover_replies(devices, requested, host)[i] == discover_response(
                    devices[j],
                    host,
                ),
        forall|j: int|
            0 <= j < devices.len() && (#[trigger] devices[j]).t_enabled && spec_should_reply(
                requested,
                device_id_value(devices[j].device_id@),
            ) ==> discover_replies(devices, requested, host).contains(discover_response(devices[j], host)),
    decreases devices.len(),
{
    if devices.len() > 0 {
        let init = devices.drop_last();
        lemma_replies_from_enabled(init, requested, host);
        let earlier = discover_replies(init, requested, host);
        let r = discover_replies(devices, requested, host);
        let d = devices.last();
        assert forall|i: int| 0 <= i < r.len() implies exists|j: int|
            0 <= j < devices.len() && (#[trigger] devices[j]).t_enabled && spec_should_reply(
                requested,
                device_id_value(devices[j].device_id@),
            ) && #[trigger] r[i] == discover_response(devices[j], host) by {
            if i < earlier.len() {
                assert(r[i] == earlier[i]);
                let j = choose|j: int|
                    0 <= j < init.len() && (#[trigger] init[j]).t_enabled && spec_should_reply(
                        requested,
                        device_id_value(init[j].device_id@),
                    ) && #[trigger] earlier[i] == discover_response(init[j], host);
                assert(devices[j] == init[j]);
            } else {
                assert(devices[devices.len() - 1] == d);
            }
        }
        assert forall|j: int|
            0 <= j < devices.len() && (#[trigger] devices[j]).t_enabled && spec_should_reply(
                requested,
                device_id_value(devices[j].device_id@),
            ) implies r.contains(discover_response(devices[j], host)) by {
            if j < init.len() {
                assert(init[j] == devices[j]);
                assert(earlier.contains(discover_response(devices[j], host)));
                let k = choose|k: int| 0 <= k < earlier.len() && earlier[k] == discover_response(devices[j], host);
                assert(r[k] == earlier[k]);
            } else {
                assert(r[r.len() - 1] == discover_response(devices[j], host));
            }
        }
    }
}

/// `reply` is the discovery reply of an enabled device of `devices` that
/// the requested id addresses.
pub open spec fn reply_of_enabled_device(
    devices: Seq<HdHomeRunDeviceConfig>,
    requested: Option<u32>,
    host: Seq<char>,
    reply: Seq<u8>,
) -> bool {
    exists|j: int|
        0 <= j < devices.len() && (#[trigger] devices[j]).t_enabled && spec_should_reply(
            requested,
            device_id_value(devices[j].device_id@),
        ) && reply == discover_response(devices[j], host)
}

/// Every discovery reply is the reply of an enabled device of the
/// configuration that the request asks for (no device id, the wildcard,
/// or its own id); a disabled device never answers. Conversely, for a
/// discovery request to an enabled configuration, every enabled device that
/// is asked for answers, and there are no more replies than devices.
pub proof fn law_replies_come_from_enabled_devices(data: Seq<u8>, config: HdHomeRunConfig, host: Seq<char>)
    ensures
        spec_discover_responses(data, config, host).len() <= config.devices@.len(),
        forall|i: int|
            0 <= i < spec_discover_responses(data, config, host).len() ==> reply_of_enabled_device(
                config.devices@,
                requested_device_id(tlv_map(data.skip(4))),
                host,
                #[trigger] spec_discover_responses(data, config, host)[i],
            ),
        data.len() >= 4 && message_type(data) == HDHOMERUN_TYPE_DISCOVER_REQ as nat && config.enabled
            ==> forall|j: int|
            0 <= j < config.devices@.len() && (#[trigger] config.devices@[j]).t_enabled && spec_should_reply(
                requested_device_id(tlv_map(data.skip(4))),
                device_id_value(config.devices@[j].device_id@),
            ) ==> spec_discover_responses(data, config, host).contains(
                discover_response(config.devices@[j], host),
            ),
{
    let req = requested_device_id(tlv_map(data.skip(4)));
    let ds = config.devices@;
    lemma_replies_from_enabled(ds, req, host);
    let out = spec_discover_responses(data, config, host);
    if data.len() >= 4 && message_type(data) == HDHOMERUN_TYPE_DISCOVER_REQ as nat && config.enabled {
        let reps = discover_replies(ds, req, host);
        assert(out == reps);
        assert forall|i: int| 0 <= i < out.len() implies reply_of_enabled_device(ds, req, host, #[trigger] out[i]) by {
            assert(out[i] == reps[i]);
        }
    } else {
        assert(out.len() == 0);
    }
}

} // verus!
