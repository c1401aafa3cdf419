use vstd::prelude::*;
use crate::quadtree::Point;

verus! {

// ---------------------------------------------------------------------------
// Little-endian 32-bit words
// ---------------------------------------------------------------------------

/// The four little-endian bytes of a 32-bit word.
pub open spec fn u32_le_bytes(v: u32) -> Seq<u8> {
    seq![
        (v % 256) as u8,
        ((v / 256) % 256) as u8,
        ((v / 65536) % 256) as u8,
        ((v / 16777216) % 256) as u8,
    ]
}

/// The value read back from four little-endian bytes.
pub open spec fn u32_from_le(b: Seq<u8>) -> int {
    b[0] + b[1] * 256 + b[2] * 65536 + b[3] * 16777216
}

/// Reading back the four little-endian bytes of a word gives the word.
pub proof fn lemma_u32_le_round_trip(v: u32)
    ensures
        u32_from_le(u32_le_bytes(v)) == v,
{
}

fn push_u32_le(out: &mut Vec<u8>, v: u32)
    ensures
        final(out)@ == old(out)@ + u32_le_bytes(v),
{
    out.push((v % 256) as u8);
    out.push(((v / 256) % 256) as u8);
    out.push(((v / 65536) % 256) as u8);
    out.push(((v / 16777216) % 256) as u8);
    proof {
        assert(out@ =~= old(out)@ + u32_le_bytes(v));
    }
}

// ---------------------------------------------------------------------------
// Decimal rendering of the integers embedded in the feature-table JSON
// ---------------------------------------------------------------------------

/// The ASCII decimal digits of a non-negative integer, most significant
/// first.
pub open spec fn dec_digits(n: int) -> Seq<u8>
    decreases n,
{
    if n < 10 {
        seq![(48 + n) as u8]
    } else {
        dec_digits(n / 10).push((48 + n % 10) as u8)
    }
}

pub open spec fn pow10(k: nat) -> int
    decreases k,
{
    if k == 0 {
        1
    } else {
        10 * pow10((k - 1) as nat)
    }
}

/// A number below `10^k` renders to at most `k` digits (and at least one).
pub proof fn lemma_dec_digits_len(n: int, k: nat)
    requires
        0 <= n,
        k >= 1,
        n < pow10(k),
    ensures
        1 <= dec_digits(n).len() <= k,
    decreases n,
{
    if n >= 10 {
        assert(pow10(k) == 10 * pow10((k - 1) as nat));
        lemma_dec_digits_len(n / 10, (k - 1) as nat);
    }
}

/// Any `u32` renders to at most ten digits.
pub proof fn lemma_dec_digits_len_u32(n: int)
    requires
        0 <= n <= u32::MAX,
    ensures
        1 <= dec_digits(n).len() <= 10,
{
    reveal_with_fuel(pow10, 11);
    assert(pow10(10) == 10000000000);
    lemma_dec_digits_len(n, 10);
}

fn push_decimal(out: &mut Vec<u8>, n: u32)
    ensures
        final(out)@ == old(out)@ + dec_digits(n as int),
    decreases n,
{
    if n < 10 {
        out.push(48 + n as u8);
        proof {
            assert(out@ =~= old(out)@ + dec_digits(n as int));
        }
    } else {
        push_decimal(out, n / 10);
        out.push(48 + (n % 10) as u8);
        proof {
            assert(out@ =~= old(out)@ + dec_digits(n as int));
        }
    }
}

// ---------------------------------------------------------------------------
// Padding
// ---------------------------------------------------------------------------

/// The number of pad bytes that brings `28 + len` up to a multiple of 8.
pub open spec fn pad8(len: int) -> int {
    (8 - (28 + len) % 8) % 8
}

/// `n` ASCII spaces.
pub open spec fn spaces(n: int) -> Seq<u8> {
    Seq::new(n as nat, |i: int| 32u8)
}

/// `n` zero bytes.
pub open spec fn zeros(n: int) -> Seq<u8> {
    Seq::new(n as nat, |i: int| 0u8)
}

/// Padding brings the 28-byte header plus the padded region to an 8-byte
/// boundary.
pub proof fn lemma_pad8_aligns(len: int)
    requires
        len >= 0,
    ensures
        0 <= pad8(len) < 8,
        (28 + len + pad8(len)) % 8 == 0,
{
}

/// Pads with `fill` so that 28 + the vector's length is a multiple of 8.
fn pad_to_boundary(out: &mut Vec<u8>, fill: u8)
    requires
        old(out)@.len() <= 0xFFFF_F000,
    ensures
        final(out)@ == old(out)@ + Seq::new(pad8(old(out)@.len() as int) as nat, |i: int| fill),
{
    let pad: usize = (8 - (28 + out.len()) % 8) % 8;
    let mut i: usize = 0;
    while i < pad
        invariant
            pad == pad8(old(out)@.len() as int),
            0 <= i <= pad,
            out@ == old(out)@ + Seq::new(i as nat, |j: int| fill),
        decreases pad - i,
    {
        out.push(fill);
        i = i + 1;
        proof {
            assert(out@ =~= old(out)@ + Seq::new(i as nat, |j: int| fill));
        }
    }
}

// ---------------------------------------------------------------------------
// The feature-table JSON
//
// The JSON text is assembled byte by byte; the fixed skeleton pieces are
// spelled out as ASCII codes so that every byte of the output is pinned.
// ---------------------------------------------------------------------------

/// The bytes of `{"POINTS_LENGTH":`.
pub open spec fn ftj_points_length_key() -> Seq<u8> {
    seq![123u8, 34, 80, 79, 73, 78, 84, 83, 95, 76, 69, 78, 71, 84, 72, 34, 58]
}

/// The bytes of `,"RTC_CENTER":`.
pub open spec fn ftj_rtc_center_key() -> Seq<u8> {
    seq![44u8, 34, 82, 84, 67, 95, 67, 69, 78, 84, 69, 82, 34, 58]
}

/// The bytes of `,"POSITION":{"byteOffset":`.
pub open spec fn ftj_position_key() -> Seq<u8> {
    seq![44u8, 34, 80, 79, 83, 73, 84, 73, 79, 78, 34, 58, 123, 34, 98, 121, 116, 101, 79, 102, 102, 115, 101, 116, 34, 58]
}

/// The bytes of `},"RGB":{"byteOffset":`.
pub open spec fn ftj_rgb_key() -> Seq<u8> {
    seq![125u8, 44, 34, 82, 71, 66, 34, 58, 123, 34, 98, 121, 116, 101, 79, 102, 102, 115, 101, 116, 34, 58]
}

/// The bytes of `}}`.
pub open spec fn ftj_close() -> Seq<u8> {
    seq![125u8, 125]
}

/// The unpadded feature-table JSON text:
/// `{"POINTS_LENGTH":<k>,"RTC_CENTER":<rtc>,"POSITION":{"byteOffset":<p>},"RGB":{"byteOffset":<r>}}`.
/// `rtc` is the already-rendered JSON array of the three `RTC_CENTER`
/// components.
pub open spec fn ft_json_bytes(k: int, rtc: Seq<u8>, pos_off: int, rgb_off: int) -> Seq<u8> {
    ftj_points_length_key() + dec_digits(k)
        + ftj_rtc_center_key() + rtc
        + ftj_position_key() + dec_digits(pos_off)
        + ftj_rgb_key() + dec_digits(rgb_off)
        + ftj_close()
}

/// The fields of the 28-byte `.pnts` header: magic, version, total file
/// length, feature-table JSON length, feature-table binary length, and the
/// two (always zero) batch-table lengths.
pub struct Header {
    pub magic: &'static str,
    pub version: u32,
    pub byte_length: u32,
    pub feature_table_json_byte_length: u32,
    pub feature_table_binary_byte_length: u32,
    pub batch_table_json_byte_length: u32,
    pub batch_table_binary_byte_length: u32,
}

/// A feature-table attribute reference: a byte offset into the
/// feature-table binary body.
pub struct AttributePosition {
    pub byte_offset: u32,
}

/// The feature-table JSON fields: the point count, the rendered
/// `RTC_CENTER` array, and the offsets of the position and color
/// attributes.
pub struct FeatureTableHeader {
    pub points_length: u32,
    pub rtc_center: Vec<u8>,
    pub position: AttributePosition,
    pub rgb: AttributePosition,
}

/// Renders the feature-table JSON text for the given fields.
pub fn feature_table_json(h: &FeatureTableHeader) -> (out: Vec<u8>)
    ensures
        out@ == ft_json_bytes(
            h.points_length as int,
            h.rtc_center@,
            h.position.byte_offset as int,
            h.rgb.byte_offset as int,
        ),
{
    let mut out: Vec<u8> = Vec::new();
    push_ftj_points_length_key(&mut out);
    push_decimal(&mut out, h.points_length);
    push_ftj_rtc_center_key(&mut out);
    let mut i: usize = 0;
    let ghost mid = out@;
    while i < h.rtc_center.len()
        invariant
            0 <= i <= h.rtc_center@.len(),
            out@ == mid + h.rtc_center@.take(i as int),
        decreases h.rtc_center@.len() - i,
    {
        let b = h.rtc_center[i];
        out.push(b);
        i = i + 1;
        proof {
            assert(h.rtc_center@.take(i as int) =~= h.rtc_center@.take(i - 1).push(h.rtc_center@[i - 1]));
            assert(out@ =~= mid + h.rtc_center@.take(i as int));
        }
    }
    proof {
        assert(h.rtc_center@.take(h.rtc_center@.len() as int) =~= h.rtc_center@);
    }
    push_ftj_position_key(&mut out);
    push_decimal(&mut out, h.position.byte_offset);
    push_ftj_rgb_key(&mut out);
    push_decimal(&mut out, h.rgb.byte_offset);
    out.push(125);
    out.push(125);
    proof {
        assert(out@ =~= ft_json_bytes(
            h.points_length as int,
            h.rtc_center@,
            h.position.byte_offset as int,
            h.rgb.byte_offset as int,
        ));
    }
    out
}

fn push_ftj_points_length_key(out: &mut Vec<u8>)
    ensures
        final(out)@ == old(out)@ + ftj_points_length_key(),
{
    out.push(123);
    out.push(34);
    out.push(80);
    out.push(79);
    out.push(73);
    out.push(78);
    out.push(84);
    out.push(83);
    out.push(95);
    out.push(76);
    out.push(69);
    out.push(78);
    out.push(71);
    out.push(84);
    out.push(72);
    out.push(34);
    out.push(58);
    proof {
        assert(out@ =~= old(out)@ + ftj_points_length_key());
    }
}

fn push_ftj_rtc_center_key(out: &mut Vec<u8>)
    ensures
        final(out)@ == old(out)@ + ftj_rtc_center_key(),
{
    out.push(44);
    out.push(34);
    out.push(82);
    out.push(84);
    out.push(67);
    out.push(95);
    out.push(67);
    out.push(69);
    out.push(78);
    out.push(84);
    out.push(69);
    out.push(82);
    out.push(34);
    out.push(58);
    proof {
        assert(out@ =~= old(out)@ + ftj_rtc_center_key());
    }
}

fn push_ftj_position_key(out: &mut Vec<u8>)
    ensures
        final(out)@ == old(out)@ + ftj_position_key(),
{
    out.push(44);
    out.push(34);
    out.push(80);
    out.push(79);
    out.push(83);
    out.push(73);
    out.push(84);
    out.push(73);
    out.push(79);
    out.push(78);
    out.push(34);
    out.push(58);
    out.push(123);
    out.push(34);
    out.push(98);
    out.push(121);
    out.push(116);
    out.push(101);
    out.push(79);
    out.push(102);
    out.push(102);
    out.push(115);
    out.push(101);
    out.push(116);
    out.push(34);
    out.push(58);
    proof {
        assert(out@ =~= old(out)@ + ftj_position_key());
    }
}

fn push_ftj_rgb_key(out: &mut Vec<u8>)
    ensures
        final(out)@ == old(out)@ + ftj_rgb_key(),
{
    out.push(125);
    out.push(44);
    out.push(34);
    out.push(82);
    out.push(71);
    out.push(66);
    out.push(34);
    out.push(58);
    out.push(123);
    out.push(34);
    out.push(98);
    out.push(121);
    out.push(116);
    out.push(101);
    out.push(79);
    out.push(102);
    out.push(102);
    out.push(115);
    out.push(101);
    out.push(116);
    out.push(34);
    out.push(58);
    proof {
        assert(out@ =~= old(out)@ + ftj_rgb_key());
    }
}

// ---------------------------------------------------------------------------
// The feature-table binary body
// ---------------------------------------------------------------------------

/// The position region: each 32-bit word (a single-precision coordinate
/// component, x y z per point, relative to the tile center) in little-endian
/// order.
pub open spec fn positions_bytes(bits: Seq<u32>) -> Seq<u8>
    decreases bits.len(),
{
    if bits.len() == 0 {
        Seq::empty()
    } else {
        positions_bytes(bits.drop_last()) + u32_le_bytes(bits.last())
    }
}

pub proof fn lemma_positions_bytes_len(bits: Seq<u32>)
    ensures
        positions_bytes(bits).len() == 4 * bits.len(),
    decreases bits.len(),
{
    if bits.len() > 0 {
        lemma_positions_bytes_len(bits.drop_last());
    }
}

/// Each word can be read back from its four bytes of the position region.
pub proof fn lemma_positions_bytes_index(bits: Seq<u32>, i: int)
    requires
        0 <= i < bits.len(),
    ensures
        positions_bytes(bits).subrange(4 * i, 4 * i + 4) == u32_le_bytes(bits[i]),
    decreases bits.len(),
{
    lemma_positions_bytes_len(bits);
    if i == bits.len() - 1 {
        lemma_positions_bytes_len(bits.drop_last());
        assert(positions_bytes(bits).subrange(4 * i, 4 * i + 4) =~= u32_le_bytes(bits.last()));
    } else {
        lemma_positions_bytes_index(bits.drop_last(), i);
        lemma_positions_bytes_len(bits.drop_last());
        assert(bits.drop_last()[i] == bits[i]);
        assert(positions_bytes(bits).subrange(4 * i, 4 * i + 4)
            =~= positions_bytes(bits.drop_last()).subrange(4 * i, 4 * i + 4));
    }
}

/// The color region: the high byte of each 16-bit channel, r g b per point.
pub open spec fn colors_bytes(points: Seq<Point>) -> Seq<u8>
    decreases points.len(),
{
    if points.len() == 0 {
        Seq::empty()
    } else {
        colors_bytes(points.drop_last()) + color_triple(points.last())
    }
}

pub open spec fn color_triple(p: Point) -> Seq<u8> {
    seq![(p.r / 256) as u8, (p.g / 256) as u8, (p.b / 256) as u8]
}

pub proof fn lemma_colors_bytes_len(points: Seq<Point>)
    ensures
        colors_bytes(points).len() == 3 * points.len(),
    decreases points.len(),
{
    if points.len() > 0 {
        lemma_colors_bytes_len(points.drop_last());
    }
}

/// Each point's color triple can be read back from the color region.
pub proof fn lemma_colors_bytes_index(points: Seq<Point>, i: int)
    requires
        0 <= i < points.len(),
    ensures
        colors_bytes(points).subrange(3 * i, 3 * i + 3) == color_triple(points[i]),
    decreases points.len(),
{
    lemma_colors_bytes_len(points);
    if i == points.len() - 1 {
        lemma_colors_bytes_len(points.drop_last());
        assert(colors_bytes(points).subrange(3 * i, 3 * i + 3) =~= color_triple(points.last()));
    } else {
        lemma_colors_bytes_index(points.drop_last(), i);
        lemma_colors_bytes_len(points.drop_last());
        assert(points.drop_last()[i] == points[i]);
        assert(colors_bytes(points).subrange(3 * i, 3 * i + 3)
            =~= colors_bytes(points.drop_last()).subrange(3 * i, 3 * i + 3));
    }
}

// ---------------------------------------------------------------------------
// The whole `.pnts` file
// ---------------------------------------------------------------------------

/// The feature-table JSON for `k` points, space-padded so that the 28-byte
/// header plus the JSON region ends on an 8-byte boundary. The position
/// attribute sits at offset 0 of the binary body, the colors right after
/// the `12 * k` position bytes.
pub open spec fn pnts_json_padded(k: int, rtc: Seq<u8>) -> Seq<u8> {
    let j = ft_json_bytes(k, rtc, 0, 12 * k);
    j + spaces(pad8(j.len() as int))
}

/// The feature table: padded JSON, position bytes, color bytes, zero-padded
/// so that the whole file ends on an 8-byte boundary.
pub open spec fn pnts_body(points: Seq<Point>, bits: Seq<u32>, rtc: Seq<u8>) -> Seq<u8> {
    let b0 = pnts_json_padded(points.len() as int, rtc) + positions_bytes(bits) + colors_bytes(points);
    b0 + zeros(pad8(b0.len() as int))
}

/// The 28 header bytes: `"pnts"`, version 1, total file length, feature-table
/// JSON length, feature-table binary length, and zero batch-table lengths,
/// each little-endian.
pub open spec fn pnts_header_bytes(body_len: int, json_len: int) -> Seq<u8> {
    seq![112u8, 110, 116, 115]
        + u32_le_bytes(1)
        + u32_le_bytes((28 + body_len) as u32)
        + u32_le_bytes(json_len as u32)
        + u32_le_bytes((body_len - json_len) as u32)
        + u32_le_bytes(0)
        + u32_le_bytes(0)
}

/// A complete `.pnts` file for the given points, position words and
/// rendered `RTC_CENTER` array.
pub open spec fn pnts_bytes(points: Seq<Point>, bits: Seq<u32>, rtc: Seq<u8>) -> Seq<u8> {
    let jp = pnts_json_padded(points.len() as int, rtc);
    let body = pnts_body(points, bits, rtc);
    pnts_header_bytes(body.len() as int, jp.len() as int) + body
}

/// Serializes one quadtree node's payload: `points` are the node's stored
/// points (for the colors and the count), `position_bits` the three
/// single-precision words per point (coordinates relative to the node
/// center, in storage order), and `rtc_center_json` the rendered JSON array
/// of the three center components. The point cap is what the header's
/// 32-bit `byteLength` can carry at fifteen payload bytes per point.
pub fn package_points(points: &Vec<Point>, position_bits: &Vec<u32>, rtc_center_json: &Vec<u8>) -> (out: Vec<u8>)
    requires
        position_bits@.len() == 3 * points@.len(),
        points@.len() <= 0x0FFF_FFFF,
        rtc_center_json@.len() <= 4096,
    ensures
        out@ == pnts_bytes(points@, position_bits@, rtc_center_json@),
{
    let k: u32 = points.len() as u32;
    let rgb_offset: u32 = k * 12;
    proof {
        lemma_dec_digits_len_u32(k as int);
        lemma_dec_digits_len_u32(rgb_offset as int);
        lemma_dec_digits_len_u32(0);
        lemma_positions_bytes_len(position_bits@);
        lemma_colors_bytes_len(points@);
    }
    let mut rtc: Vec<u8> = Vec::new();
    let mut ri: usize = 0;
    while ri < rtc_center_json.len()
        invariant
            0 <= ri <= rtc_center_json@.len(),
            rtc@ == rtc_center_json@.take(ri as int),
        decreases rtc_center_json@.len() - ri,
    {
        let b = rtc_center_json[ri];
        rtc.push(b);
        ri = ri + 1;
        proof {
            assert(rtc@ =~= rtc_center_json@.take(ri as int));
        }
    }
    proof {
        assert(rtc@ =~= rtc_center_json@);
    }
    let feature_table_header = FeatureTableHeader {
        points_length: k,
        rtc_center: rtc,
        position: AttributePosition { byte_offset: 0 },
        rgb: AttributePosition { byte_offset: rgb_offset },
    };
    let mut feature_table_bytes = feature_table_json(&feature_table_header);
    pad_to_boundary(&mut feature_table_bytes, 0x20);
    let feature_table_json_byte_length: usize = feature_table_bytes.len();
    let ghost jp = feature_table_bytes@;
    proof {
        assert(jp =~= pnts_json_padded(points@.len() as int, rtc_center_json@));
    }

    let mut i: usize = 0;
    while i < position_bits.len()
        invariant
            0 <= i <= position_bits@.len(),
            feature_table_bytes@ == jp + positions_bytes(position_bits@.take(i as int)),
        decreases position_bits@.len() - i,
    {
        let w = position_bits[i];
        push_u32_le(&mut feature_table_bytes, w);
        i = i + 1;
        proof {
            assert(position_bits@.take(i as int).drop_last() =~= position_bits@.take(i - 1));
            assert(feature_table_bytes@ =~= jp + positions_bytes(position_bits@.take(i as int)));
        }
    }
    proof {
        assert(position_bits@.take(position_bits@.len() as int) =~= position_bits@);
    }

    let mut j: usize = 0;
    while j < points.len()
        invariant
            0 <= j <= points@.len(),
            feature_table_bytes@ == jp + positions_bytes(position_bits@)
                + colors_bytes(points@.take(j as int)),
        decreases points@.len() - j,
    {
        let p = points[j];
        feature_table_bytes.push((p.r / 256) as u8);
        feature_table_bytes.push((p.g / 256) as u8);
        feature_table_bytes.push((p.b / 256) as u8);
        j = j + 1;
        proof {
            assert(points@.take(j as int).drop_last() =~= points@.take(j - 1));
            assert(feature_table_bytes@ =~= jp + positions_bytes(position_bits@)
                + colors_bytes(points@.take(j as int)));
        }
    }
    proof {
        assert(points@.take(points@.len() as int) =~= points@);
        lemma_dec_digits_len_u32(k as int);
    }
    pad_to_boundary(&mut feature_table_bytes, 0x00);
    proof {
        assert(feature_table_bytes@ =~= pnts_body(points@, position_bits@, rtc_center_json@));
    }

    let header = Header {
        magic: "pnts",
        version: 1,
        byte_length: 28 + feature_table_bytes.len() as u32,
        feature_table_json_byte_length: feature_table_json_byte_length as u32,
        feature_table_binary_byte_length: (feature_table_bytes.len() - feature_table_json_byte_length) as u32,
        batch_table_json_byte_length: 0,
        batch_table_binary_byte_length: 0,
    };
    let mut out: Vec<u8> = Vec::new();
    out.push(112);
    out.push(110);
    out.push(116);
    out.push(115);
    push_u32_le(&mut out, header.version);
    push_u32_le(&mut out, header.byte_length);
    push_u32_le(&mut out, header.feature_table_json_byte_length);
    push_u32_le(&mut out, header.feature_table_binary_byte_length);
    push_u32_le(&mut out, header.batch_table_json_byte_length);
    push_u32_le(&mut out, header.batch_table_binary_byte_length);
    proof {
        assert(out@ =~= pnts_header_bytes(
            feature_table_bytes@.len() as int,
            jp.len() as int,
        ));
    }
    out.append(&mut feature_table_bytes);
    proof {
        assert(out@ =~= pnts_bytes(points@, position_bits@, rtc_center_json@));
    }
    out
}

fn read_u32_le(data: &Vec<u8>, off: usize) -> (v: u32)
    requires
        off + 4 <= data@.len(),
        off + 4 <= usize::MAX,
    ensures
        v == u32_from_le(data@.subrange(off as int, off as int + 4)),
{
    let v = data[off] as u32
        + data[off + 1] as u32 * 256
        + data[off + 2] as u32 * 65536
        + data[off + 3] as u32 * 16777216;
    proof {
        let b = data@.subrange(off as int, off as int + 4);
        assert(b[0] == data@[off as int] && b[1] == data@[off as int + 1]
            && b[2] == data@[off as int + 2] && b[3] == data@[off as int + 3]);
    }
    v
}

/// Reads a `.pnts` header back from raw bytes: present exactly when the
/// data holds at least 28 bytes and starts with the `"pnts"` magic and
/// version 1; the length fields are then the stored little-endian words.
pub fn read_header(data: &Vec<u8>) -> (h: Option<Header>)
    ensures
        match h {
            Option::Some(hh) => {
                &&& data@.len() >= 28
                &&& data@.subrange(0, 4) == seq![112u8, 110, 116, 115]
                &&& hh.magic@ == "pnts"@
                &&& hh.version == 1
                &&& u32_from_le(data@.subrange(4, 8)) == 1
                &&& hh.byte_length == u32_from_le(data@.subrange(8, 12))
                &&& hh.feature_table_json_byte_length == u32_from_le(data@.subrange(12, 16))
                &&& hh.feature_table_binary_byte_length == u32_from_le(data@.subrange(16, 20))
                &&& hh.batch_table_json_byte_length == u32_from_le(data@.subrange(20, 24))
                &&& hh.batch_table_binary_byte_length == u32_from_le(data@.subrange(24, 28))
            },
            Option::None => {
                ||| data@.len() < 28
                ||| data@.subrange(0, 4) != seq![112u8, 110, 116, 115]
                ||| u32_from_le(data@.subrange(4, 8)) != 1
            },
        },
{
    if data.len() < 28 {
        return Option::None;
    }
    proof {
        let m = data@.subrange(0, 4);
        assert(m[0] == data@[0] && m[1] == data@[1] && m[2] == data@[2] && m[3] == data@[3]);
        assert(seq![112u8, 110, 116, 115][0] == 112u8);
    }
    if !(data[0] == 112 && data[1] == 110 && data[2] == 116 && data[3] == 115) {
        return Option::None;
    }
    proof {
        assert(data@.subrange(0, 4) =~= seq![112u8, 110, 116, 115]);
    }
    let version = read_u32_le(data, 4);
    if version != 1 {
        return Option::None;
    }
    Option::Some(Header {
        magic: "pnts",
        version,
        byte_length: read_u32_le(data, 8),
        feature_table_json_byte_length: read_u32_le(data, 12),
        feature_table_binary_byte_length: read_u32_le(data, 16),
        batch_table_json_byte_length: read_u32_le(data, 20),
        batch_table_binary_byte_length: read_u32_le(data, 24),
    })
}

// ---------------------------------------------------------------------------
// Laws of the file layout
// ---------------------------------------------------------------------------

/// The exact lengths of the regions of a `.pnts` file, and that they fit in
/// the header's 32-bit fields.
pub proof fn lemma_pnts_lens(points: Seq<Point>, bits: Seq<u32>, rtc: Seq<u8>)
    requires
        bits.len() == 3 * points.len(),
        points.len() <= 0x0FFF_FFFF,
        rtc.len() <= 4096,
    ensures
        ({
            let j = ft_json_bytes(points.len() as int, rtc, 0, 12 * points.len() as int);
            let jp = pnts_json_padded(points.len() as int, rtc);
            let body = pnts_body(points, bits, rtc);
            &&& jp.len() == j.len() + pad8(j.len() as int)
            &&& body.len() == jp.len() + 4 * bits.len() + 3 * points.len()
                + pad8((jp.len() + 4 * bits.len() + 3 * points.len()) as int)
            &&& j.len() <= 4200
            &&& 28 + body.len() <= u32::MAX
            &&& pnts_bytes(points, bits, rtc).len() == 28 + body.len()
        }),
{
    let k = points.len() as int;
    let j = ft_json_bytes(k, rtc, 0, 12 * k);
    lemma_dec_digits_len_u32(k);
    lemma_dec_digits_len_u32(0);
    lemma_dec_digits_len_u32(12 * k);
    lemma_positions_bytes_len(bits);
    lemma_colors_bytes_len(points);
    lemma_pad8_aligns(j.len() as int);
    let jp = pnts_json_padded(k, rtc);
    let b0 = jp + positions_bytes(bits) + colors_bytes(points);
    lemma_pad8_aligns(b0.len() as int);
}

/// Header alignment: the header plus the padded feature-table JSON, and the
/// header plus the whole feature table, both end on 8-byte boundaries — so
/// the whole file's length is a multiple of 8.
pub proof fn lemma_pnts_alignment(points: Seq<Point>, bits: Seq<u32>, rtc: Seq<u8>)
    requires
        bits.len() == 3 * points.len(),
        points.len() <= 0x0FFF_FFFF,
        rtc.len() <= 4096,
    ensures
        (28 + pnts_json_padded(points.len() as int, rtc).len()) % 8 == 0,
        (28 + pnts_body(points, bits, rtc).len()) % 8 == 0,
        pnts_bytes(points, bits, rtc).len() % 8 == 0,
{
    let k = points.len() as int;
    let j = ft_json_bytes(k, rtc, 0, 12 * k);
    lemma_pnts_lens(points, bits, rtc);
    lemma_pad8_aligns(j.len() as int);
    let jp = pnts_json_padded(k, rtc);
    let b0 = jp + positions_bytes(bits) + colors_bytes(points);
    lemma_pad8_aligns(b0.len() as int);
}

/// Header arithmetic: the `byteLength` field reads back as the whole file's
/// length, which is 28 plus the two feature-table lengths, and the binary
/// length is the body length minus the JSON length.
pub proof fn lemma_pnts_header_arithmetic(points: Seq<Point>, bits: Seq<u32>, rtc: Seq<u8>)
    requires
        bits.len() == 3 * points.len(),
        points.len() <= 0x0FFF_FFFF,
        rtc.len() <= 4096,
    ensures
        ({
            let f = pnts_bytes(points, bits, rtc);
            let json_len = pnts_json_padded(points.len() as int, rtc).len() as int;
            let body_len = pnts_body(points, bits, rtc).len() as int;
            &&& u32_from_le(f.subrange(8, 12)) == f.len()
            &&& u32_from_le(f.subrange(12, 16)) == json_len
            &&& u32_from_le(f.subrange(16, 20)) == body_len - json_len
            &&& u32_from_le(f.subrange(8, 12))
                == 28 + u32_from_le(f.subrange(12, 16)) + u32_from_le(f.subrange(16, 20))
        }),
{
    let f = pnts_bytes(points, bits, rtc);
    let jp = pnts_json_padded(points.len() as int, rtc);
    let body = pnts_body(points, bits, rtc);
    lemma_pnts_lens(points, bits, rtc);
    assert(f.subrange(8, 12) =~= u32_le_bytes((28 + body.len() as int) as u32));
    assert(f.subrange(12, 16) =~= u32_le_bytes(jp.len() as u32));
    assert(f.subrange(16, 20) =~= u32_le_bytes((body.len() - jp.len()) as u32));
    lemma_u32_le_round_trip((28 + body.len() as int) as u32);
    lemma_u32_le_round_trip(jp.len() as u32);
    lemma_u32_le_round_trip((body.len() - jp.len()) as u32);
}

/// Round trip: the emitted file decomposes back into the padded JSON, the
/// position words and the color triples that were written. Together with
/// `lemma_positions_bytes_index`, `lemma_colors_bytes_index` and
/// `lemma_u32_le_round_trip`, every written word and color can be read back
/// from the file.
pub proof fn lemma_pnts_round_trip(points: Seq<Point>, bits: Seq<u32>, rtc: Seq<u8>)
    requires
        bits.len() == 3 * points.len(),
        points.len() <= 0x0FFF_FFFF,
        rtc.len() <= 4096,
    ensures
        ({
            let f = pnts_bytes(points, bits, rtc);
            let jl = pnts_json_padded(points.len() as int, rtc).len() as int;
            &&& f.subrange(28, 28 + jl) == pnts_json_padded(points.len() as int, rtc)
            &&& f.subrange(28 + jl, 28 + jl + 4 * bits.len()) == positions_bytes(bits)
            &&& f.subrange(
                28 + jl + 4 * bits.len(),
                28 + jl + 4 * bits.len() + 3 * points.len(),
            ) == colors_bytes(points)
        }),
{
    let f = pnts_bytes(points, bits, rtc);
    let jp = pnts_json_padded(points.len() as int, rtc);
    let jl = jp.len() as int;
    lemma_pnts_lens(points, bits, rtc);
    lemma_positions_bytes_len(bits);
    lemma_colors_bytes_len(points);
    assert(f.subrange(28, 28 + jl) =~= jp);
    assert(f.subrange(28 + jl, 28 + jl + 4 * bits.len()) =~= positions_bytes(bits));
    assert(f.subrange(
        28 + jl + 4 * bits.len(),
        28 + jl + 4 * bits.len() + 3 * points.len(),
    ) =~= colors_bytes(points));
}

} // verus!
