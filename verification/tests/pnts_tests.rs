use lidar_tiles::pnts::{package_points, read_header};
use lidar_tiles::quadtree::Point;

fn pt_colored(x: i64, y: i64, z: i64, r: u16, g: u16, b: u16) -> Point {
    Point {
        morton: 0,
        x,
        y,
        z,
        r,
        g,
        b,
        classification: 0,
        is_edge_of_flight_line: false,
        is_synthetic: false,
        is_key_point: false,
        is_withheld: false,
        is_overlap: false,
    }
}

fn u32_at(data: &[u8], off: usize) -> u32 {
    u32::from_le_bytes([data[off], data[off + 1], data[off + 2], data[off + 3]])
}

/// One point, relative position (0,0,0), default yellow color.
#[test]
fn single_point_payload() {
    let points = vec![pt_colored(10, 20, 30, 0xffff, 0xffff, 0x0000)];
    let bits = vec![0.0f32.to_bits(), 0.0f32.to_bits(), 0.0f32.to_bits()];
    let rtc: Vec<u8> = b"[1.5,2.5,100.5]".to_vec();
    let out = package_points(&points, &bits, &rtc);

    // Header (28 bytes, little-endian).
    assert_eq!(&out[0..4], b"pnts");
    assert_eq!(u32_at(&out, 4), 1);
    let byte_length = u32_at(&out, 8) as usize;
    let ft_json_len = u32_at(&out, 12) as usize;
    let ft_bin_len = u32_at(&out, 16) as usize;
    assert_eq!(u32_at(&out, 20), 0);
    assert_eq!(u32_at(&out, 24), 0);

    // Header arithmetic.
    assert_eq!(byte_length, out.len());
    assert_eq!(byte_length, 28 + ft_json_len + ft_bin_len);

    // Alignment.
    assert_eq!((28 + ft_json_len) % 8, 0);
    assert_eq!(out.len() % 8, 0);

    // Feature-table JSON parses and carries the expected fields.
    let json_region = &out[28..28 + ft_json_len];
    let text = std::str::from_utf8(json_region).unwrap();
    let v: serde_json::Value = serde_json::from_str(text.trim_end()).unwrap();
    assert_eq!(v["POINTS_LENGTH"], 1);
    assert_eq!(v["POSITION"]["byteOffset"], 0);
    assert_eq!(v["RGB"]["byteOffset"], 12);
    assert_eq!(v["RTC_CENTER"][0], 1.5);
    assert_eq!(v["RTC_CENTER"][1], 2.5);
    assert_eq!(v["RTC_CENTER"][2], 100.5);

    // Round trip: positions then colors.
    let body = &out[28 + ft_json_len..];
    let x = f32::from_le_bytes([body[0], body[1], body[2], body[3]]);
    let y = f32::from_le_bytes([body[4], body[5], body[6], body[7]]);
    let z = f32::from_le_bytes([body[8], body[9], body[10], body[11]]);
    assert_eq!((x, y, z), (0.0, 0.0, 0.0));
    assert_eq!(&body[12..15], &[0xff, 0xff, 0x00]);
}

/// A feature-table JSON whose length lands exactly on the 8-byte boundary
/// gets no padding; one byte longer gets seven spaces.
#[test]
fn json_padding_edge_cases() {
    let points = vec![pt_colored(0, 0, 0, 0, 0, 0)];
    let bits = vec![0u32, 0, 0];

    // Skeleton for one point is 85 bytes; 28 + 85 + 15 = 128 = 16 * 8.
    let rtc15: Vec<u8> = b"[1.5,2.5,100.5]".to_vec();
    let out = package_points(&points, &bits, &rtc15);
    let ft_json_len = u32_at(&out, 12) as usize;
    assert_eq!(ft_json_len, 100);
    assert_eq!(out[28 + ft_json_len - 1], b'}');
    let expected = b"{\"POINTS_LENGTH\":1,\"RTC_CENTER\":[1.5,2.5,100.5],\"POSITION\":{\"byteOffset\":0},\"RGB\":{\"byteOffset\":12}}";
    assert_eq!(&out[28..28 + ft_json_len], &expected[..]);

    // One byte more of RTC_CENTER text: seven spaces of padding.
    let rtc16: Vec<u8> = b"[1.25,2.5,100.5]".to_vec();
    let out = package_points(&points, &bits, &rtc16);
    let ft_json_len = u32_at(&out, 12) as usize;
    assert_eq!(ft_json_len, 101 + 7);
    assert_eq!(&out[28 + 101..28 + 108], b"       ");
    assert_eq!((28 + ft_json_len) % 8, 0);
}

#[test]
fn empty_payload() {
    let points: Vec<Point> = vec![];
    let bits: Vec<u32> = vec![];
    let rtc: Vec<u8> = b"[0.0,0.0,0.0]".to_vec();
    let out = package_points(&points, &bits, &rtc);
    assert_eq!(&out[0..4], b"pnts");
    assert_eq!(u32_at(&out, 8) as usize, out.len());
    let ft_json_len = u32_at(&out, 12) as usize;
    let text = std::str::from_utf8(&out[28..28 + ft_json_len]).unwrap();
    let v: serde_json::Value = serde_json::from_str(text.trim_end()).unwrap();
    assert_eq!(v["POINTS_LENGTH"], 0);
    assert_eq!(v["RGB"]["byteOffset"], 0);
}

/// Two points: the color region sits right after 24 position bytes, and the
/// high byte of each 16-bit channel is emitted.
#[test]
fn two_point_colors_and_offsets() {
    let points = vec![
        pt_colored(0, 0, 0, 0x1200, 0x3400, 0x5600),
        pt_colored(1, 1, 1, 0xab00, 0xcd00, 0xef00),
    ];
    let bits = vec![
        (-0.5f32).to_bits(),
        0.0f32.to_bits(),
        0.0f32.to_bits(),
        0.5f32.to_bits(),
        0.0f32.to_bits(),
        0.0f32.to_bits(),
    ];
    let rtc: Vec<u8> = b"[0.5,0.0,0.0]".to_vec();
    let out = package_points(&points, &bits, &rtc);
    let ft_json_len = u32_at(&out, 12) as usize;
    let text = std::str::from_utf8(&out[28..28 + ft_json_len]).unwrap();
    let v: serde_json::Value = serde_json::from_str(text.trim_end()).unwrap();
    assert_eq!(v["POINTS_LENGTH"], 2);
    assert_eq!(v["RGB"]["byteOffset"], 24);
    let body = &out[28 + ft_json_len..];
    let x0 = f32::from_le_bytes([body[0], body[1], body[2], body[3]]);
    let x1 = f32::from_le_bytes([body[12], body[13], body[14], body[15]]);
    assert_eq!((x0, x1), (-0.5, 0.5));
    assert_eq!(&body[24..30], &[0x12, 0x34, 0x56, 0xab, 0xcd, 0xef]);
}

/// Multi-digit counts and offsets render correctly in the feature table.
#[test]
fn many_point_offsets() {
    let mut points = Vec::new();
    let mut bits = Vec::new();
    for i in 0..157i64 {
        points.push(pt_colored(i, i, i, 0xffff, 0xffff, 0));
        bits.extend_from_slice(&[0u32, 0, 0]);
    }
    let rtc: Vec<u8> = b"[0.0,0.0,0.0]".to_vec();
    let out = package_points(&points, &bits, &rtc);
    let ft_json_len = u32_at(&out, 12) as usize;
    let text = std::str::from_utf8(&out[28..28 + ft_json_len]).unwrap();
    let v: serde_json::Value = serde_json::from_str(text.trim_end()).unwrap();
    assert_eq!(v["POINTS_LENGTH"], 157);
    assert_eq!(v["RGB"]["byteOffset"], 12 * 157);
    assert_eq!(u32_at(&out, 8) as usize, out.len());
    assert_eq!(out.len() % 8, 0);
}

/// The emitted header reads back field by field, and its arithmetic holds.
#[test]
fn header_reads_back() {
    let points = vec![pt_colored(0, 0, 0, 0, 0, 0)];
    let bits = vec![0u32, 0, 0];
    let rtc: Vec<u8> = b"[9.5,8.5,7.5]".to_vec();
    let out = package_points(&points, &bits, &rtc);
    let h = read_header(&out).expect("a valid header");
    assert_eq!(h.magic, "pnts");
    assert_eq!(h.version, 1);
    assert_eq!(h.byte_length as usize, out.len());
    assert_eq!(
        h.byte_length,
        28 + h.feature_table_json_byte_length + h.feature_table_binary_byte_length
    );
    assert_eq!(h.batch_table_json_byte_length, 0);
    assert_eq!(h.batch_table_binary_byte_length, 0);

    // Not a .pnts file: no header.
    assert!(read_header(&b"nope".to_vec()).is_none());
    let mut bad = out.clone();
    bad[0] = b'q';
    assert!(read_header(&bad).is_none());
}

/// Re-packaging the same inputs gives byte-identical output.
#[test]
fn packaging_is_deterministic() {
    let points = vec![
        pt_colored(3, 4, 5, 0xffff, 0, 0),
        pt_colored(6, 7, 8, 0, 0xffff, 0),
    ];
    let bits = vec![1u32, 2, 3, 4, 5, 6];
    let rtc: Vec<u8> = b"[1.0,2.0,3.0]".to_vec();
    let a = package_points(&points, &bits, &rtc);
    let b = package_points(&points, &bits, &rtc);
    assert_eq!(a, b);
}
