use gambito::model::{read_header, Cursor, ModelHeader};

fn header_bytes(fields: [u32; 5]) -> Vec<u8> {
    let mut data = b"CYW1".to_vec();
    for f in fields {
        data.extend_from_slice(&f.to_le_bytes());
    }
    data
}

#[test]
fn cursor_reads_little_endian() {
    let data = [1u8, 2, 3, 4, 0xff, 0, 0, 0];
    let mut cur = Cursor::new(&data);
    assert_eq!(cur.u32().unwrap(), 0x0403_0201);
    assert_eq!(cur.u32().unwrap(), 255);
    assert_eq!(cur.pos, 8);
    assert_eq!(cur.bytes(1).unwrap_err(), "model file truncated");
    assert_eq!(cur.pos, 8);
}

#[test]
fn cursor_hands_out_slices() {
    let data = [9u8, 8, 7];
    let mut cur = Cursor::new(&data);
    assert_eq!(cur.bytes(2).unwrap(), &[9, 8]);
    assert_eq!(cur.bytes(0).unwrap(), &[] as &[u8]);
    assert!(cur.bytes(2).is_err());
    assert_eq!(cur.bytes(1).unwrap(), &[7]);
}

#[test]
fn header_fields_in_order() {
    let data = header_bytes([64, 6, 32, 4, 128]);
    let mut cur = Cursor::new(&data);
    let h = read_header(&mut cur).unwrap();
    assert_eq!(
        h,
        ModelHeader { channels: 64, blocks: 6, policy_channels: 32, value_channels: 4, value_hidden: 128 }
    );
    assert_eq!(cur.pos, 24);
}

#[test]
fn header_refuses_other_files() {
    let mut data = header_bytes([1, 2, 3, 4, 5]);
    data[0] = b'X';
    assert_eq!(read_header(&mut Cursor::new(&data)).unwrap_err(), "bad magic: not a .cyw file");
    let short = header_bytes([1, 2, 3, 4, 5]);
    assert_eq!(read_header(&mut Cursor::new(&short[..10])).unwrap_err(), "model file truncated");
    assert_eq!(read_header(&mut Cursor::new(b"CY")).unwrap_err(), "model file truncated");
}
