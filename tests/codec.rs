use falcon_protocol::buffer::PacketBuffer;
use falcon_protocol::varint::{get_var_i32_size, get_var_i64_size, read_var_i32, read_var_i64, VarIntError};

fn var32(v: i32) -> Vec<u8> {
    let mut b = PacketBuffer::new();
    b.write_var_i32(v);
    b.into_bytes()
}

fn var64(v: i64) -> Vec<u8> {
    let mut b = PacketBuffer::new();
    b.write_var_i64(v);
    b.into_bytes()
}

#[test]
fn var_i32_known_encodings() {
    assert_eq!(var32(0), vec![0x00]);
    assert_eq!(var32(1), vec![0x01]);
    assert_eq!(var32(127), vec![0x7f]);
    assert_eq!(var32(128), vec![0x80, 0x01]);
    assert_eq!(var32(300), vec![0xac, 0x02]);
    assert_eq!(var32(2097151), vec![0xff, 0xff, 0x7f]);
    assert_eq!(var32(i32::MAX), vec![0xff, 0xff, 0xff, 0xff, 0x07]);
    assert_eq!(var32(-1), vec![0xff, 0xff, 0xff, 0xff, 0x0f]);
    assert_eq!(var32(i32::MIN), vec![0x80, 0x80, 0x80, 0x80, 0x08]);
}

#[test]
fn var_i64_known_encodings() {
    assert_eq!(var64(0), vec![0x00]);
    assert_eq!(var64(128), vec![0x80, 0x01]);
    assert_eq!(var64(-1), vec![0xff, 0xff, 0xff, 0xff, 0xff, 0xff, 0xff, 0xff, 0xff, 0x01]);
    assert_eq!(var64(i64::MAX).len(), 9);
}

#[test]
fn var_size_matches_written_length() {
    let values = [0, 1, 127, 128, 16383, 16384, 2097151, 2097152, i32::MAX, -1, i32::MIN, -300];
    for v in values {
        assert_eq!(get_var_i32_size(v), var32(v).len());
    }
    let values64 = [0i64, 127, 128, 1 << 35, i64::MAX, -1, i64::MIN];
    for v in values64 {
        assert_eq!(get_var_i64_size(v), var64(v).len());
    }
    assert_eq!(get_var_i32_size(0), 1);
    assert_eq!(get_var_i32_size(128), 2);
    assert_eq!(get_var_i32_size(-1), 5);
    assert_eq!(get_var_i64_size(-1), 10);
}

#[test]
fn var_round_trip() {
    let values = [0, 1, 127, 128, 255, 300, 25565, 2097151, i32::MAX, -1, -2, i32::MIN];
    for v in values {
        let mut bytes = var32(v);
        let n = bytes.len();
        bytes.push(0x99);
        assert_eq!(read_var_i32(&bytes, 0), Ok((v, n)));
    }
    let values64 = [0i64, 1, 128, 1 << 40, i64::MAX, -1, i64::MIN];
    for v in values64 {
        let bytes = var64(v);
        assert_eq!(read_var_i64(&bytes, 0), Ok((v, bytes.len())));
    }
}

#[test]
fn var_read_at_offset() {
    let bytes = vec![0x05, 0xac, 0x02, 0x00];
    assert_eq!(read_var_i32(&bytes, 1), Ok((300, 2)));
    assert_eq!(read_var_i32(&bytes, 3), Ok((0, 1)));
}

#[test]
fn var_too_many_continuation_bytes() {
    let bytes = vec![0x80, 0x80, 0x80, 0x80, 0x80, 0x01];
    assert_eq!(read_var_i32(&bytes, 0), Err(VarIntError::MalformedVarInt));
    let bytes = vec![0xff; 11];
    assert_eq!(read_var_i64(&bytes, 0), Err(VarIntError::MalformedVarInt));
    // Nine continuation bytes and a terminator still fit a 64-bit value.
    let mut ok = vec![0x80; 9];
    ok.push(0x01);
    assert_eq!(read_var_i64(&ok, 0), Ok((i64::MIN, 10)));
}

#[test]
fn var_input_ends_early() {
    assert_eq!(read_var_i32(&[0x80, 0x80], 0), Err(VarIntError::UnexpectedEnd));
    assert_eq!(read_var_i32(&[], 0), Err(VarIntError::UnexpectedEnd));
}

#[test]
fn scalar_writers_are_big_endian() {
    let mut b = PacketBuffer::new();
    b.write_i32(0x01020304);
    b.write_i32(-2);
    b.write_i64(0x0102030405060708);
    b.write_bool(true);
    b.write_bool(false);
    b.write_u8(0xab);
    assert_eq!(
        b.into_bytes(),
        vec![1, 2, 3, 4, 0xff, 0xff, 0xff, 0xfe, 1, 2, 3, 4, 5, 6, 7, 8, 1, 0, 0xab]
    );
}
