use ywpm::outcome::ActionSuccess;
use ywpm::warning::Warning;
use ywpm::wire::{
    read_response, read_size, read_string, read_string_vec, read_u8, write_error, write_ok,
    write_size, write_string, write_string_vec, ByteReader, ReadError,
};

fn strings(v: &[&str]) -> Vec<String> {
    v.iter().map(|s| s.to_string()).collect()
}

#[test]
fn size_is_eight_big_endian_bytes() {
    let mut out = Vec::new();
    write_size(&mut out, 0x0102030405060708);
    assert_eq!(out, vec![1, 2, 3, 4, 5, 6, 7, 8]);
    let mut r = ByteReader::new(out);
    assert_eq!(read_size(&mut r).unwrap(), 0x0102030405060708);
    assert_eq!(r.remaining_len(), 0);
}

#[test]
fn string_roundtrip_with_unicode() {
    let mut out = Vec::new();
    write_string(&mut out, "Обои: 'a.png'");
    let mut r = ByteReader::new(out);
    assert_eq!(read_string(&mut r).unwrap(), "Обои: 'a.png'");
    assert_eq!(r.remaining_len(), 0);
}

#[test]
fn string_vec_roundtrip() {
    let v = strings(&["/home", "", "ywpm", "set"]);
    let mut out = Vec::new();
    write_string_vec(&mut out, &v);
    out.push(42);
    let mut r = ByteReader::new(out);
    assert_eq!(read_string_vec(&mut r).unwrap(), v);
    assert_eq!(read_u8(&mut r).unwrap(), 42);
}

#[test]
fn empty_string_vec_is_refused() {
    let mut out = Vec::new();
    write_string_vec(&mut out, &Vec::new());
    let mut r = ByteReader::new(out);
    assert!(matches!(read_string_vec(&mut r), Err(ReadError::EmptyPackage)));
}

#[test]
fn short_input_is_an_io_error() {
    let mut r = ByteReader::new(vec![0, 0, 0]);
    assert!(matches!(read_size(&mut r), Err(ReadError::Io(_))));
    let mut r = ByteReader::new(vec![]);
    assert!(matches!(read_u8(&mut r), Err(ReadError::Io(_))));
}

#[test]
fn invalid_utf8_is_refused() {
    let mut bytes = Vec::new();
    write_size(&mut bytes, 2);
    bytes.push(0xff);
    bytes.push(0xfe);
    let mut r = ByteReader::new(bytes);
    assert!(matches!(read_string(&mut r), Err(ReadError::FromUtf8(_))));
}

#[test]
fn ok_response_roundtrip() {
    let success = ActionSuccess {
        message: "Wallpaper set: '/a.png'".to_string(),
        warning: Warning::from_message("Warning: x: 'y'\n".to_string()),
    };
    let mut out = Vec::new();
    write_ok(&mut out, &success);
    assert_eq!(out[0], 0);
    let mut r = ByteReader::new(out);
    let got = read_response(&mut r).unwrap().ok().unwrap();
    assert_eq!(got.message, "Wallpaper set: '/a.png'");
    assert_eq!(got.warning.message, "Warning: x: 'y'\n");
}

#[test]
fn error_response_roundtrip() {
    let mut out = Vec::new();
    write_error(&mut out, "Group 'x' not found");
    assert_eq!(out[0], 1);
    let mut r = ByteReader::new(out);
    let got = read_response(&mut r).unwrap().err().unwrap();
    assert_eq!(got.message, "Group 'x' not found");
}

#[test]
fn unknown_response_tag_is_invalid() {
    let mut r = ByteReader::new(vec![0x2a]);
    match read_response(&mut r) {
        Err(ReadError::InvalidResponse(m)) => {
            assert_eq!(m, "Invalid enum tag in daemon response: 0x2a. Expected 0x00 or 0x01")
        }
        _ => panic!("expected an invalid response"),
    }
}

#[test]
fn invalid_response_constructor_keeps_message() {
    match ReadError::invalid_response("bad".to_string()) {
        ReadError::InvalidResponse(m) => assert_eq!(m, "bad"),
        _ => panic!("wrong variant"),
    }
}

#[test]
fn string_vec_cut_short_is_unexpected_eof() {
    let v = strings(&["ab", "", "wallpaper"]);
    let mut out = Vec::new();
    write_string_vec(&mut out, &v);
    for k in 0..out.len() {
        let mut r = ByteReader::new(out[..k].to_vec());
        match read_string_vec(&mut r) {
            Err(ReadError::Io(e)) => assert_eq!(e.kind(), std::io::ErrorKind::UnexpectedEof),
            _ => panic!("prefix of {} bytes was not an end-of-input error", k),
        }
    }
}
