use mayuri::enums::Opcode;
use mayuri::errors::ParseError;
use mayuri::frame::{Frame, Headers};

fn decode_all(bytes: &[u8]) -> Frame {
    let mut headers = Headers::decode(bytes).unwrap();
    let n = headers.extended_length_size();
    headers.read_extended_length(&bytes[2..]).unwrap();
    Frame::decode(&bytes[2 + n..], headers).unwrap()
}

#[test]
fn payload_len_classification() {
    assert_eq!(Frame::get_payload_len(0), (0, 0));
    assert_eq!(Frame::get_payload_len(125), (125, 0));
    assert_eq!(Frame::get_payload_len(126), (126, 126));
    assert_eq!(Frame::get_payload_len(127), (126, 127));
    assert_eq!(Frame::get_payload_len(65535), (126, 65535));
    assert_eq!(Frame::get_payload_len(65536), (127, 65536));
}

#[test]
fn boundary_lengths_choose_the_right_encoding() {
    let cases: [(usize, Vec<u8>); 5] = [
        (125, vec![0x81, 0x80 | 125]),
        (126, vec![0x81, 0xFE, 0x00, 0x7E]),
        (127, vec![0x81, 0xFE, 0x00, 0x7F]),
        (65535, vec![0x81, 0xFE, 0xFF, 0xFF]),
        (65536, vec![0x81, 0xFF, 0, 0, 0, 0, 0, 1, 0, 0]),
    ];
    for (len, header) in cases.iter() {
        let data = vec![0x5Au8; *len];
        let mut frame = Frame::set_defaults(Opcode::Text, &data);
        let bytes = frame.encode_with_key(0xA1B2C3D4);
        assert_eq!(&bytes[..header.len()], &header[..], "length {len}");
        assert_eq!(&bytes[header.len()..header.len() + 4], &[0xA1, 0xB2, 0xC3, 0xD4]);
        assert_eq!(bytes.len(), header.len() + 4 + len);
        let back = decode_all(&bytes);
        assert_eq!(back.payload_data, data, "length {len}");
    }
}

#[test]
fn encode_with_key_masks_msb_first() {
    let mut frame = Frame::set_defaults(Opcode::Text, b"hi");
    let bytes = frame.encode_with_key(0x01020304);
    assert_eq!(bytes, vec![0x81, 0x82, 1, 2, 3, 4, b'h' ^ 1, b'i' ^ 2]);
    assert_eq!(frame.payload_data, vec![b'h' ^ 1, b'i' ^ 2]);
    assert!(frame.headers.mask);
}

#[test]
fn encode_sets_mask_bit_and_carries_key() {
    let mut frame = Frame::set_defaults(Opcode::Binary, &[1, 2, 3, 4, 5]);
    frame.headers.mask = false;
    let before = frame.headers.clone();
    let bytes = frame.encode();
    assert_eq!(frame.headers, before);
    assert!(!frame.headers.mask);
    assert_eq!(bytes[0], 0x82);
    assert_eq!(bytes[1], 0x80 | 5);
    assert_eq!(bytes.len(), 2 + 4 + 5);
    let key = &bytes[2..6];
    for i in 0..5 {
        assert_eq!(bytes[6 + i] ^ key[i % 4], (i + 1) as u8);
    }
}

#[test]
fn encode_with_key_leaves_header_unchanged() {
    let mut frame = Frame::set_defaults(Opcode::Text, b"hey");
    frame.headers.mask = false;
    let before = frame.headers.clone();
    let bytes = frame.encode_with_key(0x0A0B0C0D);
    assert_eq!(frame.headers, before);
    assert_eq!(bytes[1], 0x83);
    assert_eq!(&bytes[2..6], &[0x0A, 0x0B, 0x0C, 0x0D]);
    assert_eq!(frame.payload_data, vec![b'h' ^ 0x0A, b'e' ^ 0x0B, b'y' ^ 0x0C]);
    assert_eq!(&bytes[6..], &frame.payload_data[..]);
}

#[test]
fn masking_twice_restores_payload() {
    let payload: Vec<u8> = (0..40u8).collect();
    let mut frame = Frame::set_defaults(Opcode::Binary, &payload);
    let bytes = frame.encode_with_key(0xDEADBEEF);
    let back = decode_all(&bytes);
    assert_eq!(back.payload_data, payload);
    assert_eq!(back.headers.opcode, Opcode::Binary);
    assert!(back.headers.fin);
    assert!(back.headers.mask);
}

#[test]
fn unmasked_server_frame_decodes() {
    let bytes = [0x81u8, 0x05, b'h', b'e', b'l', b'l', b'o'];
    let headers = Headers::decode(&bytes).unwrap();
    assert!(headers.fin);
    assert!(!headers.rsv1 && !headers.rsv2 && !headers.rsv3);
    assert_eq!(headers.opcode, Opcode::Text);
    assert!(!headers.mask);
    assert_eq!(headers.payload_len, 5);
    assert_eq!(headers.extend_by, 0);
    let frame = Frame::decode(&bytes[2..], headers).unwrap();
    assert_eq!(frame.payload_data, b"hello".to_vec());
}

#[test]
fn header_decode_reads_each_bit() {
    let h = Headers::decode(&[0x49, 0x7E]).unwrap();
    assert!(!h.fin);
    assert!(h.rsv1);
    assert!(!h.rsv2);
    assert!(!h.rsv3);
    assert_eq!(h.opcode, Opcode::Ping);
    assert_eq!(h.extend_by, 16);
    let h = Headers::decode(&[0xB2, 0xFF]).unwrap();
    assert!(h.fin && !h.rsv1 && h.rsv2 && h.rsv3);
    assert_eq!(h.opcode, Opcode::Binary);
    assert!(h.mask);
    assert_eq!(h.payload_len, 127);
    assert_eq!(h.extend_by, 64);
}

#[test]
fn header_decode_then_encode_gives_the_bytes_back() {
    for b0 in [0x80u8, 0x81, 0x02, 0xC8, 0x39, 0xFA] {
        for b1 in [0x00u8, 0x05, 0x7D, 0x85, 0xFD] {
            let h = Headers::decode(&[b0, b1]).unwrap();
            assert_eq!(h.encode(), vec![b0, b1]);
        }
    }
}

#[test]
fn header_decode_errors() {
    assert!(matches!(Headers::decode(&[0x81]), Err(ParseError::FrameError(_))));
    assert!(matches!(Headers::decode(&[0x83, 0x00]), Err(ParseError::FrameError(_))));
    assert!(matches!(Headers::decode(&[0x8B, 0x00]), Err(ParseError::FrameError(_))));
}

#[test]
fn extended_length_errors() {
    let mut h = Headers::decode(&[0x82, 0x7E]).unwrap();
    assert!(matches!(h.read_extended_length(&[0x01]), Err(ParseError::FrameError(_))));
    assert_eq!(h.payload_len_ext, 0);
    h.read_extended_length(&[0x01, 0x02]).unwrap();
    assert_eq!(h.payload_len_ext, 0x0102);
    assert_eq!(h.payload_length(), 0x0102);
    let mut h = Headers::decode(&[0x82, 0x7F]).unwrap();
    assert!(matches!(
        h.read_extended_length(&[0x80, 0, 0, 0, 0, 0, 0, 0]),
        Err(ParseError::FrameError(_))
    ));
    h.read_extended_length(&[0x7F, 0xFF, 0xFF, 0xFF, 0xFF, 0xFF, 0xFF, 0xFF]).unwrap();
    assert_eq!(h.payload_len_ext, 0x7FFF_FFFF_FFFF_FFFF);
}

#[test]
fn truncated_payload_is_a_frame_error() {
    let h = Headers::decode(&[0x81, 0x05]).unwrap();
    assert!(matches!(Frame::decode(b"hell", h), Err(ParseError::FrameError(_))));
    let h = Headers::decode(&[0x81, 0x85]).unwrap();
    assert!(matches!(Frame::decode(&[1, 2, 3, 4, 5, 6], h), Err(ParseError::FrameError(_))));
}

#[test]
fn masked_server_frame_is_unmasked() {
    let key = [0x37u8, 0xFA, 0x21, 0x3D];
    let text = b"Hello";
    let mut body = key.to_vec();
    for (i, b) in text.iter().enumerate() {
        body.push(b ^ key[i % 4]);
    }
    let h = Headers::decode(&[0x81, 0x85]).unwrap();
    assert_eq!(h.body_length(), Some(9));
    let frame = Frame::decode(&body, h).unwrap();
    assert_eq!(frame.payload_data, text.to_vec());
}

#[test]
fn set_defaults_fills_header() {
    let h = Headers::set_defaults(Opcode::Close, 4, 0);
    assert!(h.fin && h.mask && !h.rsv1 && !h.rsv2 && !h.rsv3);
    assert_eq!(h.opcode, Opcode::Close);
    assert_eq!(h.encode(), vec![0x88, 0x84]);
    let f = Frame::set_defaults(Opcode::Text, &[0u8; 300]);
    assert_eq!(f.headers.payload_len, 126);
    assert_eq!(f.headers.payload_len_ext, 300);
    assert_eq!(f.payload_data.len(), 300);
}

#[test]
fn opcode_codes() {
    let all = [
        (0x0u8, Opcode::Continuation),
        (0x1, Opcode::Text),
        (0x2, Opcode::Binary),
        (0x8, Opcode::Close),
        (0x9, Opcode::Ping),
        (0xA, Opcode::Pong),
    ];
    for (code, op) in all {
        assert_eq!(Opcode::from_u8(code).unwrap(), op);
        assert_eq!(op.as_u8(), code);
    }
    for bad in [3u8, 7, 0xB, 0xF, 0x10] {
        assert!(matches!(Opcode::from_u8(bad), Err(ParseError::FrameError(_))));
    }
}
