use wl_client::endian::{get_word, put_word, to_signed, to_unsigned, ByteOrder};
use wl_client::error::WaylandError;
use wl_client::wire::{
    decode_arguments, decode_event_payload, WireArgument, WireArgumentKind, WireMessage,
};

fn text(s: &str) -> String {
    String::from(s)
}

fn sample_messages() -> Vec<WireMessage> {
    vec![
        WireMessage { sender_id: 1, opcode: 0, args: vec![] },
        WireMessage { sender_id: 1, opcode: 1, args: vec![WireArgument::NewId(2)] },
        WireMessage {
            sender_id: 7,
            opcode: 0xFFFF,
            args: vec![
                WireArgument::Int(-1),
                WireArgument::Int(i32::MIN),
                WireArgument::Int(i32::MAX),
                WireArgument::UnInt(u32::MAX),
                WireArgument::FixedPrecision(0x0001_8000),
                WireArgument::Obj(9),
                WireArgument::NewId(10),
                WireArgument::FileDescriptor(5),
                WireArgument::FileDescriptor(-1),
            ],
        },
        WireMessage {
            sender_id: 2,
            opcode: 0,
            args: vec![
                WireArgument::UnInt(1),
                WireArgument::String(text("wl_compositor")),
                WireArgument::UnInt(5),
            ],
        },
        WireMessage {
            sender_id: 2,
            opcode: 0,
            args: vec![
                WireArgument::UnInt(1),
                WireArgument::NewIdSpecific(text("wl_shm"), 1, 4),
            ],
        },
        WireMessage {
            sender_id: 3,
            opcode: 4,
            args: vec![
                WireArgument::Int(640),
                WireArgument::Arr(vec![0, 255, 1, 2, 3]),
                WireArgument::Int(480),
            ],
        },
        WireMessage {
            sender_id: 3,
            opcode: 4,
            args: vec![WireArgument::String(text("gr\u{fc}\u{df}e \u{4e16}\u{754c}"))],
        },
        WireMessage {
            sender_id: 3,
            opcode: 4,
            args: vec![
                WireArgument::String(text("first takes all")),
                WireArgument::Arr(vec![]),
                WireArgument::String(text("")),
                WireArgument::UnInt(3),
            ],
        },
    ]
}

fn kinds(msg: &WireMessage) -> Vec<WireArgumentKind> {
    msg.schema()
}

#[test]
fn schema_lists_the_kinds_in_order() {
    let msg = WireMessage {
        sender_id: 1,
        opcode: 0,
        args: vec![
            WireArgument::Int(1),
            WireArgument::UnInt(1),
            WireArgument::FixedPrecision(1),
            WireArgument::String(text("s")),
            WireArgument::Obj(1),
            WireArgument::NewId(1),
            WireArgument::NewIdSpecific(text("s"), 1, 1),
            WireArgument::Arr(vec![]),
            WireArgument::FileDescriptor(1),
        ],
    };
    assert_eq!(
        msg.schema(),
        vec![
            WireArgumentKind::Int,
            WireArgumentKind::UnInt,
            WireArgumentKind::FixedPrecision,
            WireArgumentKind::String,
            WireArgumentKind::Obj,
            WireArgumentKind::NewId,
            WireArgumentKind::NewIdSpecific,
            WireArgumentKind::Arr,
            WireArgumentKind::FileDescriptor,
        ]
    );
    assert_eq!(WireMessage { sender_id: 1, opcode: 0, args: vec![] }.schema(), vec![]);
}

#[test]
fn round_trip_reproduces_the_message() {
    for order in [ByteOrder::Little, ByteOrder::Big] {
        for msg in sample_messages() {
            let bytes = msg.encode(order).unwrap();
            let back = WireMessage::decode(&bytes, &kinds(&msg), order).unwrap();
            assert_eq!(back, msg);
        }
    }
}

#[test]
fn header_declares_eight_plus_the_argument_sizes() {
    for order in [ByteOrder::Little, ByteOrder::Big] {
        for msg in sample_messages() {
            let bytes = msg.encode(order).unwrap();
            let mut expected = 8;
            for a in msg.args.iter() {
                expected += a.size();
            }
            assert_eq!(bytes.len(), expected);
            let word = get_word(&bytes, 4, order);
            assert_eq!((word >> 16) as usize, expected);
            assert_eq!((word & 0xFFFF) as usize, msg.opcode);
            assert_eq!(get_word(&bytes, 0, order), msg.sender_id);
        }
    }
}

#[test]
fn encoding_has_the_exact_bytes_in_little_endian() {
    let msg = WireMessage { sender_id: 1, opcode: 1, args: vec![WireArgument::NewId(2)] };
    assert_eq!(
        msg.encode(ByteOrder::Little).unwrap(),
        vec![1, 0, 0, 0, 1, 0, 12, 0, 2, 0, 0, 0]
    );
}

#[test]
fn encoding_has_the_exact_bytes_in_big_endian() {
    let msg = WireMessage { sender_id: 1, opcode: 1, args: vec![WireArgument::NewId(2)] };
    assert_eq!(
        msg.encode(ByteOrder::Big).unwrap(),
        vec![0, 0, 0, 1, 0, 12, 0, 1, 0, 0, 0, 2]
    );
}

#[test]
fn bind_request_has_the_exact_bytes() {
    let msg = WireMessage {
        sender_id: 2,
        opcode: 0,
        args: vec![WireArgument::UnInt(1), WireArgument::NewIdSpecific(text("ab"), 5, 4)],
    };
    assert_eq!(
        msg.encode(ByteOrder::Little).unwrap(),
        vec![2, 0, 0, 0, 0, 0, 22, 0, 1, 0, 0, 0, b'a', b'b', 5, 0, 0, 0, 4, 0, 0, 0]
    );
}

#[test]
fn opcode_keeps_its_low_sixteen_bits() {
    let msg = WireMessage { sender_id: 1, opcode: 0x1_0003, args: vec![] };
    let bytes = msg.encode(ByteOrder::Little).unwrap();
    assert_eq!(bytes, vec![1, 0, 0, 0, 3, 0, 8, 0]);
    let back = WireMessage::decode(&bytes, &[], ByteOrder::Little).unwrap();
    assert_eq!(back.opcode, 3);
}

#[test]
fn argument_sizes_are_as_declared() {
    assert_eq!(WireArgument::Int(-5).size(), 4);
    assert_eq!(WireArgument::UnInt(5).size(), 4);
    assert_eq!(WireArgument::FixedPrecision(5).size(), 4);
    assert_eq!(WireArgument::Obj(5).size(), 4);
    assert_eq!(WireArgument::NewId(5).size(), 4);
    assert_eq!(WireArgument::FileDescriptor(5).size(), 4);
    assert_eq!(WireArgument::String(text("hello")).size(), 5);
    assert_eq!(WireArgument::String(text("\u{fc}")).size(), 2);
    assert_eq!(WireArgument::String(text("")).size(), 0);
    assert_eq!(WireArgument::NewIdSpecific(text("hello"), 1, 2).size(), 13);
    assert_eq!(WireArgument::Arr(vec![1, 2, 3]).size(), 3);
}

#[test]
fn argument_bytes_are_exact() {
    let le = ByteOrder::Little;
    let be = ByteOrder::Big;
    assert_eq!(WireArgument::UnInt(0x0102_0304).as_vec_u8(le), vec![4, 3, 2, 1]);
    assert_eq!(WireArgument::UnInt(0x0102_0304).as_vec_u8(be), vec![1, 2, 3, 4]);
    assert_eq!(WireArgument::Int(-2).as_vec_u8(le), vec![0xFE, 0xFF, 0xFF, 0xFF]);
    assert_eq!(WireArgument::Int(-2).as_vec_u8(be), vec![0xFF, 0xFF, 0xFF, 0xFE]);
    assert_eq!(WireArgument::FixedPrecision(256).as_vec_u8(le), vec![0, 1, 0, 0]);
    assert_eq!(WireArgument::Obj(7).as_vec_u8(le), vec![7, 0, 0, 0]);
    assert_eq!(WireArgument::NewId(7).as_vec_u8(be), vec![0, 0, 0, 7]);
    assert_eq!(WireArgument::FileDescriptor(3).as_vec_u8(le), vec![3, 0, 0, 0]);
    assert_eq!(WireArgument::String(text("hi")).as_vec_u8(le), vec![b'h', b'i']);
    assert_eq!(WireArgument::String(text("\u{fc}")).as_vec_u8(be), vec![0xC3, 0xBC]);
    assert_eq!(
        WireArgument::NewIdSpecific(text("x"), 2, 3).as_vec_u8(le),
        vec![b'x', 2, 0, 0, 0, 3, 0, 0, 0]
    );
    assert_eq!(WireArgument::Arr(vec![9, 8]).as_vec_u8(be), vec![9, 8]);
}

#[test]
fn argument_size_matches_its_bytes() {
    for msg in sample_messages() {
        for a in msg.args.iter() {
            assert_eq!(a.as_vec_u8(ByteOrder::Little).len(), a.size());
            assert_eq!(a.as_vec_u8(ByteOrder::Big).len(), a.size());
        }
    }
}

#[test]
fn words_and_signs() {
    let mut out = Vec::new();
    put_word(&mut out, 0xDEAD_BEEF, ByteOrder::Little);
    put_word(&mut out, 0xDEAD_BEEF, ByteOrder::Big);
    assert_eq!(out, vec![0xEF, 0xBE, 0xAD, 0xDE, 0xDE, 0xAD, 0xBE, 0xEF]);
    assert_eq!(get_word(&out, 0, ByteOrder::Little), 0xDEAD_BEEF);
    assert_eq!(get_word(&out, 4, ByteOrder::Big), 0xDEAD_BEEF);
    assert_eq!(get_word(&out, 0, ByteOrder::Big), 0xEFBE_ADDE);
    assert_eq!(to_unsigned(-1), u32::MAX);
    assert_eq!(to_unsigned(i32::MIN), 0x8000_0000);
    assert_eq!(to_unsigned(7), 7);
    assert_eq!(to_signed(u32::MAX), -1);
    assert_eq!(to_signed(0x8000_0000), i32::MIN);
    assert_eq!(to_signed(0x7FFF_FFFF), i32::MAX);
}

#[test]
fn byte_order_is_told_from_the_layout_of_one() {
    assert_eq!(ByteOrder::of_one([1, 0, 0, 0]), ByteOrder::Little);
    assert_eq!(ByteOrder::of_one([0, 0, 0, 1]), ByteOrder::Big);
    assert_eq!(ByteOrder::of_one(1u32.to_le_bytes()), ByteOrder::Little);
    assert_eq!(ByteOrder::of_one(1u32.to_be_bytes()), ByteOrder::Big);
    assert_eq!(ByteOrder::of_one(1u32.to_ne_bytes()), ByteOrder::native());
}

#[test]
fn native_order_is_the_machines() {
    let order = ByteOrder::native();
    let mut out = Vec::new();
    put_word(&mut out, 0x0102_0304, order);
    assert_eq!(out, 0x0102_0304u32.to_ne_bytes().to_vec());
    assert_eq!(get_word(&out, 0, order), u32::from_ne_bytes([out[0], out[1], out[2], out[3]]));
}

#[test]
fn message_longer_than_a_header_can_declare_is_refused() {
    let fits = WireMessage {
        sender_id: 1,
        opcode: 0,
        args: vec![WireArgument::Arr(vec![0; 0xFFFF - 8])],
    };
    let bytes = fits.encode(ByteOrder::Little).unwrap();
    assert_eq!(bytes.len(), 0xFFFF);
    assert_eq!(get_word(&bytes, 4, ByteOrder::Little) >> 16, 0xFFFF);
    let too_long = WireMessage {
        sender_id: 1,
        opcode: 0,
        args: vec![WireArgument::Arr(vec![0; 0xFFFF - 7])],
    };
    assert_eq!(too_long.encode(ByteOrder::Little), Err(WaylandError::RecvLenBad));
}

#[test]
fn decode_refuses_a_wrong_length() {
    let msg = WireMessage { sender_id: 1, opcode: 1, args: vec![WireArgument::NewId(2)] };
    let bytes = msg.encode(ByteOrder::Little).unwrap();
    let schema = [WireArgumentKind::NewId];
    assert_eq!(
        WireMessage::decode(&bytes[..7], &schema, ByteOrder::Little),
        Err(WaylandError::RecvLenBad)
    );
    assert_eq!(
        WireMessage::decode(&bytes[..11], &schema, ByteOrder::Little),
        Err(WaylandError::RecvLenBad)
    );
    let mut longer = bytes.clone();
    longer.push(0);
    assert_eq!(
        WireMessage::decode(&longer, &schema, ByteOrder::Little),
        Err(WaylandError::RecvLenBad)
    );
    assert_eq!(WireMessage::decode(&[], &[], ByteOrder::Little), Err(WaylandError::RecvLenBad));
}

#[test]
fn decode_refuses_bytes_that_do_not_fit_the_schema() {
    let msg = WireMessage { sender_id: 1, opcode: 1, args: vec![WireArgument::NewId(2)] };
    let bytes = msg.encode(ByteOrder::Little).unwrap();
    assert_eq!(
        WireMessage::decode(&bytes, &[], ByteOrder::Little),
        Err(WaylandError::ParseError)
    );
    assert_eq!(
        WireMessage::decode(
            &bytes,
            &[WireArgumentKind::UnInt, WireArgumentKind::UnInt],
            ByteOrder::Little
        ),
        Err(WaylandError::ParseError)
    );
    assert_eq!(
        WireMessage::decode(&bytes, &[WireArgumentKind::NewIdSpecific], ByteOrder::Little),
        Err(WaylandError::ParseError)
    );
    let object = WireMessage { sender_id: 1, opcode: 1, args: vec![WireArgument::Obj(0xFFFF_FFFF)] };
    let bytes = object.encode(ByteOrder::Little).unwrap();
    assert_eq!(
        WireMessage::decode(&bytes, &[WireArgumentKind::String], ByteOrder::Little),
        Err(WaylandError::ParseError)
    );
}

#[test]
fn decode_reads_the_same_bytes_by_the_schema() {
    let msg = WireMessage { sender_id: 1, opcode: 1, args: vec![WireArgument::Int(-1)] };
    let bytes = msg.encode(ByteOrder::Big).unwrap();
    let as_unsigned =
        WireMessage::decode(&bytes, &[WireArgumentKind::UnInt], ByteOrder::Big).unwrap();
    assert_eq!(as_unsigned.args, vec![WireArgument::UnInt(u32::MAX)]);
    let as_array = WireMessage::decode(&bytes, &[WireArgumentKind::Arr], ByteOrder::Big).unwrap();
    assert_eq!(as_array.args, vec![WireArgument::Arr(vec![255, 255, 255, 255])]);
}

#[test]
fn one_argument_at_a_time() {
    let le = ByteOrder::Little;
    assert_eq!(
        decode_event_payload(&[5, 0, 0, 0], WireArgumentKind::UnInt, le),
        Ok(WireArgument::UnInt(5))
    );
    assert_eq!(
        decode_event_payload(&[0xFF, 0xFF, 0xFF, 0xFF], WireArgumentKind::Int, le),
        Ok(WireArgument::Int(-1))
    );
    assert_eq!(
        decode_event_payload(&[0, 1, 0, 0], WireArgumentKind::FixedPrecision, le),
        Ok(WireArgument::FixedPrecision(256))
    );
    assert_eq!(
        decode_event_payload(&[0, 0, 0, 9], WireArgumentKind::Obj, ByteOrder::Big),
        Ok(WireArgument::Obj(9))
    );
    assert_eq!(
        decode_event_payload(&[9, 0, 0, 0], WireArgumentKind::NewId, le),
        Ok(WireArgument::NewId(9))
    );
    assert_eq!(
        decode_event_payload(&[3, 0, 0, 0], WireArgumentKind::FileDescriptor, le),
        Ok(WireArgument::FileDescriptor(3))
    );
    assert_eq!(
        decode_event_payload(b"wl_shm", WireArgumentKind::String, le),
        Ok(WireArgument::String(text("wl_shm")))
    );
    assert_eq!(
        decode_event_payload(&[], WireArgumentKind::String, le),
        Ok(WireArgument::String(text("")))
    );
    assert_eq!(
        decode_event_payload(&[1, 2], WireArgumentKind::Arr, le),
        Ok(WireArgument::Arr(vec![1, 2]))
    );
    assert_eq!(
        decode_event_payload(&[b'x', 2, 0, 0, 0, 3, 0, 0, 0], WireArgumentKind::NewIdSpecific, le),
        Ok(WireArgument::NewIdSpecific(text("x"), 2, 3))
    );
}

#[test]
fn one_argument_that_does_not_fit() {
    let le = ByteOrder::Little;
    assert_eq!(
        decode_event_payload(&[5, 0, 0], WireArgumentKind::UnInt, le),
        Err(WaylandError::ParseError)
    );
    assert_eq!(
        decode_event_payload(&[5, 0, 0, 0, 0], WireArgumentKind::Obj, le),
        Err(WaylandError::ParseError)
    );
    assert_eq!(
        decode_event_payload(&[0xFF, 0xFE], WireArgumentKind::String, le),
        Err(WaylandError::ParseError)
    );
    assert_eq!(
        decode_event_payload(&[0xC3], WireArgumentKind::String, le),
        Err(WaylandError::ParseError)
    );
    assert_eq!(
        decode_event_payload(&[1, 2, 3, 4, 5, 6, 7], WireArgumentKind::NewIdSpecific, le),
        Err(WaylandError::ParseError)
    );
    assert_eq!(
        decode_event_payload(&[0xFF, 0, 0, 0, 0, 0, 0, 0, 0], WireArgumentKind::NewIdSpecific, le),
        Err(WaylandError::ParseError)
    );
}

#[test]
fn first_argument_of_variable_length_takes_what_is_left() {
    let schema = [WireArgumentKind::String, WireArgumentKind::UnInt, WireArgumentKind::String];
    let args = decode_arguments(b"abc\x07\x00\x00\x00", &schema, ByteOrder::Little).unwrap();
    assert_eq!(
        args,
        vec![
            WireArgument::String(text("abc")),
            WireArgument::UnInt(7),
            WireArgument::String(text("")),
        ]
    );
}

#[test]
fn two_texts_in_one_message_do_not_round_trip() {
    let msg = WireMessage {
        sender_id: 1,
        opcode: 0,
        args: vec![WireArgument::String(text("ab")), WireArgument::String(text("c"))],
    };
    let bytes = msg.encode(ByteOrder::Little).unwrap();
    let back = WireMessage::decode(&bytes, &kinds(&msg), ByteOrder::Little).unwrap();
    assert_eq!(
        back.args,
        vec![WireArgument::String(text("abc")), WireArgument::String(text(""))]
    );
}

#[test]
fn kinds_know_their_least_size() {
    assert_eq!(WireArgumentKind::Int.least_size(), 4);
    assert_eq!(WireArgumentKind::String.least_size(), 0);
    assert_eq!(WireArgumentKind::Arr.least_size(), 0);
    assert_eq!(WireArgumentKind::NewIdSpecific.least_size(), 8);
    assert!(WireArgumentKind::String.has_variable_length());
    assert!(WireArgumentKind::NewIdSpecific.has_variable_length());
    assert!(!WireArgumentKind::FileDescriptor.has_variable_length());
}
