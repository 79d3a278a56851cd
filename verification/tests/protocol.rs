use kvs::tcp::protocol::{
    check_head, pack_command, pack_response, unpack_command, unpack_response,
};
use kvs::{DBCommands, KVSError, ServerResponse};

fn get(key: &str) -> DBCommands {
    DBCommands::Get { key: key.to_string() }
}

fn put(key: &str, value: &str) -> DBCommands {
    DBCommands::Put { key: key.to_string(), value: value.to_string() }
}

fn rm(key: &str) -> DBCommands {
    DBCommands::Rm { key: key.to_string() }
}

fn success(output: &str) -> ServerResponse {
    ServerResponse::Success { output: output.to_string() }
}

fn failure(message: &str) -> ServerResponse {
    ServerResponse::Failure { message: message.to_string() }
}

#[test]
fn get_frame_has_the_documented_layout() {
    let packet = get("k").to_packet().unwrap();
    assert_eq!(packet, vec![27, 59, 1, 0, 0, 0, 1, 0, 0, 0, 0, 107, 251, 239]);
}

#[test]
fn put_frame_has_the_documented_layout() {
    let packet = put("key", "value").to_packet().unwrap();
    assert_eq!(
        packet,
        vec![27, 59, 2, 0, 0, 0, 3, 0, 0, 0, 5, 107, 101, 121, 118, 97, 108, 117, 101, 153, 13]
    );
}

#[test]
fn rm_frame_has_the_documented_layout() {
    let packet = rm("k").to_packet().unwrap();
    assert_eq!(packet, vec![27, 59, 3, 0, 0, 0, 1, 0, 0, 0, 0, 107, 49, 78]);
}

#[test]
fn success_frame_has_the_documented_layout() {
    let packet = success("v1").to_packet().unwrap();
    assert_eq!(packet, vec![27, 59, 100, 0, 0, 0, 2, 118, 49, 229, 159]);
}

#[test]
fn failure_frame_has_the_documented_layout() {
    let packet = failure("Key not found").to_packet().unwrap();
    assert_eq!(
        packet,
        vec![
            27, 59, 101, 0, 0, 0, 13, 75, 101, 121, 32, 110, 111, 116, 32, 102, 111, 117, 110,
            100, 6, 217
        ]
    );
}

#[test]
fn empty_message_is_permitted() {
    let packet = success("").to_packet().unwrap();
    assert_eq!(packet, vec![27, 59, 100, 0, 0, 0, 0, 66, 222]);
    assert_eq!(ServerResponse::from_stream(&packet), Ok(success("")));
}

#[test]
fn lengths_count_bytes_not_characters() {
    let packet = put("ключ", "值").to_packet().unwrap();
    assert_eq!(
        packet,
        vec![
            27, 59, 2, 0, 0, 0, 8, 0, 0, 0, 3, 208, 186, 208, 187, 209, 142, 209, 135, 229, 128,
            188, 35, 60
        ]
    );
    assert_eq!(DBCommands::from_stream(&packet), Ok(put("ключ", "值")));
}

#[test]
fn the_trailer_is_the_crc16_arc_of_the_body() {
    // The check value of CRC-16/ARC: the checksum of "123456789" is 0xBB3D.
    // A response frame whose seven header bytes and text are known lets the
    // trailer be compared with values computed independently.
    let packet = success("v1").to_packet().unwrap();
    let trailer = &packet[packet.len() - 2..];
    assert_eq!(trailer, &[0xE5, 0x9F]);
    let other = success("v2").to_packet().unwrap();
    assert_ne!(&other[other.len() - 2..], trailer);
}

#[test]
fn every_command_round_trips() {
    let long_key = "k".repeat(70_000);
    let long_value = "v".repeat(300);
    let commands = vec![
        get("k"),
        get(""),
        put("k", "v"),
        put("", ""),
        put("a key with spaces", "line one\nline two"),
        put("\u{0}\u{1f}\"\\", "\u{10ffff}\u{fffd}"),
        put(&long_key, &long_value),
        rm("k"),
        rm("снег"),
    ];
    for command in commands {
        let packet = command.clone().to_packet().unwrap();
        assert_eq!(DBCommands::from_stream(&packet), Ok(command));
    }
}

#[test]
fn every_response_round_trips() {
    let responses = vec![
        success(""),
        success("value"),
        success("Key not found"),
        failure(""),
        failure("Internal error"),
        failure("Cant set"),
        success(&"x".repeat(100_000)),
        failure("ошибка"),
    ];
    for response in responses {
        let packet = response.clone().to_packet().unwrap();
        assert_eq!(ServerResponse::from_stream(&packet), Ok(response));
    }
}

#[test]
fn bytes_after_the_frame_are_ignored() {
    let mut packet = put("k", "v").to_packet().unwrap();
    packet.extend_from_slice(&[1, 2, 3, 4]);
    assert_eq!(DBCommands::from_stream(&packet), Ok(put("k", "v")));
    let mut packet = failure("no").to_packet().unwrap();
    packet.push(0);
    assert_eq!(ServerResponse::from_stream(&packet), Ok(failure("no")));
}

#[test]
fn truncated_command_is_an_io_error() {
    let packet = put("key", "value").to_packet().unwrap();
    for n in 0..packet.len() {
        assert_eq!(DBCommands::from_stream(&packet[..n]), Err(KVSError::IOError), "cut at {}", n);
    }
    assert!(DBCommands::from_stream(&packet).is_ok());
}

#[test]
fn truncated_response_is_an_io_error() {
    let packet = success("some output").to_packet().unwrap();
    for n in 0..packet.len() {
        assert_eq!(
            ServerResponse::from_stream(&packet[..n]),
            Err(KVSError::IOError),
            "cut at {}",
            n
        );
    }
    assert!(ServerResponse::from_stream(&packet).is_ok());
}

#[test]
fn flipped_payload_byte_is_a_checksum_mismatch() {
    let packet = put("key", "value").to_packet().unwrap();
    for at in 11..packet.len() - 2 {
        for bit in 0..8 {
            let mut damaged = packet.clone();
            damaged[at] ^= 1 << bit;
            assert_eq!(
                DBCommands::from_stream(&damaged),
                Err(KVSError::ProtocolChecksumMismatch),
                "byte {} bit {}",
                at,
                bit
            );
        }
    }
    let packet = success("output").to_packet().unwrap();
    for at in 7..packet.len() - 2 {
        let mut damaged = packet.clone();
        damaged[at] = !damaged[at];
        assert_eq!(
            ServerResponse::from_stream(&damaged),
            Err(KVSError::ProtocolChecksumMismatch)
        );
    }
}

#[test]
fn flipped_opcode_is_a_checksum_mismatch() {
    let mut packet = get("k").to_packet().unwrap();
    packet[2] = 3;
    assert_eq!(DBCommands::from_stream(&packet), Err(KVSError::ProtocolChecksumMismatch));
}

#[test]
fn either_trailer_byte_is_compared() {
    let packet = get("k").to_packet().unwrap();
    let last = packet.len() - 1;
    let mut high = packet.clone();
    high[last - 1] ^= 0x01;
    assert_eq!(DBCommands::from_stream(&high), Err(KVSError::ProtocolChecksumMismatch));
    let mut low = packet.clone();
    low[last] ^= 0x80;
    assert_eq!(DBCommands::from_stream(&low), Err(KVSError::ProtocolChecksumMismatch));
    let mut both = packet;
    both[last - 1] ^= 0xff;
    both[last] ^= 0xff;
    assert_eq!(DBCommands::from_stream(&both), Err(KVSError::ProtocolChecksumMismatch));
}

#[test]
fn bad_head_is_a_head_mismatch() {
    let packet = get("k").to_packet().unwrap();
    let mut first = packet.clone();
    first[0] = 28;
    assert_eq!(DBCommands::from_stream(&first), Err(KVSError::ProtocolHeadMismatch));
    let mut second = packet.clone();
    second[1] = 0;
    assert_eq!(DBCommands::from_stream(&second), Err(KVSError::ProtocolHeadMismatch));
    assert_eq!(DBCommands::from_stream(&[0, 0]), Err(KVSError::ProtocolHeadMismatch));
    assert_eq!(ServerResponse::from_stream(&[27, 60]), Err(KVSError::ProtocolHeadMismatch));
    assert_eq!(ServerResponse::from_stream(&second), Err(KVSError::ProtocolHeadMismatch));
}

#[test]
fn unknown_opcode_is_reported_after_the_checksum() {
    let packet = vec![27, 59, 9, 0, 0, 0, 1, 0, 0, 0, 0, 107, 17, 110];
    assert_eq!(DBCommands::from_stream(&packet), Err(KVSError::ProtocolUnknownOpcode));
    let mut damaged = packet;
    damaged[11] = 108;
    assert_eq!(DBCommands::from_stream(&damaged), Err(KVSError::ProtocolChecksumMismatch));
}

#[test]
fn unknown_status_is_reported() {
    let packet = vec![27, 59, 7, 0, 0, 0, 1, 120, 121, 202];
    assert_eq!(ServerResponse::from_stream(&packet), Err(KVSError::ProtocolUnknownOpcode));
}

#[test]
fn value_of_a_get_frame_is_dropped() {
    let packet = vec![27, 59, 1, 0, 0, 0, 1, 0, 0, 0, 2, 107, 122, 122, 136, 174];
    assert_eq!(DBCommands::from_stream(&packet), Ok(get("k")));
}

#[test]
fn invalid_utf8_is_repaired() {
    let packet = vec![27, 59, 2, 0, 0, 0, 1, 0, 0, 0, 1, 255, 97, 32, 75];
    assert_eq!(DBCommands::from_stream(&packet), Ok(put("\u{fffd}", "a")));
}

#[test]
fn check_head_accepts_only_the_magic_head() {
    assert_eq!(check_head(&[27, 59]), Ok(()));
    assert_eq!(check_head(&[27, 59, 0, 1]), Ok(()));
    assert_eq!(check_head(&[27, 58]), Err(KVSError::ProtocolHeadMismatch));
    assert_eq!(check_head(&[59, 27]), Err(KVSError::ProtocolHeadMismatch));
}

#[test]
fn missing_counts_the_bytes_to_read_next() {
    let packet = put("key", "value").to_packet().unwrap();
    assert_eq!(DBCommands::missing(&[]), Ok(2));
    assert_eq!(DBCommands::missing(&packet[..1]), Ok(1));
    assert_eq!(DBCommands::missing(&packet[..2]), Ok(9));
    assert_eq!(DBCommands::missing(&packet[..10]), Ok(1));
    assert_eq!(DBCommands::missing(&packet[..11]), Ok(10));
    assert_eq!(DBCommands::missing(&packet[..20]), Ok(1));
    assert_eq!(DBCommands::missing(&packet), Ok(0));
    assert_eq!(DBCommands::missing(&[27, 0]), Err(KVSError::ProtocolHeadMismatch));

    let packet = success("hello").to_packet().unwrap();
    assert_eq!(ServerResponse::missing(&[]), Ok(2));
    assert_eq!(ServerResponse::missing(&packet[..2]), Ok(5));
    assert_eq!(ServerResponse::missing(&packet[..7]), Ok(7));
    assert_eq!(ServerResponse::missing(&packet), Ok(0));
    assert_eq!(ServerResponse::missing(&[1, 59, 100]), Err(KVSError::ProtocolHeadMismatch));
}

#[test]
fn missing_handles_the_largest_lengths() {
    let header = [27, 59, 2, 255, 255, 255, 255, 255, 255, 255, 255];
    assert_eq!(DBCommands::missing(&header), Ok(2 + 2 * 4_294_967_295u64));
    assert_eq!(DBCommands::from_stream(&header), Err(KVSError::IOError));
    let header = [27, 59, 100, 255, 255, 255, 255];
    assert_eq!(ServerResponse::missing(&header), Ok(2 + 4_294_967_295u64));
}

#[test]
fn reading_by_missing_counts_ends_with_a_whole_frame() {
    let wire = rm("some key").to_packet().unwrap();
    let mut received: Vec<u8> = Vec::new();
    let mut reads = 0;
    loop {
        let n = DBCommands::missing(&received).unwrap() as usize;
        if n == 0 {
            break;
        }
        let from = received.len();
        received.extend_from_slice(&wire[from..from + n]);
        reads += 1;
    }
    assert_eq!(reads, 3);
    assert_eq!(received, wire);
    assert_eq!(DBCommands::from_stream(&received), Ok(rm("some key")));
}

#[test]
fn free_functions_agree_with_the_methods() {
    let packet = pack_command(put("k", "v")).unwrap();
    assert_eq!(packet, put("k", "v").to_packet().unwrap());
    assert_eq!(unpack_command(&packet), Ok(put("k", "v")));
    let packet = pack_response(failure("Cant set")).unwrap();
    assert_eq!(packet, failure("Cant set").to_packet().unwrap());
    assert_eq!(unpack_response(&packet), Ok(failure("Cant set")));
    assert_eq!(unpack_command(&[]), Err(KVSError::IOError));
    assert_eq!(unpack_response(&[27]), Err(KVSError::IOError));
}
