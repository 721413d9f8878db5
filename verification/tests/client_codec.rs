use byteorder::{BigEndian, ByteOrder};
use kvcache::client_codec::CacheClientCodec;
use kvcache::frame::FrameError;
use kvcache::helpers::FrameBuf;
use kvcache::server_codec::CacheServerCodec;
use kvcache::types::{CacheCommand, CacheResponse, Command, CommandResult};

#[test]
fn it_works() {}

#[test]
fn encodes_put_command() {
    let key = "key".to_string();
    let value = "value".to_string().into_bytes();
    let length = value.iter().len() as u64;
    let mut length_as_bytes = vec![0; 8];
    BigEndian::write_u64(&mut length_as_bytes, length);

    let command = CacheCommand {
        key: key.clone(),
        value: value.clone(),
        length: length,
        command: Command::PUT,
    };

    let mut bytes = vec![];
    let mut encoder = CacheClientCodec {};
    let result = encoder.encode(command, &mut bytes);

    let mut expected = vec![];
    expected.extend("put".to_string().into_bytes());
    expected.push(b'\n');
    expected.extend(key.into_bytes());
    expected.push(b'\n');
    expected.extend(length_as_bytes);
    expected.push(b'\n');
    expected.extend(value);

    assert!(result.is_ok());
    assert_eq!(bytes, expected);
}

#[test]
fn encodes_get_command() {
    let key = "key".to_string();
    let length = 0 as u64;
    let mut length_as_bytes = vec![0; 8];
    BigEndian::write_u64(&mut length_as_bytes, length);

    let command = CacheCommand {
        key: key.clone(),
        value: vec![],
        length: length,
        command: Command::GET,
    };

    let mut bytes = vec![];
    let mut encoder = CacheClientCodec {};
    let result = encoder.encode(command, &mut bytes);

    let mut expected = vec![];
    expected.extend("get".to_string().into_bytes());
    expected.push(b'\n');
    expected.extend(key.into_bytes());
    expected.push(b'\n');
    expected.extend(length_as_bytes);
    expected.push(b'\n');

    assert!(result.is_ok());
    assert_eq!(bytes, expected);
}

#[test]
fn decodes_success_result_with_payload() {
    let response_type = CommandResult::SUCCESS;
    let data: Vec<u8> = "cached data".to_string().as_bytes().to_vec();

    let mut bytes = vec![];
    bytes.extend("success".to_string().as_bytes());
    bytes.push(b'\n');
    let mut length = vec![0; 8];
    BigEndian::write_u64(&mut length, data.iter().len() as u64);
    bytes.extend(length);
    bytes.push(b'\n');
    bytes.extend(data.clone());

    let mut decoder = CacheClientCodec {};
    let result = decoder.decode(&mut FrameBuf::new(bytes));

    let decoded = result.unwrap().unwrap();
    assert_eq!(decoded.response_type, response_type);
    assert_eq!(decoded.length, data.iter().len() as u64);
    assert_eq!(decoded.data, data);
}

#[test]
fn decodes_success_result_with_no_payload() {
    let response_type = CommandResult::SUCCESS;
    let data: Vec<u8> = vec![];

    let mut bytes = vec![];
    bytes.extend("success".to_string().as_bytes());
    bytes.push(b'\n');
    let mut length = vec![0; 8];
    BigEndian::write_u64(&mut length, data.iter().len() as u64);
    bytes.extend(length);
    bytes.push(b'\n');
    bytes.extend(data.clone());

    let mut decoder = CacheClientCodec {};
    let result = decoder.decode(&mut FrameBuf::new(bytes));

    let decoded = result.unwrap().unwrap();
    assert_eq!(decoded.response_type, response_type);
    assert_eq!(decoded.length, data.iter().len() as u64);
    assert_eq!(decoded.data, data.clone());
}

#[test]
fn decodes_error_result() {
    let response_type = CommandResult::FAILURE;
    let data: Vec<u8> = vec![];

    let mut bytes = vec![];
    bytes.extend("failure".to_string().as_bytes());
    bytes.push(b'\n');
    let mut length = vec![0; 8];
    BigEndian::write_u64(&mut length, data.iter().len() as u64);
    bytes.extend(length);
    bytes.push(b'\n');
    bytes.extend(data.clone());

    let mut decoder = CacheClientCodec {};
    let result = decoder.decode(&mut FrameBuf::new(bytes));

    let decoded = result.unwrap().unwrap();
    assert_eq!(decoded.response_type, response_type);
    assert_eq!(decoded.length, data.iter().len() as u64);
    assert_eq!(decoded.data, data);
}

#[test]
fn cache_command_symmetry() {
    let command = CacheCommand {
        command: Command::PUT,
        key: "key".to_string(),
        value: "value".to_string().as_bytes().to_vec(),
        length: "value".to_string().into_bytes().iter().len() as u64,
    };

    let mut encoder = CacheClientCodec {};
    let mut decoder = CacheServerCodec {};
    let mut bytes = vec![];

    let _ = encoder.encode(command, &mut bytes);
    let result = decoder.decode(&mut FrameBuf::new(bytes));

    let decoded = result.unwrap().unwrap();
    assert_eq!(decoded.command, Command::PUT);
    assert_eq!(decoded.key, "key".to_string());
    assert_eq!(decoded.value, "value".to_string().as_bytes().to_vec());
    assert_eq!(decoded.length, "value".to_string().into_bytes().iter().len() as u64);
}

#[test]
fn cache_result_symmetry() {
    let response = CacheResponse {
        response_type: CommandResult::SUCCESS,
        data: "cached_data".to_string().as_bytes().to_vec(),
        length: "cached_data".to_string().as_bytes().iter().len() as u64,
    };

    let mut encoder = CacheServerCodec {};
    let mut decoder = CacheClientCodec {};
    let mut bytes = vec![];

    let _ = encoder.encode(response, &mut bytes);
    let result = decoder.decode(&mut FrameBuf::new(bytes));

    let decoded = result.unwrap().unwrap();
    assert_eq!(decoded.response_type, CommandResult::SUCCESS);
    assert_eq!(decoded.data, "cached_data".to_string().as_bytes().to_vec());
    assert_eq!(decoded.length, "cached_data".to_string().as_bytes().iter().len() as u64);
}

#[test]
fn request_is_written_byte_for_byte() {
    let command = CacheCommand {
        command: Command::PUT,
        key: "key".to_string(),
        length: 5,
        value: b"value".to_vec(),
    };
    let mut bytes = vec![];
    assert!(CacheClientCodec {}.encode(command, &mut bytes).is_ok());
    assert_eq!(bytes, b"put\nkey\n\x00\x00\x00\x00\x00\x00\x00\x05\nvalue".to_vec());
}

#[test]
fn request_is_written_behind_what_is_there() {
    let command = CacheCommand {
        command: Command::GET,
        key: "k".to_string(),
        length: 0,
        value: vec![],
    };
    let mut bytes = b"xy".to_vec();
    assert!(CacheClientCodec {}.encode(command, &mut bytes).is_ok());
    assert_eq!(bytes, b"xyget\nk\n\x00\x00\x00\x00\x00\x00\x00\x00\n".to_vec());
}

#[test]
fn key_is_written_in_utf8() {
    let command = CacheCommand {
        command: Command::GET,
        key: "\u{e9}".to_string(),
        length: 0,
        value: vec![],
    };
    let mut bytes = vec![];
    assert!(CacheClientCodec {}.encode(command, &mut bytes).is_ok());
    assert_eq!(bytes, b"get\n\xc3\xa9\n\x00\x00\x00\x00\x00\x00\x00\x00\n".to_vec());
}

#[test]
fn response_with_unknown_word_is_malformed() {
    let mut buf = FrameBuf::new(b"maybe\n\x00\x00\x00\x00\x00\x00\x00\x00\n".to_vec());
    let result = CacheClientCodec {}.decode(&mut buf);
    assert_eq!(result.err(), Some(FrameError::UnknownWord));
    assert_eq!(buf.len(), 15);
}

#[test]
fn response_with_short_length_is_malformed() {
    let mut buf = FrameBuf::new(b"success\n\x00\x00\x05\n12345".to_vec());
    let result = CacheClientCodec {}.decode(&mut buf);
    assert_eq!(result.err(), Some(FrameError::InvalidLength));
}

#[test]
fn response_waits_for_the_rest() {
    let whole = b"failure\n\x00\x00\x00\x00\x00\x00\x00\x09\nNot Found".to_vec();
    for cut in 0..whole.len() {
        let mut buf = FrameBuf::new(whole[..cut].to_vec());
        let result = CacheClientCodec {}.decode(&mut buf);
        assert!(matches!(result, Ok(None)), "cut at {}", cut);
        assert_eq!(buf.as_slice(), &whole[..cut]);
    }
    let mut buf = FrameBuf::new(whole);
    let decoded = CacheClientCodec {}.decode(&mut buf).unwrap().unwrap();
    assert_eq!(decoded.response_type, CommandResult::FAILURE);
    assert_eq!(decoded.length, 9);
    assert_eq!(decoded.data, b"Not Found".to_vec());
    assert_eq!(buf.len(), 0);
}

#[test]
fn response_leaves_what_follows_it() {
    let mut buf = FrameBuf::new(b"success\n\x00\x00\x00\x00\x00\x00\x00\x02\nabsuccess\n".to_vec());
    let decoded = CacheClientCodec {}.decode(&mut buf).unwrap().unwrap();
    assert_eq!(decoded.data, b"ab".to_vec());
    assert_eq!(buf.as_slice(), b"success\n");
    assert!(matches!(CacheClientCodec {}.decode(&mut buf), Ok(None)));
}
