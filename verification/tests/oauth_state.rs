use antigravity_tools::oauth_state::refresh_token_from_state;
use antigravity_tools::protobuf::find_field;
use base64::Engine;

fn field(num: u8, content: &[u8]) -> Vec<u8> {
    let mut out = vec![(num << 3) | 2];
    let mut len = content.len();
    loop {
        let b = (len & 0x7f) as u8;
        len >>= 7;
        if len == 0 {
            out.push(b);
            break;
        }
        out.push(b | 0x80);
    }
    out.extend_from_slice(content);
    out
}

fn b64(bytes: &[u8]) -> String {
    base64::engine::general_purpose::STANDARD.encode(bytes)
}

fn state_with_token(token: &[u8]) -> String {
    let inner = field(3, token);
    let f3 = b64(&inner);
    let f2 = field(1, f3.as_bytes());
    let f1 = field(2, &f2);
    let blob = field(1, &f1);
    b64(&blob)
}

#[test]
fn find_field_skips_other_fields_of_every_wire_type() {
    let mut msg = vec![0x08, 0x96, 0x01];
    msg.extend_from_slice(&[0x11, 1, 2, 3, 4, 5, 6, 7, 8]);
    msg.extend_from_slice(&[0x1d, 1, 2, 3, 4]);
    msg.extend_from_slice(&field(1, b"skip"));
    msg.extend_from_slice(&field(2, b"A"));
    msg.extend_from_slice(&field(2, b"B"));
    assert_eq!(find_field(&msg, 2), Ok(Some(b"A".to_vec())));
    assert_eq!(find_field(&msg, 1), Ok(Some(b"skip".to_vec())));
    assert_eq!(find_field(&msg, 9), Ok(None));
    assert_eq!(find_field(&[], 1), Ok(None));
}

#[test]
fn find_field_long_lengths() {
    let content = vec![7u8; 300];
    let msg = field(4, &content);
    assert_eq!(msg[1..3], [0xAC, 0x02]);
    assert_eq!(find_field(&msg, 4), Ok(Some(content)));
}

#[test]
fn find_field_errors() {
    assert_eq!(find_field(&[0x0a], 1), Err("Invalid protobuf varint".to_string()));
    assert_eq!(find_field(&[0x80], 1), Err("Invalid protobuf varint".to_string()));
    assert_eq!(find_field(&[0x80; 11], 1), Err("Invalid protobuf varint".to_string()));
    assert_eq!(
        find_field(&[0x0a, 0x05, 1], 1),
        Err("Protobuf field runs past the end of the message".to_string())
    );
    assert_eq!(
        find_field(&[0x09, 1, 2], 1),
        Err("Protobuf field runs past the end of the message".to_string())
    );
    assert_eq!(find_field(&[0x0b], 1), Err("Unsupported protobuf wire type".to_string()));
}

#[test]
fn refresh_token_extracted_through_both_layers() {
    assert_eq!(refresh_token_from_state(&state_with_token(b"1//0gTok-en")), Ok("1//0gTok-en".to_string()));
}

#[test]
fn refresh_token_errors_name_the_failing_step() {
    assert!(refresh_token_from_state("!!!").unwrap_err().starts_with("Base64 decode failed: "));
    assert_eq!(refresh_token_from_state(""), Err("Field 1 not found".to_string()));
    assert_eq!(refresh_token_from_state(&b64(&field(1, &field(5, b"x")))), Err("Field 2 not found".to_string()));
    assert_eq!(
        refresh_token_from_state(&b64(&field(1, &field(2, &field(4, b"x"))))),
        Err("Field 1 inner not found".to_string())
    );
    assert_eq!(
        refresh_token_from_state(&b64(&field(1, &field(2, &field(1, &[0xff]))))),
        Err("Not UTF-8".to_string())
    );
    assert!(refresh_token_from_state(&b64(&field(1, &field(2, &field(1, b"@@@@")))))
        .unwrap_err()
        .starts_with("Inner decode failed: "));
    let no_token = b64(&field(5, b"x"));
    assert_eq!(
        refresh_token_from_state(&b64(&field(1, &field(2, &field(1, no_token.as_bytes()))))),
        Err("Refresh token not found".to_string())
    );
    assert_eq!(refresh_token_from_state(&state_with_token(&[0xc0, 0x80])), Err("Refresh token not UTF-8".to_string()));
    assert_eq!(refresh_token_from_state(&b64(&[0x0b])), Err("Unsupported protobuf wire type".to_string()));
}
