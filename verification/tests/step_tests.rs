use proxy::random_salt_step::parse_salt_config;
use proxy::text::{bytes_equal, parse_unsigned, split, to_lower, trim};
use proxy::{Base64, BoxedClone, IOError, PipelineDirection, PipelineStep, RSult, Read};

#[test]
fn base64_forward_step_encodes_payload() {
    let mut step = Base64::new(Some("fw"));
    step.set_pipeline_direction(PipelineDirection::Forward);
    let n = step.write(b"AB").unwrap();
    assert_eq!(n, 3);
    assert_eq!(step.len().unwrap(), 3);
    assert_eq!(step.read().unwrap(), b"QUI".to_vec());
    assert_eq!(step.len().unwrap(), 0);
    assert_eq!(step.read().unwrap(), Vec::<u8>::new());
}

#[test]
fn base64_backward_pass_decodes() {
    let mut step = Base64::new(Some("fw"));
    step.set_pipeline_direction(PipelineDirection::Backward);
    assert_eq!(step.write(b"cGluZw").unwrap(), 4);
    assert_eq!(step.read().unwrap(), b"ping".to_vec());
}

#[test]
fn base64_backward_mode_swaps_the_transforms() {
    let mut step = Base64::new(Some("bw"));
    step.set_pipeline_direction(PipelineDirection::Forward);
    step.write(b"aGVsbG8").unwrap();
    assert_eq!(step.read().unwrap(), b"hello".to_vec());
    step.set_pipeline_direction(PipelineDirection::Backward);
    step.write(b"hello").unwrap();
    assert_eq!(step.read().unwrap(), b"aGVsbG8".to_vec());
}

#[test]
fn base64_invalid_input_is_parse_error_and_leaves_buffer() {
    let mut step = Base64::new(Some("fw"));
    step.set_pipeline_direction(PipelineDirection::Backward);
    step.write(b"QUI").unwrap();
    assert!(matches!(step.write(b"QUI\n"), Err(IOError::ParseError)));
    assert!(matches!(step.write(b"~~~~"), Err(IOError::ParseError)));
    assert!(matches!(step.write(b"Q"), Err(IOError::ParseError)));
    assert!(matches!(step.write(b"QUI="), Err(IOError::ParseError)));
    assert!(matches!(step.write(b"QUJ"), Err(IOError::ParseError)));
    assert_eq!(step.read().unwrap(), b"AB".to_vec());
}

#[test]
fn base64_buffers_do_not_mix() {
    let mut step = Base64::new(Some("fw"));
    step.set_pipeline_direction(PipelineDirection::Forward);
    step.write(b"A").unwrap();
    step.set_pipeline_direction(PipelineDirection::Backward);
    assert_eq!(step.len().unwrap(), 0);
    step.write(b"QUJD").unwrap();
    assert_eq!(step.read().unwrap(), b"ABC".to_vec());
    step.set_pipeline_direction(PipelineDirection::Forward);
    assert_eq!(step.read().unwrap(), b"QQ".to_vec());
}

#[test]
fn base64_clone_is_fresh() {
    let mut step = Base64::new(Some("bw"));
    step.set_pipeline_direction(PipelineDirection::Backward);
    step.write(b"AB").unwrap();
    let mut copy = step.bclone();
    assert_eq!(copy.len().unwrap(), 0);
    copy.set_pipeline_direction(PipelineDirection::Backward);
    copy.write(b"AB").unwrap();
    assert_eq!(copy.read().unwrap(), b"QUI".to_vec());
    assert_eq!(step.read().unwrap(), b"QUI".to_vec());
}

#[test]
fn base64_config_modes() {
    assert_eq!(Base64::parse_mode("fw"), Some(PipelineDirection::Forward));
    assert_eq!(Base64::parse_mode("bw"), Some(PipelineDirection::Backward));
    assert_eq!(Base64::parse_mode("sideways"), None);
    assert_eq!(Base64::parse_mode(""), None);
}

#[test]
fn salt_forward_adds_prefix_and_backward_removes_it() {
    let mut step = RSult::new(Some("fw-4"));
    assert_eq!(step.salt_length(), 4);
    step.set_pipeline_direction(PipelineDirection::Forward);
    assert_eq!(step.write(b"data").unwrap(), 8);
    let salted = step.read().unwrap();
    assert_eq!(salted.len(), 8);
    assert_eq!(&salted[4..], b"data");
    step.set_pipeline_direction(PipelineDirection::Backward);
    assert_eq!(step.write(&salted).unwrap(), 4);
    assert_eq!(step.read().unwrap(), b"data".to_vec());
}

#[test]
fn salt_write_reports_total_pending() {
    let mut step = RSult::new(Some("fw-2"));
    step.set_pipeline_direction(PipelineDirection::Forward);
    assert_eq!(step.write(b"abc").unwrap(), 5);
    assert_eq!(step.write(b"de").unwrap(), 9);
    assert_eq!(step.len().unwrap(), 9);
}

#[test]
fn salt_short_input_is_parse_error() {
    let mut step = RSult::new(Some("bw-5"));
    step.set_pipeline_direction(PipelineDirection::Forward);
    assert!(matches!(step.write(b"abcd"), Err(IOError::ParseError)));
    assert_eq!(step.len().unwrap(), 0);
    assert_eq!(step.write(b"abcde").unwrap(), 0);
    assert_eq!(step.write(b"abcdefg").unwrap(), 2);
    assert_eq!(step.read().unwrap(), b"fg".to_vec());
}

#[test]
fn salt_clone_keeps_configuration() {
    let mut step = RSult::new(Some("bw-3"));
    step.set_pipeline_direction(PipelineDirection::Backward);
    step.write(b"x").unwrap();
    let mut copy = step.bclone();
    assert_eq!(copy.salt_length(), 3);
    assert_eq!(copy.len().unwrap(), 0);
    copy.set_pipeline_direction(PipelineDirection::Backward);
    assert_eq!(copy.write(b"x").unwrap(), 4);
}

#[test]
fn salt_config_grammar() {
    assert_eq!(parse_salt_config(b"fw-16"), Some((PipelineDirection::Forward, 16)));
    assert_eq!(parse_salt_config(b"bw-0"), Some((PipelineDirection::Backward, 0)));
    assert_eq!(parse_salt_config(b"fw-+7"), Some((PipelineDirection::Forward, 7)));
    assert_eq!(parse_salt_config(b"fw-007"), Some((PipelineDirection::Forward, 7)));
    assert_eq!(parse_salt_config(b"fw"), None);
    assert_eq!(parse_salt_config(b"fw-"), None);
    assert_eq!(parse_salt_config(b"fw-1-2"), None);
    assert_eq!(parse_salt_config(b"up-4"), None);
    assert_eq!(parse_salt_config(b"fw-4x"), None);
    assert_eq!(parse_salt_config(b"-4"), None);
    assert_eq!(parse_salt_config(b"fw-99999999999999999999999999"), None);
}

#[test]
fn unsigned_numbers() {
    assert_eq!(parse_unsigned(b"0"), Some(0));
    assert_eq!(parse_unsigned(b"1024"), Some(1024));
    assert_eq!(parse_unsigned(b"+5"), Some(5));
    assert_eq!(parse_unsigned(b""), None);
    assert_eq!(parse_unsigned(b"+"), None);
    assert_eq!(parse_unsigned(b"-5"), None);
    assert_eq!(parse_unsigned(b"12a"), None);
    assert_eq!(parse_unsigned(b" 12"), None);
    assert_eq!(parse_unsigned(usize::MAX.to_string().as_bytes()), Some(usize::MAX));
    assert_eq!(parse_unsigned(b"18446744073709551616"), None);
}

#[test]
fn byte_text_helpers() {
    assert!(bytes_equal(b"abc", b"abc"));
    assert!(!bytes_equal(b"abc", b"abd"));
    assert!(!bytes_equal(b"abc", b"ab"));
    assert_eq!(to_lower(b"Sec-WebSocket-Key_09"), b"sec-websocket-key_09".to_vec());
    assert_eq!(trim(b" \t value \t "), b"value".to_vec());
    assert_eq!(trim(b"   "), Vec::<u8>::new());
    assert_eq!(trim(b"a b"), b"a b".to_vec());
    assert_eq!(split(b"a,b,,c", b','), vec![b"a".to_vec(), b"b".to_vec(), vec![], b"c".to_vec()]);
    assert_eq!(split(b"", b','), vec![Vec::<u8>::new()]);
    assert_eq!(split(b",", b','), vec![Vec::<u8>::new(), Vec::<u8>::new()]);
}

#[test]
fn steps_made_from_a_direction() {
    let mut codec = Base64::with_mode(PipelineDirection::Backward);
    codec.set_pipeline_direction(PipelineDirection::Backward);
    codec.write(b"AB").unwrap();
    assert_eq!(codec.read().unwrap(), b"QUI".to_vec());
    let mut salt = RSult::with_mode(PipelineDirection::Forward, 3);
    assert_eq!(salt.salt_length(), 3);
    assert_eq!(salt.write(b"ab").unwrap(), 5);
    assert_eq!(salt.len().unwrap(), 5);
}

#[test]
fn start_changes_nothing_in_a_transform() {
    let mut codec = Base64::new(Some("fw"));
    codec.write(b"A").unwrap();
    codec.start();
    codec.start();
    assert_eq!(codec.read().unwrap(), b"QQ".to_vec());
    let mut salt = RSult::new(Some("bw-1"));
    salt.write(b"xyz").unwrap();
    salt.start();
    assert_eq!(salt.read().unwrap(), b"yz".to_vec());
}
