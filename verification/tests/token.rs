use rofi_taskwarrior::error::Error;
use rofi_taskwarrior::rofi::{dec, enc, info_string};
use rofi_taskwarrior::token::Info;

fn round_trip(info: Info) -> Info {
    let text = enc(info).expect("a token that can be written");
    dec(text).expect("a token that was written can be read")
}

#[test]
fn choose_round_trips() {
    assert_eq!(round_trip(Info::Choose(7)), Info::Choose(7));
}

#[test]
fn start_round_trips() {
    assert_eq!(round_trip(Info::Start(300)), Info::Start(300));
}

#[test]
fn stop_round_trips() {
    assert_eq!(round_trip(Info::Stop(0)), Info::Stop(0));
}

#[test]
fn done_round_trips() {
    assert_eq!(round_trip(Info::Done(65535)), Info::Done(65535));
}

#[test]
fn edit_round_trips() {
    assert_eq!(round_trip(Info::Edit(1)), Info::Edit(1));
}

#[test]
fn create_round_trips() {
    let text = "buy milk, \u{e9}clairs and \"quotes\"\n".to_string();
    assert_eq!(round_trip(Info::Create(text.clone())), Info::Create(text));
}

#[test]
fn create_of_empty_text_round_trips() {
    assert_eq!(round_trip(Info::Create(String::new())), Info::Create(String::new()));
}

#[test]
fn every_number_of_a_task_round_trips() {
    let mut id: u16 = 0;
    loop {
        assert_eq!(round_trip(Info::Choose(id)), Info::Choose(id));
        if id == u16::MAX {
            break;
        }
        id = id.saturating_add(257);
    }
}

#[test]
fn token_text_is_exact() {
    assert_eq!(enc(Info::Choose(7)).unwrap(), "gaZDaG9vc2UH");
    assert_eq!(enc(Info::Start(300)).unwrap(), "gaVTdGFydM0BLA==");
    assert_eq!(enc(Info::Done(65535)).unwrap(), "gaREb25lzf//");
    assert_eq!(
        enc(Info::Create("buy milk".to_string())).unwrap(),
        "gaZDcmVhdGWoYnV5IG1pbGs="
    );
}

#[test]
fn token_text_differs_from_its_bytes() {
    let text = enc(Info::Choose(7)).unwrap();
    let bytes = base64::decode(&text).unwrap();
    assert_ne!(text.as_bytes(), &bytes[..]);
    assert_eq!(bytes, vec![0x81, 0xa6, b'C', b'h', b'o', b'o', b's', b'e', 0x07]);
}

#[test]
fn token_text_is_safe_for_the_launcher() {
    let text = enc(Info::Create("a\u{1f}b\0c\nd".to_string())).unwrap();
    assert!(text
        .chars()
        .all(|c| c.is_ascii_alphanumeric() || c == '+' || c == '/' || c == '='));
}

#[test]
fn token_text_is_never_empty() {
    for info in [
        Info::Choose(0),
        Info::Create(String::new()),
        Info::Create("\u{0}".to_string()),
    ] {
        let text = enc(info).unwrap();
        assert!(!text.is_empty());
        assert_eq!(text.len() % 4, 0);
    }
    assert_eq!(enc(Info::Create(String::new())).unwrap(), "gaZDcmVhdGWg");
}

#[test]
fn info_string_leads_with_the_field_tag() {
    assert_eq!(info_string(Info::Choose(7)).unwrap(), "info\u{1f}gaZDaG9vc2UH");
}

#[test]
fn known_text_is_read() {
    assert_eq!(dec("gaZDaG9vc2UH".to_string()), Ok(Info::Choose(7)));
    assert_eq!(
        dec("gaZDcmVhdGWoYnV5IG1pbGs=".to_string()),
        Ok(Info::Create("buy milk".to_string()))
    );
}

#[test]
fn unknown_tag_is_a_decode_error() {
    // The packed record {"Bogus": 1}, in valid base64.
    assert_eq!(dec("gaVCb2d1cwE=".to_string()), Err(Error::Decode));
}

#[test]
fn unknown_tag_built_by_the_outside_crates_is_a_decode_error() {
    let mut map = serde_json::Map::new();
    map.insert("Launch".to_string(), serde_json::Value::from(3u64));
    let bytes = rmp_serde::to_vec(&serde_json::Value::Object(map)).unwrap();
    assert_eq!(dec(base64::encode(bytes)), Err(Error::Decode));
}

#[test]
fn text_that_is_no_base64_is_a_decode_error() {
    assert_eq!(dec("not base64!".to_string()), Err(Error::Decode));
    assert_eq!(dec("gaZDaG9vc2U".to_string()), Err(Error::Decode));
}

#[test]
fn empty_text_is_a_decode_error() {
    assert_eq!(dec(String::new()), Err(Error::Decode));
}

#[test]
fn bytes_that_are_no_packed_document_are_a_decode_error() {
    // 0xc1 is the one byte that MessagePack never uses.
    assert_eq!(dec(base64::encode([0xc1u8])), Err(Error::Decode));
}

#[test]
fn a_number_too_large_for_a_task_is_a_decode_error() {
    // {"Edit": 65536}
    assert_eq!(dec("gaRFZGl0zgABAAA=".to_string()), Err(Error::Decode));
}

#[test]
fn a_text_where_a_number_belongs_is_a_decode_error() {
    let mut map = serde_json::Map::new();
    map.insert("Start".to_string(), serde_json::Value::from("7"));
    let bytes = rmp_serde::to_vec(&serde_json::Value::Object(map)).unwrap();
    assert_eq!(dec(base64::encode(bytes)), Err(Error::Decode));
}

#[test]
fn a_number_where_a_text_belongs_is_a_decode_error() {
    let mut map = serde_json::Map::new();
    map.insert("Create".to_string(), serde_json::Value::from(7u64));
    let bytes = rmp_serde::to_vec(&serde_json::Value::Object(map)).unwrap();
    assert_eq!(dec(base64::encode(bytes)), Err(Error::Decode));
}

#[test]
fn two_entries_are_a_decode_error() {
    let mut map = serde_json::Map::new();
    map.insert("Start".to_string(), serde_json::Value::from(7u64));
    map.insert("Stop".to_string(), serde_json::Value::from(7u64));
    let bytes = rmp_serde::to_vec(&serde_json::Value::Object(map)).unwrap();
    assert_eq!(dec(base64::encode(bytes)), Err(Error::Decode));
}

#[test]
fn task_id_of_each_kind() {
    assert_eq!(Info::Choose(1).task_id(), Ok(1));
    assert_eq!(Info::Start(2).task_id(), Ok(2));
    assert_eq!(Info::Stop(3).task_id(), Ok(3));
    assert_eq!(Info::Done(4).task_id(), Ok(4));
    assert_eq!(Info::Edit(5).task_id(), Ok(5));
    assert_eq!(
        Info::Create("x".to_string()).task_id(),
        Err(Error::InvalidInput)
    );
}
