use implink::codec::{parse_mapping_file, write_mapping_file, MappingRecord};
use implink::errors::CodecError;

fn rec(src: &str, dst: &str, force: bool, junction: bool) -> MappingRecord {
    MappingRecord {
        src: src.as_bytes().to_vec(),
        dst: dst.as_bytes().to_vec(),
        force,
        junction,
    }
}

fn same_records(a: &[MappingRecord], b: &[MappingRecord]) -> bool {
    a.len() == b.len()
        && a.iter().zip(b.iter()).all(|(x, y)| {
            x.src == y.src && x.dst == y.dst && x.force == y.force && x.junction == y.junction
        })
}

#[test]
fn single_record_pretty_text() {
    let records = vec![rec("/tmp/a", "/tmp/b", true, false)];
    let out = write_mapping_file(&records);
    let text = String::from_utf8(out).unwrap();
    let expected = "{\n  \"mapping\": [\n    {\n      \"src\": \"/tmp/a\",\n      \"dst\": \"/tmp/b\",\n      \"force\": true,\n      \"junction\": false\n    }\n  ]\n}";
    assert_eq!(text, expected);
}

#[test]
fn empty_list_pretty_text() {
    let records: Vec<MappingRecord> = Vec::new();
    let out = write_mapping_file(&records);
    assert_eq!(String::from_utf8(out).unwrap(), "{\n  \"mapping\": []\n}");
}

#[test]
fn writer_output_is_valid_json() {
    let records = vec![rec("/tmp/with \"quote\"", "/tmp/back\\slash", false, true)];
    let out = write_mapping_file(&records);
    let text = String::from_utf8(out).unwrap();
    let value: serde_json::Value = serde_json::from_str(&text).unwrap();
    let entry = &value["mapping"][0];
    assert_eq!(entry["src"].as_str().unwrap(), "/tmp/with \"quote\"");
    assert_eq!(entry["dst"].as_str().unwrap(), "/tmp/back\\slash");
    assert_eq!(entry["force"].as_bool().unwrap(), false);
    assert_eq!(entry["junction"].as_bool().unwrap(), true);
}

#[test]
fn round_trip_single() {
    let records = vec![rec("/home/u/file.txt", "/mnt/store/file.txt", false, false)];
    let out = write_mapping_file(&records);
    let back = parse_mapping_file(&out).unwrap();
    assert!(same_records(&records, &back));
}

#[test]
fn round_trip_many_preserves_order() {
    let records = vec![
        rec("/a", "/b", true, false),
        rec("/c", "/d", false, true),
        rec("/e", "/f", true, true),
    ];
    let out = write_mapping_file(&records);
    let back = parse_mapping_file(&out).unwrap();
    assert!(same_records(&records, &back));
    assert_eq!(back[0].src, b"/a".to_vec());
    assert_eq!(back[2].dst, b"/f".to_vec());
}

#[test]
fn round_trip_empty() {
    let records: Vec<MappingRecord> = Vec::new();
    let out = write_mapping_file(&records);
    let back = parse_mapping_file(&out).unwrap();
    assert!(back.is_empty());
}

#[test]
fn round_trip_awkward_bytes() {
    let mut src = b"/tmp/\"q\"\\\n\t".to_vec();
    src.push(1);
    src.push(31);
    let mut dst = "/tmp/ünïcødé".as_bytes().to_vec();
    dst.push(13);
    let records = vec![MappingRecord { src: src.clone(), dst: dst.clone(), force: true, junction: false }];
    let out = write_mapping_file(&records);
    let back = parse_mapping_file(&out).unwrap();
    assert_eq!(back.len(), 1);
    assert_eq!(back[0].src, src);
    assert_eq!(back[0].dst, dst);
}

#[test]
fn control_bytes_escape_as_json() {
    let mut src = Vec::new();
    src.push(1u8);
    let records = vec![MappingRecord { src, dst: b"/d".to_vec(), force: false, junction: false }];
    let out = write_mapping_file(&records);
    let text = String::from_utf8(out).unwrap();
    assert!(text.contains("\\u0001"));
    let value: serde_json::Value = serde_json::from_str(&text).unwrap();
    assert_eq!(value["mapping"][0]["src"].as_str().unwrap(), "\u{1}");
}

#[test]
fn parse_accepts_loose_whitespace() {
    let text = "  {  \"mapping\" :\n[ { \"src\" : \"/a\" , \"dst\" : \"/b\" , \"force\" : false , \"junction\" : true } ]\n }  ";
    let back = parse_mapping_file(&text.as_bytes().to_vec()).unwrap();
    assert_eq!(back.len(), 1);
    assert_eq!(back[0].src, b"/a".to_vec());
    assert_eq!(back[0].dst, b"/b".to_vec());
    assert!(!back[0].force);
    assert!(back[0].junction);
}

#[test]
fn parse_accepts_unicode_escape() {
    let text = "{\"mapping\":[{\"src\":\"\\u0041\",\"dst\":\"/b\",\"force\":true,\"junction\":false}]}";
    let back = parse_mapping_file(&text.as_bytes().to_vec()).unwrap();
    assert_eq!(back[0].src, b"A".to_vec());
}

#[test]
fn parse_rejects_missing_field() {
    let text = "{\"mapping\":[{\"src\":\"/a\",\"dst\":\"/b\",\"force\":true}]}";
    let r = parse_mapping_file(&text.as_bytes().to_vec());
    assert!(matches!(r, Err(CodecError::ParseFailed)));
}

#[test]
fn parse_rejects_unknown_field() {
    let text = "{\"mapping\":[{\"src\":\"/a\",\"dst\":\"/b\",\"force\":true,\"extra\":1,\"junction\":false}]}";
    let r = parse_mapping_file(&text.as_bytes().to_vec());
    assert!(matches!(r, Err(CodecError::ParseFailed)));
}

#[test]
fn parse_rejects_wrong_top_key() {
    let text = "{\"mappings\":[]}";
    let r = parse_mapping_file(&text.as_bytes().to_vec());
    assert!(matches!(r, Err(CodecError::ParseFailed)));
}

#[test]
fn parse_rejects_bad_escape() {
    let text = "{\"mapping\":[{\"src\":\"\\q\",\"dst\":\"/b\",\"force\":true,\"junction\":false}]}";
    let r = parse_mapping_file(&text.as_bytes().to_vec());
    assert!(matches!(r, Err(CodecError::ParseFailed)));
}

#[test]
fn parse_rejects_trailing_text() {
    let text = "{\"mapping\":[]} x";
    let r = parse_mapping_file(&text.as_bytes().to_vec());
    assert!(matches!(r, Err(CodecError::ParseFailed)));
}

#[test]
fn parse_rejects_unterminated_string() {
    let text = "{\"mapping\":[{\"src\":\"/a";
    let r = parse_mapping_file(&text.as_bytes().to_vec());
    assert!(matches!(r, Err(CodecError::ParseFailed)));
}

#[test]
fn parse_rejects_raw_control_byte() {
    let mut bytes = b"{\"mapping\":[{\"src\":\"".to_vec();
    bytes.push(7);
    bytes.extend_from_slice(b"\",\"dst\":\"/b\",\"force\":true,\"junction\":false}]}");
    let r = parse_mapping_file(&bytes);
    assert!(matches!(r, Err(CodecError::ParseFailed)));
}

#[test]
fn parse_rejects_plain_garbage() {
    let r = parse_mapping_file(&b"not a mapping".to_vec());
    assert!(matches!(r, Err(CodecError::ParseFailed)));
}

#[test]
fn parse_rejects_reordered_fields() {
    let text = "{\"mapping\":[{\"dst\":\"/b\",\"src\":\"/a\",\"force\":true,\"junction\":false}]}";
    let r = parse_mapping_file(&text.as_bytes().to_vec());
    assert!(matches!(r, Err(CodecError::ParseFailed)));
}

#[test]
fn parse_rejects_wide_unicode_escape() {
    let text = "{\"mapping\":[{\"src\":\"\\u0080\",\"dst\":\"/b\",\"force\":true,\"junction\":false}]}";
    let r = parse_mapping_file(&text.as_bytes().to_vec());
    assert!(matches!(r, Err(CodecError::ParseFailed)));
}
