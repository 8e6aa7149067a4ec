use camera_client::codec::device_id_from_label;
use camera_client::codec::encode_device_select;
use camera_client::codec::parse_device_select;
use camera_client::codec::render_device_label;
use camera_client::devices::parse_device_list;

#[test]
fn encode_device_select_exact_text() {
    let id: Vec<u8> = vec![0, 255, 37];
    let encoded = encode_device_select(&id);
    let text = String::from_utf8(encoded).unwrap();
    assert_eq!(
        text,
        "{\"type\":\"select_device\",\"device_id\":{\"type\":\"Buffer\",\"data\":[0,255,37]}}"
    );
}

#[test]
fn encode_device_select_empty_id() {
    let id: Vec<u8> = vec![];
    let text = String::from_utf8(encode_device_select(&id)).unwrap();
    assert_eq!(
        text,
        "{\"type\":\"select_device\",\"device_id\":{\"type\":\"Buffer\",\"data\":[]}}"
    );
}

#[test]
fn select_round_trip_identical_bytes() {
    let id: Vec<u8> = vec![1, 2, 3];
    let encoded = encode_device_select(&id);
    let decoded = parse_device_select(&encoded).unwrap();
    assert_eq!(decoded, id);
}

#[test]
fn select_round_trip_edge_values() {
    for id in [
        vec![],
        vec![0],
        vec![255],
        vec![0, 0, 0],
        vec![9, 10, 99, 100, 199, 200, 255],
    ] {
        let encoded = encode_device_select(&id);
        let decoded = parse_device_select(&encoded).unwrap();
        assert_eq!(decoded, id);
    }
}

#[test]
fn parse_select_rejects_padded_number() {
    let text = "{\"type\":\"select_device\",\"device_id\":{\"type\":\"Buffer\",\"data\":[01]}}";
    assert!(parse_device_select(&text.as_bytes().to_vec()).is_none());
}

#[test]
fn parse_select_rejects_overlarge_number() {
    let text = "{\"type\":\"select_device\",\"device_id\":{\"type\":\"Buffer\",\"data\":[256]}}";
    assert!(parse_device_select(&text.as_bytes().to_vec()).is_none());
}

#[test]
fn parse_select_rejects_trailing_comma() {
    let text = "{\"type\":\"select_device\",\"device_id\":{\"type\":\"Buffer\",\"data\":[1,]}}";
    assert!(parse_device_select(&text.as_bytes().to_vec()).is_none());
}

#[test]
fn parse_select_rejects_other_message() {
    let text = "{\"type\":\"devices\",\"devices\":[]}";
    assert!(parse_device_select(&text.as_bytes().to_vec()).is_none());
}

#[test]
fn label_renders_like_debug_list() {
    let id: Vec<u8> = vec![1, 2, 3];
    let label = render_device_label(&id);
    assert_eq!(String::from_utf8(label).unwrap(), "[1, 2, 3]");
    let empty: Vec<u8> = vec![];
    assert_eq!(String::from_utf8(render_device_label(&empty)).unwrap(), "[]");
    let single: Vec<u8> = vec![200];
    assert_eq!(String::from_utf8(render_device_label(&single)).unwrap(), "[200]");
}

#[test]
fn label_round_trip_identical_bytes() {
    for id in [vec![], vec![7], vec![1, 2, 3], vec![0, 128, 255]] {
        let label = render_device_label(&id);
        let back = device_id_from_label(&label).unwrap();
        assert_eq!(back, id);
    }
}

#[test]
fn label_parse_rejects_malformed() {
    assert!(device_id_from_label(&b"1, 2, 3".to_vec()).is_none());
    assert!(device_id_from_label(&b"[1,2]".to_vec()).is_none());
    assert!(device_id_from_label(&b"[1, 2".to_vec()).is_none());
}

#[test]
fn device_list_single_entry() {
    let text = "{\"type\":\"devices\",\"devices\":[{\"id\":{\"type\":\"Buffer\",\"data\":[1,2,3]},\"createdAt\":\"t\"}]}";
    let list = parse_device_list(&text.as_bytes().to_vec()).unwrap();
    assert_eq!(list.len(), 1);
    assert_eq!(list[0].id, vec![1, 2, 3]);
    assert_eq!(list[0].created_at, b"t".to_vec());
}

#[test]
fn device_list_several_entries() {
    let text = "{\"type\":\"devices\",\"devices\":[{\"id\":{\"type\":\"Buffer\",\"data\":[1]},\"createdAt\":\"a\"},{\"id\":{\"type\":\"Buffer\",\"data\":[2,200]},\"createdAt\":\"2024-01-01\"}]}";
    let list = parse_device_list(&text.as_bytes().to_vec()).unwrap();
    assert_eq!(list.len(), 2);
    assert_eq!(list[0].id, vec![1]);
    assert_eq!(list[0].created_at, b"a".to_vec());
    assert_eq!(list[1].id, vec![2, 200]);
    assert_eq!(list[1].created_at, b"2024-01-01".to_vec());
}

#[test]
fn device_list_empty() {
    let text = "{\"type\":\"devices\",\"devices\":[]}";
    let list = parse_device_list(&text.as_bytes().to_vec()).unwrap();
    assert_eq!(list.len(), 0);
}

#[test]
fn device_list_rejects_trailing_comma() {
    let text = "{\"type\":\"devices\",\"devices\":[{\"id\":{\"type\":\"Buffer\",\"data\":[1]},\"createdAt\":\"a\"},]}";
    assert!(parse_device_list(&text.as_bytes().to_vec()).is_none());
}

#[test]
fn device_list_rejects_unknown_packet() {
    assert!(parse_device_list(&b"{\"type\":\"other\"}".to_vec()).is_none());
    assert!(parse_device_list(&b"not json at all".to_vec()).is_none());
    assert!(parse_device_list(&b"".to_vec()).is_none());
}
