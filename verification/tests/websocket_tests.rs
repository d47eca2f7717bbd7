use quake_lights::websocket::{led_message, PixelData, TopicsRequest};

#[test]
fn message_lists_bytes_in_decimal() {
    assert_eq!(led_message(&vec![0, 7, 255, 10, 99, 100]), "[0,7,255,10,99,100]");
}

#[test]
fn message_of_single_byte() {
    assert_eq!(led_message(&vec![42]), "[42]");
}

#[test]
fn message_of_no_bytes() {
    assert_eq!(led_message(&vec![]), "[]");
}

#[test]
fn plain_types_hold_their_fields() {
    let p = PixelData { data: vec![1, 2] };
    assert_eq!(led_message(&p.data), "[1,2]");
    let t = TopicsRequest { topics: vec!["quakes".to_string()] };
    assert_eq!(t.topics, vec!["quakes".to_string()]);
}
