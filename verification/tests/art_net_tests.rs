use quake_lights::art_net::{output_packet, ArtNetError};

const HEADER: [u8; 8] = [0x41, 0x72, 0x74, 0x2d, 0x4e, 0x65, 0x74, 0x00];

#[test]
fn packet_for_odd_frame() {
    let bytes = output_packet(vec![1, 2, 3]).unwrap();
    let mut expected = HEADER.to_vec();
    expected.extend_from_slice(&[0x00, 0x50, 0, 14, 0, 0, 1, 0, 0, 4, 1, 2, 3, 0]);
    assert_eq!(bytes, expected);
}

#[test]
fn packet_for_even_frame() {
    let bytes = output_packet(vec![9, 8]).unwrap();
    let mut expected = HEADER.to_vec();
    expected.extend_from_slice(&[0x00, 0x50, 0, 14, 0, 0, 1, 0, 0, 2, 9, 8]);
    assert_eq!(bytes, expected);
}

#[test]
fn packet_for_full_universe() {
    let data: Vec<u8> = (0..512).map(|i| (i % 256) as u8).collect();
    let bytes = output_packet(data.clone()).unwrap();
    assert_eq!(bytes.len(), 18 + 512);
    assert_eq!(&bytes[16..18], &[2, 0]);
    assert_eq!(&bytes[18..], &data[..]);
}

#[test]
fn packet_carries_data_at_offset_eighteen() {
    let data: Vec<u8> = (0..301).map(|i| (i * 3 % 256) as u8).collect();
    let bytes = output_packet(data.clone()).unwrap();
    assert_eq!(&bytes[0..8], &HEADER);
    assert_eq!(bytes.len(), 18 + 302);
    assert_eq!(bytes[16] as usize * 256 + bytes[17] as usize, 302);
    assert_eq!(&bytes[18..18 + 301], &data[..]);
    assert_eq!(bytes[18 + 301], 0);
}

#[test]
fn empty_frame_is_refused() {
    assert_eq!(output_packet(vec![]), Err(ArtNetError::InvalidDataLength));
}

#[test]
fn oversized_frame_is_refused() {
    assert_eq!(output_packet(vec![0; 513]), Err(ArtNetError::InvalidDataLength));
}
