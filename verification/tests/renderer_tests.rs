use quake_lights::renderer::BufferDimensions;

#[test]
fn dimensions_of_thirty_pixel_rows() {
    let dims = BufferDimensions::new(30, 30);
    assert_eq!(dims.width(), 30);
    assert_eq!(dims.height(), 30);
    assert_eq!(dims.unpadded_bytes_per_row(), 120);
    assert_eq!(dims.padded_bytes_per_row(), 256);
    assert_eq!(dims.storage_buffer_size(), 256 * 30);
}

#[test]
fn dimensions_already_aligned() {
    let dims = BufferDimensions::new(64, 2);
    assert_eq!(dims.unpadded_bytes_per_row(), 256);
    assert_eq!(dims.padded_bytes_per_row(), 256);
    let dims = BufferDimensions::new(65, 1);
    assert_eq!(dims.unpadded_bytes_per_row(), 260);
    assert_eq!(dims.padded_bytes_per_row(), 512);
}

#[test]
fn dimensions_of_empty_image() {
    let dims = BufferDimensions::new(0, 5);
    assert_eq!(dims.unpadded_bytes_per_row(), 0);
    assert_eq!(dims.padded_bytes_per_row(), 0);
    assert_eq!(dims.storage_buffer_size(), 0);
}

fn padded_image(dims: &BufferDimensions) -> Vec<u8> {
    let mut data = Vec::new();
    for row in 0..dims.height() {
        for col in 0..dims.padded_bytes_per_row() {
            if col < dims.unpadded_bytes_per_row() {
                data.push(((row * 7 + col) % 251) as u8);
            } else {
                data.push(0xEE);
            }
        }
    }
    data
}

#[test]
fn unpad_drops_only_padding() {
    let dims = BufferDimensions::new(30, 3);
    let data = padded_image(&dims);
    let out = dims.unpad_rows(&data);
    assert_eq!(out.len(), 3 * 120);
    for row in 0..3 {
        for col in 0..120 {
            assert_eq!(out[row * 120 + col], data[row * 256 + col]);
        }
    }
    assert!(!out.contains(&0xEE));
}

#[test]
fn unpad_keeps_short_last_row() {
    let dims = BufferDimensions::new(30, 2);
    let mut data = padded_image(&dims);
    data.truncate(256 + 130);
    let out = dims.unpad_rows(&data);
    assert_eq!(out.len(), 240);
    assert_eq!(&out[120..], &data[256..376]);
}

#[test]
fn unpad_of_nothing_is_nothing() {
    let dims = BufferDimensions::new(30, 0);
    assert_eq!(dims.unpad_rows(&[]), Vec::<u8>::new());
}

#[test]
fn unpad_of_aligned_rows_is_identity() {
    let dims = BufferDimensions::new(64, 2);
    let data = padded_image(&dims);
    assert_eq!(dims.unpad_rows(&data), data);
}
