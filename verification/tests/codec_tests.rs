use image_to_yt::image_data::ImageData;
use image_to_yt::image_format::{EncodeError, ImageFormat};

fn solid_image(w: usize, h: usize, rgba: [u8; 4]) -> ImageData {
    let mut data = Vec::new();
    for _ in 0..w * h {
        data.extend_from_slice(&rgba);
    }
    ImageData { width: w, height: h, data }
}

#[test]
fn format_identifiers_are_stable() {
    assert_eq!(ImageFormat::Rgba8.id(), 1);
    assert_eq!(ImageFormat::Bc1.id(), 2);
    assert_eq!(ImageFormat::Bc5.id(), 3);
    // A second call reports the same tag.
    assert_eq!(ImageFormat::Bc1.id(), ImageFormat::Bc1.id());
}

#[test]
fn rgba8_is_passthrough() {
    let img = solid_image(3, 2, [10, 20, 30, 40]);
    let payload = ImageFormat::Rgba8.encode(&img, 0).unwrap();
    assert_eq!(payload, img.data);
    assert_eq!(payload.len(), 3 * 2 * 4);
}

#[test]
fn bc1_payload_len_is_deterministic() {
    // ceil(w/4) * ceil(h/4) * 8, including non-multiple-of-4 dimensions.
    for &(w, h, expected) in &[(1, 1, 8), (3, 5, 16), (4, 4, 8), (6, 6, 32), (9, 2, 24)] {
        let img = solid_image(w, h, [1, 2, 3, 4]);
        let payload = ImageFormat::Bc1.encode(&img, 0).unwrap();
        assert_eq!(payload.len(), expected, "bc1 {}x{}", w, h);
    }
}

#[test]
fn bc5_payload_len_is_deterministic() {
    // ceil(w/4) * ceil(h/4) * 16, including non-multiple-of-4 dimensions.
    for &(w, h, expected) in &[(1, 1, 16), (3, 5, 32), (4, 4, 16), (6, 6, 64)] {
        let img = solid_image(w, h, [1, 2, 3, 4]);
        let payload = ImageFormat::Bc5.encode(&img, 0).unwrap();
        assert_eq!(payload.len(), expected, "bc5 {}x{}", w, h);
    }
}

#[test]
fn bc1_solid_block_bytes() {
    // A solid white block: both endpoints are white in RGB565 (0xFFFF) and
    // every index byte is zero.
    let img = solid_image(4, 4, [255, 255, 255, 255]);
    let payload = ImageFormat::Bc1.encode(&img, 0).unwrap();
    assert_eq!(payload, vec![0xFF, 0xFF, 0xFF, 0xFF, 0, 0, 0, 0]);
}

#[test]
fn bc1_two_tone_block_bytes() {
    // Top half black, bottom half white: endpoints 0x0000 and 0xFFFF, the
    // eight dark texels pick index 1, the eight bright ones index 0.
    let mut data = Vec::new();
    for _ in 0..8 {
        data.extend_from_slice(&[0, 0, 0, 255]);
    }
    for _ in 0..8 {
        data.extend_from_slice(&[255, 255, 255, 255]);
    }
    let img = ImageData { width: 4, height: 4, data };
    let payload = ImageFormat::Bc1.encode(&img, 0).unwrap();
    assert_eq!(payload, vec![0xFF, 0xFF, 0x00, 0x00, 0x55, 0x55, 0x00, 0x00]);
}

#[test]
fn bc5_solid_block_bytes() {
    // A solid block: per channel both endpoints are the channel value and
    // every index byte is zero.
    let img = solid_image(4, 4, [200, 60, 0, 255]);
    let payload = ImageFormat::Bc5.encode(&img, 0).unwrap();
    let mut expected = vec![200, 200, 0, 0, 0, 0, 0, 0];
    expected.extend_from_slice(&[60, 60, 0, 0, 0, 0, 0, 0]);
    assert_eq!(payload, expected);
}

#[test]
fn bc5_two_tone_block_bytes() {
    // Red channel split 0/255, green constant: the red half uses indices 1
    // (low) and 0 (high), the green half is flat.
    let mut data = Vec::new();
    for _ in 0..8 {
        data.extend_from_slice(&[0, 7, 0, 255]);
    }
    for _ in 0..8 {
        data.extend_from_slice(&[255, 7, 0, 255]);
    }
    let img = ImageData { width: 4, height: 4, data };
    let payload = ImageFormat::Bc5.encode(&img, 0).unwrap();
    // Red half: e0 = 255, e1 = 0; texels 0..7 index 1, texels 8..15 index 0.
    // Packed 3-bit little-endian: indices 1,1,1,1,1,1,1,1 give bytes
    // 0b01001001, 0b10010010, 0b00100100.
    let mut expected = vec![255, 0, 0x49, 0x92, 0x24, 0, 0, 0];
    expected.extend_from_slice(&[7, 7, 0, 0, 0, 0, 0, 0]);
    assert_eq!(payload, expected);
}

#[test]
fn encode_is_deterministic_across_quality() {
    let mut data = Vec::new();
    for i in 0..5 * 3 {
        data.extend_from_slice(&[i as u8, (i * 7) as u8, (255 - i) as u8, 255]);
    }
    let img = ImageData { width: 5, height: 3, data };
    for fmt in [ImageFormat::Rgba8, ImageFormat::Bc1, ImageFormat::Bc5] {
        let a = fmt.encode(&img, 0).unwrap();
        let b = fmt.encode(&img, 0).unwrap();
        let c = fmt.encode(&img, 255).unwrap();
        assert_eq!(a, b);
        assert_eq!(a, c);
    }
}

#[test]
fn encode_rejects_empty_image() {
    let img = ImageData { width: 0, height: 4, data: Vec::new() };
    assert_eq!(ImageFormat::Bc1.encode(&img, 0), Err(EncodeError::EmptyImage));
    let img = ImageData { width: 4, height: 0, data: Vec::new() };
    assert_eq!(ImageFormat::Rgba8.encode(&img, 0), Err(EncodeError::EmptyImage));
}

#[test]
fn encode_rejects_layout_mismatch() {
    let img = ImageData { width: 2, height: 2, data: vec![0; 15] };
    assert_eq!(ImageFormat::Bc5.encode(&img, 0), Err(EncodeError::LayoutMismatch));
}
