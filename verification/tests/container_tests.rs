use image_to_yt::container::{write_image, ContainerWriter};
use image_to_yt::image_data::ImageData;
use image_to_yt::image_format::{EncodeError, ImageFormat};

fn read_u32_le(bytes: &[u8], off: usize) -> u32 {
    bytes[off] as u32
        + 256 * bytes[off + 1] as u32
        + 65536 * bytes[off + 2] as u32
        + 16777216 * bytes[off + 3] as u32
}

fn solid_image(w: usize, h: usize, rgba: [u8; 4]) -> ImageData {
    let mut data = Vec::new();
    for _ in 0..w * h {
        data.extend_from_slice(&rgba);
    }
    ImageData { width: w, height: h, data }
}

#[test]
fn header_layout() {
    let img = solid_image(6, 6, [9, 9, 9, 9]);
    let writer = write_image(img, ImageFormat::Bc1, 0).unwrap();
    let bytes = writer.into_bytes();
    assert_eq!(&bytes[0..4], b"yave");
    assert_eq!(read_u32_le(&bytes, 4), 2); // image type
    assert_eq!(read_u32_le(&bytes, 8), 1); // format revision
    assert_eq!(read_u32_le(&bytes, 12), 6); // width
    assert_eq!(read_u32_le(&bytes, 16), 6); // height
    assert_eq!(read_u32_le(&bytes, 24), 2); // BC1 identifier
}

#[test]
fn six_by_six_bc1_chain() {
    // Levels (6,6) -> (3,3) -> (1,1): payloads of 32, 8 and 8 bytes and a
    // patched count of 3.
    let img = solid_image(6, 6, [0, 0, 0, 255]);
    let writer = write_image(img, ImageFormat::Bc1, 0).unwrap();
    assert_eq!(writer.mips, 3);
    let bytes = writer.into_bytes();
    assert_eq!(read_u32_le(&bytes, 20), 3);
    assert_eq!(bytes.len(), 28 + 32 + 8 + 8);
}

#[test]
fn header_round_trip_after_run() {
    // Reading the header back gives the count of levels actually appended
    // and the base dimensions of the first write.
    let img = solid_image(16, 16, [1, 2, 3, 4]);
    let writer = write_image(img, ImageFormat::Rgba8, 0).unwrap();
    let mips = writer.mips;
    let bytes = writer.into_bytes();
    assert_eq!(mips, 5); // 16, 8, 4, 2, 1
    assert_eq!(read_u32_le(&bytes, 20), mips);
    assert_eq!(read_u32_le(&bytes, 12), 16);
    assert_eq!(read_u32_le(&bytes, 16), 16);
    let payload_len: usize = [16usize, 8, 4, 2, 1].iter().map(|d| d * d * 4).sum();
    assert_eq!(bytes.len(), 28 + payload_len);
}

#[test]
fn early_termination_keeps_written_levels() {
    // A codec made to fail on level 2 of a 5-level chain: the writer is
    // stopped after the two successful levels, and the container holds a
    // count of 2 and no byte of level 2 onward.
    let levels: Vec<Vec<u8>> = vec![vec![0xAA; 64], vec![0xBB; 16], vec![0xCC; 4]];
    let mut writer = ContainerWriter::new(4, 4, 7);
    for (i, payload) in levels.iter().enumerate() {
        let encode_result: Result<Vec<u8>, ()> = if i == 2 { Err(()) } else { Ok(payload.clone()) };
        match encode_result {
            Ok(p) => writer.append_level(p),
            Err(_) => break,
        }
    }
    writer.patch_mip_count();
    assert_eq!(writer.mips, 2);
    let bytes = writer.into_bytes();
    assert_eq!(read_u32_le(&bytes, 20), 2);
    assert_eq!(bytes.len(), 28 + 64 + 16);
    assert_eq!(&bytes[28..92], &[0xAA; 64][..]);
    assert_eq!(&bytes[92..108], &[0xBB; 16][..]);
}

#[test]
fn base_level_failure_is_fatal() {
    // A failing encode on level 0 fails the whole operation: no container.
    let img = ImageData { width: 0, height: 5, data: Vec::new() };
    match write_image(img, ImageFormat::Bc1, 0) {
        Err(EncodeError::EmptyImage) => {},
        other => panic!("expected a fatal base-level error, got {:?}", other.map(|w| w.mips)),
    }
    let img = ImageData { width: 2, height: 2, data: vec![0; 3] };
    assert!(write_image(img, ImageFormat::Rgba8, 0).is_err());
}

#[test]
fn placeholder_is_zero_until_patch() {
    let mut writer = ContainerWriter::new(8, 8, 1);
    assert_eq!(read_u32_le(&writer.bytes, 20), 0);
    writer.append_level(vec![1, 2, 3]);
    assert_eq!(read_u32_le(&writer.bytes, 20), 0);
    writer.patch_mip_count();
    assert_eq!(read_u32_le(&writer.bytes, 20), 1);
}

#[test]
fn whole_container_is_reproducible() {
    // Two full runs over the same input give byte-identical containers.
    let mut data = Vec::new();
    for i in 0..7 * 5 {
        data.extend_from_slice(&[(i * 3) as u8, (i * 5) as u8, (i * 11) as u8, 255]);
    }
    let a = write_image(
        ImageData { width: 7, height: 5, data: data.clone() },
        ImageFormat::Bc5,
        0,
    )
    .unwrap()
    .into_bytes();
    let b = write_image(
        ImageData { width: 7, height: 5, data },
        ImageFormat::Bc5,
        42,
    )
    .unwrap()
    .into_bytes();
    assert_eq!(a, b);
}
