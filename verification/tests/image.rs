use recorder::image::{Image, PackedBuffer};

#[test]
fn test_packed_buffer_u8() {
    let packed_buffer = PackedBuffer::new(vec![0b11000000, 0b0011_0000, 0b11110000], 12).unwrap();
    assert_eq!(packed_buffer.u8_buffer().len(), 2);
    assert_eq!(packed_buffer.u8_buffer()[0], 0b11000000);
    assert_eq!(packed_buffer.u8_buffer()[1], 0b00001111);
}

#[test]
fn test_packed_buffer_u8_tough() {
    let packed_buffer = PackedBuffer::new(
        vec![0b10110100, 0b0011_1101, 0b10010101, 0b10110100, 0b0011_1101, 0b10010101],
        12,
    )
    .unwrap();
    assert_eq!(packed_buffer.u8_buffer().len(), 4);
    assert_eq!(packed_buffer.u8_buffer()[0], 0b10110100);
    assert_eq!(packed_buffer.u8_buffer()[1], 0b11011001);
    assert_eq!(packed_buffer.u8_buffer()[2], 0b10110100);
    assert_eq!(packed_buffer.u8_buffer()[3], 0b11011001);
}

#[test]
fn test_packed_buffer_u16() {
    let packed_buffer = PackedBuffer::new(vec![0b11000000, 0b0011_0000, 0b11110000], 12).unwrap();
    assert_eq!(packed_buffer.u16_buffer().len(), 2);
    assert_eq!(packed_buffer.u16_buffer()[0], 0b110000000011);
    assert_eq!(packed_buffer.u16_buffer()[1], 0b000011110000);
}

#[test]
fn packed_buffer_8_bit_is_the_bytes() {
    let packed_buffer = PackedBuffer::new(vec![1, 2, 250], 8).unwrap();
    assert_eq!(*packed_buffer.u8_buffer(), vec![1u8, 2, 250]);
    assert_eq!(*packed_buffer.u16_buffer(), vec![1u16, 2, 250]);
    assert_eq!(packed_buffer.bit_depth(), 8);
    assert_eq!(**packed_buffer.packed_data(), vec![1u8, 2, 250]);
}

#[test]
fn packed_buffer_16_bit_samples() {
    let packed_buffer = PackedBuffer::new(vec![0x12, 0x34, 0xab, 0xcd], 16).unwrap();
    assert_eq!(*packed_buffer.u16_buffer(), vec![0x1234u16, 0xabcd]);
    assert_eq!(*packed_buffer.u8_buffer(), vec![0x12u8, 0xab]);
}

#[test]
fn packed_buffer_rejects_bit_depth() {
    let e = PackedBuffer::new(vec![0, 0], 7).unwrap_err();
    assert_eq!(e.message(), "bit depth must be between 8 and 32, found 7");
    let e = PackedBuffer::new(vec![0, 0], 33).unwrap_err();
    assert_eq!(e.message(), "bit depth must be between 8 and 32, found 33");
}

#[test]
fn image_new_checks_buffer_size() {
    let img = Image::new(2, 1, vec![0xab, 0xcd, 0xef], 12).unwrap();
    assert_eq!(img.width, 2);
    assert_eq!(img.height, 1);
    assert_eq!(*img.buffer.u16_buffer(), vec![0xabcu16, 0xdef]);
    let e = Image::new(2, 2, vec![0, 0, 0], 12).unwrap_err();
    assert_eq!(e.message(), "buffer is to small (expected 6, found 3)");
    let e = Image::new(1, 1, vec![0, 0, 0], 4).unwrap_err();
    assert_eq!(e.message(), "bit depth must be between 8 and 32, found 4");
}

#[test]
fn packed_buffer_10_bit_fields() {
    let packed_buffer = PackedBuffer::new(vec![0xFF, 0xC0, 0x0F, 0xFC, 0x00], 10).unwrap();
    assert_eq!(*packed_buffer.u16_buffer(), vec![1023u16, 0, 1023, 0]);
    let packed_buffer = PackedBuffer::new(vec![0x12, 0x34, 0x56], 10).unwrap();
    assert_eq!(*packed_buffer.u16_buffer(), vec![72u16, 837]);
    assert_eq!(*packed_buffer.u8_buffer(), vec![18u8, 209]);
}
