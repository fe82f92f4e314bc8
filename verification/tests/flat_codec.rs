use nano::flat::decode::decoder::Decoder;
use nano::flat::decode::errors::Error as DecodeError;
use nano::flat::encode::encoder::{Encode, Encoder};
use nano::flat::encode::errors::Error as EncodeError;
use nano::flat::filler::Filler;
use nano::flat::zigzag::{to_i128, to_isize, to_u128, to_usize};

#[test]
fn encode_aligned_byte_goes_to_buffer() {
    let mut e = Encoder::new();
    assert!(e.u8(0xab).is_ok());
    assert_eq!(e.buffer, vec![0xab]);
}

#[test]
fn encode_bits_fill_a_byte() {
    let mut e = Encoder::new();
    e.bool(true);
    e.bool(false);
    e.bits(2, 3);
    e.bits(4, 5);
    assert_eq!(e.buffer, vec![0b1011_0101]);
}

#[test]
fn encode_unaligned_byte_spans_two_bytes() {
    let mut e = Encoder::new();
    e.bits(4, 0b1010);
    assert!(e.u8(0xff).is_ok());
    e.bits(4, 0b0011);
    assert_eq!(e.buffer, vec![0b1010_1111, 0b1111_0011]);
}

#[test]
fn encode_word_uses_seven_bit_groups() {
    let mut e = Encoder::new();
    e.word(300);
    assert_eq!(e.buffer, vec![0b1010_1100, 0b0000_0010]);
    let mut e = Encoder::new();
    e.word(0);
    assert_eq!(e.buffer, vec![0]);
    let mut e = Encoder::new();
    e.big_word(127);
    assert_eq!(e.buffer, vec![127]);
}

#[test]
fn encode_integer_is_zigzag_word() {
    let mut e = Encoder::new();
    e.integer(-1);
    e.integer(1);
    e.big_integer(-2);
    assert_eq!(e.buffer, vec![1, 2, 3]);
}

#[test]
fn encode_char_is_its_code_point() {
    let mut e = Encoder::new();
    e.char('A');
    assert_eq!(e.buffer, vec![65]);
}

#[test]
fn encode_bytes_fill_then_blocks() {
    let mut e = Encoder::new();
    assert!(e.bytes(&[1, 2, 3]).is_ok());
    assert_eq!(e.buffer, vec![0x01, 3, 1, 2, 3, 0]);
}

#[test]
fn encode_utf8_writes_the_bytes_of_the_text() {
    let mut e = Encoder::new();
    assert!(e.utf8("hi").is_ok());
    assert_eq!(e.buffer, vec![0x01, 2, b'h', b'i', 0]);
}

#[test]
fn encode_byte_array_needs_a_byte_boundary() {
    let mut e = Encoder::new();
    e.bool(true);
    match e.byte_array(&[1]) {
        Err(EncodeError::BufferNotByteAligned) => {},
        _ => panic!("expected an alignment error"),
    }
    let mut e = Encoder::new();
    assert!(e.byte_array(&[]).is_ok());
    assert_eq!(e.buffer, vec![0]);
}

#[test]
fn encode_string_marks_each_character() {
    let mut e = Encoder::new();
    e.string("A");
    e.bits(6, 0);
    assert_eq!(e.buffer, vec![0b1010_0000, 0b1000_0000]);
}

#[test]
fn encode_list_marks_each_item() {
    let mut e = Encoder::new();
    assert!(e.encode_list_with(&[true, false, true], <bool as Encode>::encode).is_ok());
    e.bits(1, 0);
    assert_eq!(e.buffer, vec![0b1110_1100]);
}

#[test]
fn encode_through_the_trait() {
    let mut e = Encoder::new();
    assert!(e.encode(7u8).is_ok());
    assert!(e.encode(5usize).is_ok());
    assert!(e.encode(-3isize).is_ok());
    assert!(e.encode(2i128).is_ok());
    assert!(e.encode('a').is_ok());
    assert_eq!(e.buffer, vec![7, 5, 5, 4, 97]);
}

#[test]
fn decode_integer_reads_back_what_was_written() {
    for v in [0isize, 1, -1, 63, -64, 300, -300, isize::MAX, isize::MIN] {
        let mut e = Encoder::new();
        e.integer(v);
        let mut d = Decoder::new(&e.buffer);
        assert_eq!(d.integer().ok(), Some(v));
    }
}

#[test]
fn decode_big_integer_reads_back_what_was_written() {
    for v in [0i128, 5, -5, 1 << 100, -(1 << 100), i128::MAX, i128::MIN] {
        let mut e = Encoder::new();
        e.big_integer(v);
        let mut d = Decoder::new(&e.buffer);
        assert_eq!(d.big_integer().ok(), Some(v));
    }
}

#[test]
fn decode_through_the_trait() {
    let bytes = [7u8, 5, 5, 4];
    let mut d = Decoder::new(&bytes);
    assert_eq!(d.decode::<u8>().ok(), Some(7));
    assert_eq!(d.decode::<usize>().ok(), Some(5));
    assert_eq!(d.decode::<isize>().ok(), Some(-3));
    assert_eq!(d.decode::<i128>().ok(), Some(2));
}

#[test]
fn decode_past_the_end_fails() {
    let bytes: [u8; 0] = [];
    let mut d = Decoder::new(&bytes);
    match d.integer() {
        Err(DecodeError::EndOfBuffer) => {},
        _ => panic!("expected the end of the buffer"),
    }
    let bytes = [0x80u8];
    let mut d = Decoder::new(&bytes);
    match d.big_integer() {
        Err(DecodeError::EndOfBuffer) => {},
        _ => panic!("expected the end of the buffer"),
    }
}

#[test]
fn decoder_starts_at_the_first_bit() {
    let bytes = [1u8, 2];
    let d = Decoder::new(&bytes);
    assert_eq!(d.pos, 0);
    assert_eq!(d.used_bits, 0);
}

#[test]
fn zigzag_interleaves_signs() {
    assert_eq!(to_usize(0), 0);
    assert_eq!(to_usize(-1), 1);
    assert_eq!(to_usize(1), 2);
    assert_eq!(to_usize(-2), 3);
    assert_eq!(to_u128(-3), 5);
    assert_eq!(to_isize(4), 2);
    assert_eq!(to_isize(5), -3);
    assert_eq!(to_i128(1), -1);
    assert_eq!(to_isize(to_usize(isize::MIN)), isize::MIN);
    assert_eq!(to_i128(to_u128(i128::MAX)), i128::MAX);
}

#[test]
fn filler_length_counts_its_bits() {
    assert_eq!(Filler::FillerEnd.length(), 1);
    assert_eq!(Filler::FillerStart(Box::new(Filler::FillerEnd)).length(), 2);
    assert_eq!(
        Filler::FillerStart(Box::new(Filler::FillerStart(Box::new(Filler::FillerEnd)))).length(),
        3
    );
}

#[test]
fn decoding_past_the_end_fails() {
    let bytes = [0x07u8];
    let mut d = Decoder::new(&bytes);
    assert_eq!(d.decode::<u8>().ok(), Some(7));
    assert!(d.decode::<u8>().is_err());
    let empty: [u8; 0] = [];
    let mut d = Decoder::new(&empty);
    assert!(d.decode::<usize>().is_err());
}

#[test]
fn encode_list_hands_each_item_to_the_element_function() {
    let mut e = Encoder::new();
    assert!(e.encode_list_with(&[0xffu8, 0x01], |x: &u8, m: &mut Encoder| x.encode(m)).is_ok());
    e.bits(5, 0);
    assert_eq!(e.buffer, vec![0b1111_1111, 0b1100_0000, 0b0100_0000]);
    let mut e = Encoder::new();
    let empty: [u8; 0] = [];
    assert!(e.encode_list_with(&empty, <u8 as Encode>::encode).is_ok());
    e.bits(7, 0);
    assert_eq!(e.buffer, vec![0]);
}

#[test]
fn bits_spill_across_a_byte_boundary() {
    let mut e = Encoder::new();
    e.bits(3, 5);
    e.bits(7, 127);
    assert_eq!(e.buffer, vec![0xBF]);
    e.bits(6, 0);
    assert_eq!(e.buffer, vec![0xBF, 0b1100_0000]);
}

#[test]
fn big_word_and_word_write_the_same_bytes() {
    for c in [0usize, 1, 127, 128, 300, 16_384, 1 << 40] {
        let mut a = Encoder::new();
        let mut b = Encoder::new();
        a.bits(3, 0b101);
        b.bits(3, 0b101);
        a.word(c);
        b.big_word(c as u128);
        assert_eq!(a.buffer, b.buffer);
        a.bits(5, 0);
        b.bits(5, 0);
        assert_eq!(a.buffer, b.buffer);
    }
}
