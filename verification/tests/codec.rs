use encoder_lib::bits::{pack_bits, unpack_bits};
use encoder_lib::packet::{Packet, TAG_INTRA};
use encoder_lib::rle::{compress, decompress};
use encoder_lib::{InitPacket, Params};

fn round_trip(input: Vec<u8>) {
    let packed = compress(&input);
    assert_eq!(decompress(&packed), input);
}

#[test]
fn compress_empty_input_is_empty() {
    assert_eq!(compress(&vec![]), Vec::<u8>::new());
}

#[test]
fn compress_single_byte_is_unchanged() {
    assert_eq!(compress(&vec![0x5a]), vec![0x5a]);
}

#[test]
fn compress_distinct_bytes_are_literals() {
    assert_eq!(compress(&vec![1, 2, 3, 4]), vec![1, 2, 3, 4]);
}

#[test]
fn compress_run_of_two() {
    assert_eq!(compress(&vec![9, 9]), vec![9, 9, 2]);
}

#[test]
fn compress_mixed_runs_and_literals() {
    assert_eq!(
        compress(&vec![7, 7, 7, 1, 2, 2, 3]),
        vec![7, 7, 3, 1, 2, 2, 2, 3]
    );
}

#[test]
fn compress_final_run_uses_the_same_rule() {
    assert_eq!(compress(&vec![4, 5, 5, 5]), vec![4, 5, 5, 3]);
    assert_eq!(compress(&vec![5, 5, 5, 4]), vec![5, 5, 3, 4]);
}

#[test]
fn compress_run_of_255_is_three_bytes() {
    let input = vec![0xaa; 255];
    assert_eq!(compress(&input), vec![0xaa, 0xaa, 255]);
}

#[test]
fn compress_run_of_256_is_a_full_group_and_a_literal() {
    let input = vec![0xaa; 256];
    assert_eq!(compress(&input), vec![0xaa, 0xaa, 255, 0xaa]);
}

#[test]
fn compress_run_of_257_is_two_groups() {
    let input = vec![3; 257];
    assert_eq!(compress(&input), vec![3, 3, 255, 3, 3, 2]);
}

#[test]
fn compress_run_of_510_is_two_full_groups() {
    let input = vec![0; 510];
    assert_eq!(compress(&input), vec![0, 0, 255, 0, 0, 255]);
}

#[test]
fn decompress_reads_literals_and_groups() {
    assert_eq!(decompress(&vec![1, 2, 2, 3, 4]), vec![1, 2, 2, 2, 4]);
    assert_eq!(decompress(&vec![6, 6, 0, 1]), vec![1]);
}

#[test]
fn decompress_takes_a_trailing_pair_as_two_literals() {
    assert_eq!(decompress(&vec![8, 8]), vec![8, 8]);
}

#[test]
fn rle_round_trip_on_samples() {
    round_trip(vec![]);
    round_trip(vec![0]);
    round_trip(vec![0, 0]);
    round_trip(vec![1, 1, 2, 2, 2, 3, 1, 1]);
    round_trip(vec![255; 300]);
    round_trip(vec![2, 2, 2, 2, 3, 3, 3, 3, 3, 3, 3]);
    round_trip((0..=255u8).collect());
    let mut long = vec![9; 255];
    long.push(9);
    long.push(10);
    long.extend(vec![10; 600]);
    round_trip(long);
}

#[test]
fn rle_round_trip_where_a_count_equals_the_next_byte() {
    round_trip(vec![5, 5, 5, 3, 3, 3]);
    round_trip(vec![2, 2, 2]);
    round_trip(vec![3, 3, 3, 3]);
}

#[test]
fn pack_bits_sets_the_lowest_bit_first() {
    assert_eq!(pack_bits(&vec![true]), vec![0b0000_0001]);
    assert_eq!(
        pack_bits(&vec![false, true, false, false, false, false, false, true]),
        vec![0b1000_0010]
    );
}

#[test]
fn pack_bits_pads_the_last_byte_with_zero() {
    let bits = vec![
        true, true, true, true, true, true, true, true, false, false, true,
    ];
    assert_eq!(pack_bits(&bits), vec![0xff, 0b0000_0100]);
}

#[test]
fn pack_bits_length_is_the_ceiling_of_an_eighth() {
    assert_eq!(pack_bits(&vec![]).len(), 0);
    assert_eq!(pack_bits(&vec![false; 1]).len(), 1);
    assert_eq!(pack_bits(&vec![false; 8]).len(), 1);
    assert_eq!(pack_bits(&vec![false; 9]).len(), 2);
    assert_eq!(pack_bits(&vec![true; 300]).len(), 38);
}

#[test]
fn unpack_after_pack_gives_the_input_padded_with_false() {
    let bits = vec![true, false, true, true, false, false, true, false, true, true];
    let mut expected = bits.clone();
    expected.extend(vec![false; 6]);
    assert_eq!(unpack_bits(&pack_bits(&bits)), expected);
    let whole = vec![true, false, false, false, false, false, false, true];
    assert_eq!(unpack_bits(&pack_bits(&whole)), whole);
    assert_eq!(unpack_bits(&pack_bits(&vec![])), Vec::<bool>::new());
}

#[test]
fn unpack_bits_reads_every_bit() {
    assert_eq!(
        unpack_bits(&vec![0b1010_0101]),
        vec![true, false, true, false, false, true, false, true]
    );
}

#[test]
fn packet_is_the_tag_then_the_compressed_payload() {
    let packet = Packet::new(TAG_INTRA, vec![4, 4, 4, 9]);
    assert_eq!(packet.ty(), 1);
    assert_eq!(packet.len(), 5);
    assert_eq!(packet.serialize(), vec![1, 4, 4, 3, 9]);
}

#[test]
fn packet_with_empty_payload_is_its_tag() {
    let packet = Packet::new(2, vec![]);
    assert_eq!(packet.len(), 1);
    assert_eq!(packet.serialize(), vec![2]);
}

#[test]
fn init_packet_holds_the_four_dimensions() {
    let params = Params::new(2, 1, 4, 2, 100).unwrap();
    let packet = InitPacket::new(&params).into_packet();
    assert_eq!(packet.ty(), 0);
    assert_eq!(packet.serialize(), vec![0, 2, 1, 4, 2]);
}

#[test]
fn init_packet_payload_is_compressed() {
    let params = Params::new(2, 2, 2, 2, 100).unwrap();
    let packet = InitPacket::new(&params).into_packet();
    assert_eq!(packet.serialize(), vec![0, 2, 2, 4]);
}
