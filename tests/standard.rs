use golay::standard::{decode, encode, rotate_11};

#[test]
fn test_rotate11() {
    assert_eq!(rotate_11(0b111111111111_00000000000), 0b000000000001_11111111111);
    assert_eq!(rotate_11(0b000000000000_11111111111), 0b111111111110_00000000000);
    assert_eq!(rotate_11(0b100000000000_00000000000), 0b000000000001_00000000000);
}

#[test]
fn standard_test_encode() {
    assert_eq!(encode(0), 0);
    assert_eq!(encode(0b111111111111), 0b111111111111_11111111111);
    assert_eq!(encode(0b111111000000), 0b111111000000_11001101000);
    assert_eq!(encode(0b000000111111), 0b000000111111_00110010111);
    assert_eq!(encode(0b100000000001), 0b100000000001_01001001111);
}

#[test]
fn standard_test_decode() {
    let w = 0b101010101010;
    let e = encode(w);
    assert_eq!(e, 0b1010101010_1000101111001);

    assert_eq!(decode(e^0b01000000000000000000010), Some((w, 2)));
    assert_eq!(decode(e^0b00100000000000000000100), Some((w, 2)));
    assert_eq!(decode(e^0b00010000000000000001000), Some((w, 2)));
    assert_eq!(decode(e^0b00001000000000000010000), Some((w, 2)));
    assert_eq!(decode(e^0b00000100000000000100000), Some((w, 2)));
    assert_eq!(decode(e^0b00000010000000001000000), Some((w, 2)));
    assert_eq!(decode(e^0b00000001000000010000000), Some((w, 2)));
    assert_eq!(decode(e^0b00000000100000100000000), Some((w, 2)));
    assert_eq!(decode(e^0b00000000010001000000000), Some((w, 2)));
    assert_eq!(decode(e^0b00000000001010000000000), Some((w, 2)));
    assert_eq!(decode(e^0b00000000010000000000001), Some((w, 2)));
    assert_eq!(decode(e^0b00000000100000000000010), Some((w, 2)));
    assert_eq!(decode(e^0b00000001000000000000100), Some((w, 2)));
    assert_eq!(decode(e^0b00000010000000000001000), Some((w, 2)));
    assert_eq!(decode(e^0b00000100000000000010000), Some((w, 2)));
    assert_eq!(decode(e^0b00001000000000000100000), Some((w, 2)));
    assert_eq!(decode(e^0b00010000000000001000000), Some((w, 2)));
    assert_eq!(decode(e^0b00100000000000010000000), Some((w, 2)));
    assert_eq!(decode(e^0b01000000000000100000000), Some((w, 2)));
    assert_eq!(decode(e^0b10000000000001000000000), Some((w, 2)));
    assert_eq!(decode(e^0b10000000000010000000000), Some((w, 2)));
    assert_eq!(decode(e^0b11100000000000000000000), Some((w, 3)));
    assert_eq!(decode(e^0b01110000000000000000000), Some((w, 3)));
    assert_eq!(decode(e^0b00111000000000000000000), Some((w, 3)));
    assert_eq!(decode(e^0b00011100000000000000000), Some((w, 3)));
    assert_eq!(decode(e^0b00001110000000000000000), Some((w, 3)));
    assert_eq!(decode(e^0b00000111000000000000000), Some((w, 3)));
    assert_eq!(decode(e^0b00000011100000000000000), Some((w, 3)));
    assert_eq!(decode(e^0b00000001110000000000000), Some((w, 3)));
    assert_eq!(decode(e^0b00000000111000000000000), Some((w, 3)));
    assert_eq!(decode(e^0b00000000011100000000000), Some((w, 3)));
    assert_eq!(decode(e^0b00000000001110000000000), Some((w, 3)));
    assert_eq!(decode(e^0b00000000000111000000000), Some((w, 3)));
    assert_eq!(decode(e^0b00000000000011100000000), Some((w, 3)));
    assert_eq!(decode(e^0b00000000000001110000000), Some((w, 3)));
    assert_eq!(decode(e^0b00000000000000111000000), Some((w, 3)));
    assert_eq!(decode(e^0b00000000000000011100000), Some((w, 3)));
    assert_eq!(decode(e^0b00000000000000001110000), Some((w, 3)));
    assert_eq!(decode(e^0b00000000000000000111000), Some((w, 3)));
    assert_eq!(decode(e^0b00000000000000000011100), Some((w, 3)));
    assert_eq!(decode(e^0b00000000000000000001110), Some((w, 3)));
    assert_eq!(decode(e^0b00000000000000000000111), Some((w, 3)));
    assert_eq!(decode(e^0b00000000000000000000000), Some((w, 0)));
    assert_eq!(decode(e^0b00000000000000000000001), Some((w, 1)));
    assert_eq!(decode(e^0b00000000000000000000011), Some((w, 2)));
    assert_eq!(decode(e^0b00000000000000000000111), Some((w, 3)));
    assert_eq!(decode(e^0b00000001000000000000000), Some((w, 1)));
    assert_eq!(decode(e^0b00000011000000000000000), Some((w, 2)));
    assert_eq!(decode(e^0b00000111000000000000000), Some((w, 3)));
    assert_eq!(decode(e^0b00000100000000000000001), Some((w, 2)));
    assert_eq!(decode(e^0b00000110000000000000001), Some((w, 3)));
    assert_eq!(decode(e^0b00000100000000000000011), Some((w, 3)));

    // Exhaustively test that all codewords are decoded correctly.
    for w in 0..1<<12 {
        assert_eq!(decode(encode(w)), Some((w, 0)));
    }

    let w = encode(0b110111101110);

    // Exhaustively test that all 0 through 3-bit errors are detected.
    for ((i, j), k) in (0..23).zip(0..23).zip(0..23) {
        let e: u32 = 1 << i | 1 << j | 1 << k;
        let n = e.count_ones() as usize;

        assert_eq!(decode(w ^ e), Some((0b110111101110, n)));
    }

    // Exhaustively test that all 4-bit errors are detected.
    for (((h, i), j), k) in (0..23).zip(0..23).zip(0..23).zip(0..23) {
        let e: u32 = 1 << h | 1 << i | 1 << j | 1 << k;
        let n = e.count_ones() as usize;

        if n >= 4 {
            assert_eq!(decode(w ^ e), None);
        }
    }
}

#[test]
fn standard_round_trip_all_data() {
    for d in 0..1u16 << 12 {
        assert_eq!(decode(encode(d)), Some((d, 0)));
    }
}

#[test]
fn standard_corrects_all_single_and_double_errors() {
    let d: u16 = 0b110111101110;
    let c = encode(d);
    for i in 0..23 {
        for j in 0..23 {
            let e: u32 = 1 << i | 1 << j;
            assert_eq!(decode(c ^ e), Some((d, e.count_ones() as usize)));
        }
    }
}

#[test]
fn standard_corrects_all_triple_errors() {
    let d: u16 = 0b110111101110;
    let c = encode(d);
    for i in 0..23 {
        for j in (i + 1)..23 {
            for k in (j + 1)..23 {
                let e: u32 = 1 << i | 1 << j | 1 << k;
                assert_eq!(decode(c ^ e), Some((d, 3)));
            }
        }
    }
}

#[test]
fn standard_corrects_msb_data_and_parity_error() {
    assert_eq!(decode(0b10000000000100000000001), Some((0, 3)));
}

#[test]
fn standard_fixed_points() {
    assert_eq!(encode(0), 0);
    assert_eq!(encode(0b111111111111), 0b111111111111_11111111111);
    assert_eq!(encode(0b100000000001), 0b100000000001_01001001111);
}

#[test]
fn standard_four_errors_decode_to_a_neighbour() {
    let c = encode(0);
    let r = decode(c ^ 0b1111);
    assert!(r.is_some());
    assert_ne!(r, Some((0, 4)));
}

#[test]
fn standard_every_word_decodes_the_same_way_twice() {
    let mut w: u32 = 0;
    while w < 1 << 23 {
        let r = decode(w);
        assert!(r.is_some());
        assert_eq!(decode(w), r);
        w += 4099;
    }
}
