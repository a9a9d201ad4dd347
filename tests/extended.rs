use golay::extended::{decode, encode};

#[test]
fn extended_test_encode() {
    assert_eq!(encode(0), 0);
    assert_eq!(encode(0b111111111111), 0b111111111111_111111111111);
    assert_eq!(encode(0b111111000000), 0b111111000000_110011010001);
    assert_eq!(encode(0b000000111111), 0b000000111111_001100101110);
    assert_eq!(encode(0b100000000001), 0b100000000001_010010011110);
}

#[test]
fn extended_test_decode() {
    let w = 0b111111101010;
    let e = encode(w);
    assert_eq!(e, 0b111111101010_111011100100);

    assert_eq!(decode(e^0b100000000000000000000010), Some((w, 2)));
    assert_eq!(decode(e^0b010000000000000000000001), Some((w, 2)));
    assert_eq!(decode(e^0b001000000000000000000010), Some((w, 2)));
    assert_eq!(decode(e^0b000100000000000000000100), Some((w, 2)));
    assert_eq!(decode(e^0b000010000000000000001000), Some((w, 2)));
    assert_eq!(decode(e^0b000001000000000000010000), Some((w, 2)));
    assert_eq!(decode(e^0b000000100000000000100000), Some((w, 2)));
    assert_eq!(decode(e^0b000000010000000001000000), Some((w, 2)));
    assert_eq!(decode(e^0b000000001000000010000000), Some((w, 2)));
    assert_eq!(decode(e^0b000000000100000100000000), Some((w, 2)));
    assert_eq!(decode(e^0b000000000010001000000000), Some((w, 2)));
    assert_eq!(decode(e^0b000000000001010000000000), Some((w, 2)));
    assert_eq!(decode(e^0b000000000010000000000001), Some((w, 2)));
    assert_eq!(decode(e^0b000000000100000000000010), Some((w, 2)));
    assert_eq!(decode(e^0b000000001000000000000100), Some((w, 2)));
    assert_eq!(decode(e^0b000000010000000000001000), Some((w, 2)));
    assert_eq!(decode(e^0b000000100000000000010000), Some((w, 2)));
    assert_eq!(decode(e^0b000001000000000000100000), Some((w, 2)));
    assert_eq!(decode(e^0b000010000000000001000000), Some((w, 2)));
    assert_eq!(decode(e^0b000100000000000010000000), Some((w, 2)));
    assert_eq!(decode(e^0b001000000000000100000000), Some((w, 2)));
    assert_eq!(decode(e^0b010000000000001000000000), Some((w, 2)));
    assert_eq!(decode(e^0b010000000000010000000000), Some((w, 2)));
    assert_eq!(decode(e^0b111000000000000000000000), Some((w, 3)));
    assert_eq!(decode(e^0b011100000000000000000000), Some((w, 3)));
    assert_eq!(decode(e^0b001110000000000000000000), Some((w, 3)));
    assert_eq!(decode(e^0b000111000000000000000000), Some((w, 3)));
    assert_eq!(decode(e^0b000011100000000000000000), Some((w, 3)));
    assert_eq!(decode(e^0b000001110000000000000000), Some((w, 3)));
    assert_eq!(decode(e^0b000000111000000000000000), Some((w, 3)));
    assert_eq!(decode(e^0b000000011100000000000000), Some((w, 3)));
    assert_eq!(decode(e^0b000000001110000000000000), Some((w, 3)));
    assert_eq!(decode(e^0b000000000111000000000000), Some((w, 3)));
    assert_eq!(decode(e^0b000000000011100000000000), Some((w, 3)));
    assert_eq!(decode(e^0b000000000001110000000000), Some((w, 3)));
    assert_eq!(decode(e^0b000000000000111000000000), Some((w, 3)));
    assert_eq!(decode(e^0b000000000000011100000000), Some((w, 3)));
    assert_eq!(decode(e^0b000000000000001110000000), Some((w, 3)));
    assert_eq!(decode(e^0b000000000000000111000000), Some((w, 3)));
    assert_eq!(decode(e^0b000000000000000011100000), Some((w, 3)));
    assert_eq!(decode(e^0b000000000000000001110000), Some((w, 3)));
    assert_eq!(decode(e^0b000000000000000000111000), Some((w, 3)));
    assert_eq!(decode(e^0b000000000000000000011100), Some((w, 3)));
    assert_eq!(decode(e^0b000000000000000000001110), Some((w, 3)));
    assert_eq!(decode(e^0b000000000000000000000111), Some((w, 3)));
    assert_eq!(decode(e^0b000000000000000000000000), Some((w, 0)));
    assert_eq!(decode(e^0b000000000000000000000001), Some((w, 1)));
    assert_eq!(decode(e^0b000000000000000000000011), Some((w, 2)));
    assert_eq!(decode(e^0b000000000000000000000111), Some((w, 3)));
    assert_eq!(decode(e^0b000000001000000000000000), Some((w, 1)));
    assert_eq!(decode(e^0b000000011000000000000000), Some((w, 2)));
    assert_eq!(decode(e^0b000000111000000000000000), Some((w, 3)));
    assert_eq!(decode(e^0b000000100000000000000001), Some((w, 2)));
    assert_eq!(decode(e^0b000000110000000000000001), Some((w, 3)));
    assert_eq!(decode(e^0b000000100000000000000011), Some((w, 3)));

    // Exhaustively test that all codewords are decoded correctly.
    for w in 0..1<<12 {
        assert_eq!(decode(encode(w)), Some((w, 0)));
    }

    let w = encode(0b110110100110);

    // Exhaustively test that all 0 through 3-bit errors are detected.
    for ((i, j), k) in (0..24).zip(0..24).zip(0..24) {
        let e: u32 = 1 << i | 1 << j | 1 << k;
        let n = e.count_ones() as usize;

        assert_eq!(decode(w ^ e), Some((0b110110100110, n)));
    }

    // Exhaustively test that all 4-bit errors are detected.
    for (((h, i), j), k) in (0..24).zip(0..24).zip(0..24).zip(0..24) {
        let e: u32 = 1 << h | 1 << i | 1 << j | 1 << k;
        let n = e.count_ones() as usize;

        if n >= 4 {
            assert_eq!(decode(w ^ e), None);
        }
    }
}

#[test]
fn extended_round_trip_all_data() {
    for d in 0..1u16 << 12 {
        assert_eq!(decode(encode(d)), Some((d, 0)));
    }
}

#[test]
fn extended_corrects_all_triple_errors() {
    let d: u16 = 0b110110100110;
    let c = encode(d);
    for i in 0..24 {
        for j in i..24 {
            for k in j..24 {
                let e: u32 = 1 << i | 1 << j | 1 << k;
                assert_eq!(decode(c ^ e), Some((d, e.count_ones() as usize)));
            }
        }
    }
}

#[test]
fn extended_detects_all_quadruple_errors() {
    let c = encode(0b110110100110);
    for h in 0..24 {
        for i in (h + 1)..24 {
            for j in (i + 1)..24 {
                for k in (j + 1)..24 {
                    let e: u32 = 1 << h | 1 << i | 1 << j | 1 << k;
                    assert_eq!(decode(c ^ e), None);
                }
            }
        }
    }
}

#[test]
fn extended_fixed_points() {
    assert_eq!(encode(0), 0);
    assert_eq!(encode(0b111111111111), 0b111111111111_111111111111);
    assert_eq!(encode(0b111111000000), 0b111111000000_110011010001);
}

#[test]
fn extended_no_result_is_stable() {
    let w: u32 = encode(0) ^ 0b1111;
    assert_eq!(decode(w), None);
    assert_eq!(decode(w), None);
}
