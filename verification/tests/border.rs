use gh_pfp::border::{nearest_single, upper_border, EXACT_LENGTH, SINGLE_LIMIT};

fn single_product(square_length: u32) -> u32 {
    (square_length as f32 * 5.5) as u32
}

#[test]
fn border_of_the_usual_lengths() {
    assert_eq!(upper_border(70), 385);
    assert_eq!(upper_border(140), 770);
    assert_eq!(upper_border(17850), 98175);
}

#[test]
fn border_of_odd_and_even_lengths() {
    assert_eq!(upper_border(0), 0);
    assert_eq!(upper_border(1), 5);
    assert_eq!(upper_border(2), 11);
    assert_eq!(upper_border(7), 38);
    assert_eq!(upper_border(8), 44);
    assert_eq!(upper_border(71), 390);
}

#[test]
fn limits_of_exact_arithmetic() {
    assert_eq!(SINGLE_LIMIT, 1 << 24);
    assert!(11 * (EXACT_LENGTH as u64) < SINGLE_LIMIT);
    assert!(11 * (EXACT_LENGTH as u64 + 1) >= SINGLE_LIMIT);
    assert_eq!(upper_border(EXACT_LENGTH), 8_388_605);
}

#[test]
fn border_is_the_single_precision_product_for_small_lengths() {
    for square_length in 0..3_000_000u32 {
        assert_eq!(upper_border(square_length), single_product(square_length));
    }
}

#[test]
fn border_is_the_single_precision_product_for_large_lengths() {
    let mut square_length: u32 = 3_000_000;
    loop {
        for offset in 0..64u32 {
            let near = square_length.saturating_add(offset);
            assert_eq!(upper_border(near), single_product(near));
        }
        match square_length.checked_add(square_length / 1000 + 7) {
            Some(next) => square_length = next,
            None => break,
        }
    }
    for offset in 0..100_000u32 {
        assert_eq!(upper_border(u32::MAX - offset), single_product(u32::MAX - offset));
    }
}

#[test]
fn border_is_the_single_precision_product_around_powers_of_two() {
    for bit in 0..32u32 {
        let power: u64 = 1 << bit;
        for offset in 0..2000u64 {
            for candidate in [power + offset, power.saturating_sub(offset)] {
                if candidate <= u32::MAX as u64 {
                    let square_length = candidate as u32;
                    assert_eq!(upper_border(square_length), single_product(square_length));
                }
            }
        }
    }
}

#[test]
fn border_is_capped() {
    assert_eq!(upper_border(u32::MAX), u32::MAX);
    assert_eq!(upper_border(1_000_000_000), u32::MAX);
}

#[test]
fn rounding_moves_the_border_out() {
    assert_eq!(upper_border(16_777_219), 92_274_712);
    assert!(92_274_712 > 5 * 16_777_219u64 + 16_777_219 / 2);
}

#[test]
fn nearest_single_is_the_cast() {
    for n in 0..100_000u64 {
        assert_eq!(nearest_single(n), n as f32 as u64);
    }
    for bit in 20..50u32 {
        let power: u64 = 1 << bit;
        for offset in 0..3000u64 {
            assert_eq!(nearest_single(power + offset), (power + offset) as f32 as u64);
            assert_eq!(nearest_single(power - offset), (power - offset) as f32 as u64);
        }
    }
}

#[test]
fn nearest_single_ties_go_to_the_even_neighbour() {
    assert_eq!(nearest_single(16_777_216), 16_777_216);
    assert_eq!(nearest_single(16_777_217), 16_777_216);
    assert_eq!(nearest_single(16_777_218), 16_777_218);
    assert_eq!(nearest_single(16_777_219), 16_777_220);
    assert_eq!(nearest_single(33_554_434), 33_554_432);
    assert_eq!(nearest_single(33_554_435), 33_554_436);
    assert_eq!(nearest_single(33_554_438), 33_554_440);
}
