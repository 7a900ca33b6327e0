use wisp::renderer::{quad_capacity, ramp_rows, FIRST_QUAD_CAPACITY, GRADIENT_SAMPLES};

#[test]
fn a_buffer_that_is_big_enough_is_kept() {
    assert_eq!(quad_capacity(FIRST_QUAD_CAPACITY, 10), 256);
    assert_eq!(quad_capacity(256, 256), 256);
}

#[test]
fn a_buffer_that_is_too_small_grows_to_the_next_power_of_two() {
    assert_eq!(quad_capacity(256, 257), 512);
    assert_eq!(quad_capacity(256, 1000), 1024);
    assert_eq!(quad_capacity(0, 1), 1);
    assert_eq!(quad_capacity(512, 1024 + 1), 2048);
}

#[test]
fn there_is_always_one_row_of_ramp() {
    assert_eq!(ramp_rows(0), 1);
    assert_eq!(ramp_rows(GRADIENT_SAMPLES as usize), 1);
    assert_eq!(ramp_rows(3 * GRADIENT_SAMPLES as usize), 3);
}
