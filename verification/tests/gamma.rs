use zos_wm::gamma::{
    current_gamma_lut_for_output, decode_gamma_lut, gamma_lut_bytes, gamma_lut_size_for_output, OutputGammaState,
    DEFAULT_GAMMA_LUT_SIZE,
};

#[test]
fn lut_byte_count_is_six_per_entry() {
    assert_eq!(gamma_lut_bytes(DEFAULT_GAMMA_LUT_SIZE), Some(1536));
    assert_eq!(gamma_lut_bytes(0), Some(0));
    assert_eq!(gamma_lut_bytes(u32::MAX), Some(u32::MAX as usize * 6));
}

#[test]
fn decodes_little_endian_entries() {
    let bytes = vec![0x34, 0x12, 0xff, 0xff, 0x00, 0x01, 0x07];
    assert_eq!(decode_gamma_lut(&bytes), vec![0x1234, 0xffff, 0x0100]);
    let lut: Vec<u16> = (0..6).map(|i| i * 1000 + 7).collect();
    let encoded: Vec<u8> = lut.iter().flat_map(|v| v.to_le_bytes()).collect();
    assert_eq!(decode_gamma_lut(&encoded), lut);
}

#[test]
fn a_new_control_supersedes_the_live_ones() {
    let mut g = OutputGammaState::new(DEFAULT_GAMMA_LUT_SIZE);
    assert_eq!(g.register_control(1, &vec![]), (vec![], 256));
    // Control 1 is alive: it is failed; the new control is the only one.
    assert_eq!(g.register_control(2, &vec![1]), (vec![1], 256));
    assert_eq!(g.controls, vec![2]);
    // Control 2 died in the meantime: pruned without being failed.
    assert_eq!(g.register_control(3, &vec![]).0, Vec::<u32>::new());
    assert_eq!(g.controls, vec![3]);
}

#[test]
fn graceful_destroy_drops_the_table_abrupt_keeps_it() {
    let mut g = OutputGammaState::new(4);
    g.register_control(1, &vec![]);
    g.set_lut(&vec![1, 0, 2, 0]);
    assert_eq!(g.current_lut, Some(vec![1, 2]));
    g.forget_control(1, &vec![1], false);
    assert!(g.controls.is_empty());
    assert_eq!(g.current_lut, Some(vec![1, 2]));
    g.register_control(2, &vec![]);
    g.forget_control(2, &vec![2], true);
    assert_eq!(g.current_lut, None);
}

#[test]
fn output_loss_fails_live_controls() {
    let mut g = OutputGammaState::new(4);
    g.register_control(1, &vec![]);
    g.set_lut(&vec![9, 9]);
    assert_eq!(g.output_destroyed(&vec![1, 5]), vec![1]);
    assert!(g.controls.is_empty());
    assert_eq!(g.current_lut, None);
    assert_eq!(g.size, 4);
}

#[test]
fn gamma_getters() {
    let mut g = OutputGammaState::new(DEFAULT_GAMMA_LUT_SIZE);
    assert_eq!(current_gamma_lut_for_output(&g), None);
    assert_eq!(gamma_lut_size_for_output(&g), 256);
    g.set_lut(&vec![1, 2, 3, 4]);
    assert_eq!(current_gamma_lut_for_output(&g), Some(vec![0x0201, 0x0403]));
}
