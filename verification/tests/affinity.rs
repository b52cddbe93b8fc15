use ticklog::affinity::{cpu_mask, CPU_SETSIZE};

#[test]
fn no_core_gives_an_empty_mask() {
    assert_eq!(cpu_mask(&[]), vec![0u8; CPU_SETSIZE]);
}

#[test]
fn each_core_sets_its_bit() {
    let mask = cpu_mask(&[0, 9, 9, 1023]);
    assert_eq!(mask.len(), CPU_SETSIZE);
    assert_eq!(mask[0], 0b0000_0001);
    assert_eq!(mask[1], 0b0000_0010);
    assert_eq!(mask[127], 0b1000_0000);
    assert_eq!(mask.iter().map(|b| b.count_ones()).sum::<u32>(), 3);
}

#[test]
fn cores_past_the_mask_are_left_out() {
    assert_eq!(cpu_mask(&[1024, usize::MAX]), vec![0u8; CPU_SETSIZE]);
}
