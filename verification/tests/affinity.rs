use fuckace::affinity::{fallback_core_mask, format_core_mask, resolve_affinity, resolve_affinity_for};
use fuckace::machine::logical_core_count;

fn list(cores: &[u32]) -> String {
    cores.iter().map(|c| c.to_string()).collect::<Vec<String>>().join(",")
}

#[test]
fn format_core_mask_lists_set_bits_in_order() {
    assert_eq!(format_core_mask(0b101001), "0,3,5");
    assert_eq!(format_core_mask(1), "0");
    assert_eq!(format_core_mask(1u64 << 63), "63");
    assert_eq!(format_core_mask(0x8000_0000_0000_0402), "1,10,63");
}

#[test]
fn format_core_mask_of_zero_is_empty() {
    assert_eq!(format_core_mask(0), "");
}

#[test]
fn format_core_mask_of_full_mask_names_all_64_cores() {
    let expected = (0..64).map(|c: u32| c.to_string()).collect::<Vec<String>>().join(",");
    assert_eq!(format_core_mask(u64::MAX), expected);
}

#[test]
fn custom_cores_are_filtered_sorted_and_deduplicated() {
    let (cores, mask, is_e_core, is_custom) = resolve_affinity_for(Some(vec![5, 3, 3, 70, 1, 8]), 8);
    assert_eq!(cores, vec![1, 3, 5]);
    assert_eq!(mask, 0b101010);
    assert!(!is_e_core);
    assert!(is_custom);
}

#[test]
fn cores_at_or_above_64_are_dropped_even_on_large_machines() {
    let (cores, mask, _, is_custom) = resolve_affinity_for(Some(vec![64, 63, 100]), 128);
    assert_eq!(cores, vec![63]);
    assert_eq!(mask, 1u64 << 63);
    assert!(is_custom);
}

#[test]
fn unusable_request_falls_back_to_last_core() {
    let (cores, mask, is_e_core, is_custom) = resolve_affinity_for(Some(vec![9, 12]), 8);
    assert_eq!(cores, vec![7]);
    assert_eq!(mask, 1u64 << 7);
    assert!(!is_e_core);
    assert!(!is_custom);
}

#[test]
fn empty_request_falls_back_to_last_core() {
    let (cores, mask, _, is_custom) = resolve_affinity_for(Some(vec![]), 4);
    assert_eq!(cores, vec![3]);
    assert_eq!(mask, 0b1000);
    assert!(!is_custom);
}

#[test]
fn no_request_on_machine_without_cpu_list_uses_core_zero() {
    let (cores, mask, _, is_custom) = resolve_affinity_for(None, 0);
    assert_eq!(cores, vec![0]);
    assert_eq!(mask, 1);
    assert!(!is_custom);
}

#[test]
fn fallback_shift_wraps_beyond_64_cores() {
    let (cores, mask, _, is_custom) = resolve_affinity_for(None, 100);
    assert_eq!(cores, vec![99]);
    assert_eq!(mask, 1u64 << 35);
    assert!(!is_custom);
}

#[test]
fn mask_text_names_the_chosen_cores() {
    for (request, total) in [
        (Some(vec![0, 2, 4, 6]), 8u32),
        (Some(vec![31, 1, 17, 1]), 32),
        (None, 12),
        (Some(vec![40]), 16),
    ] {
        let (cores, mask, _, _) = resolve_affinity_for(request, total);
        assert_eq!(format_core_mask(mask), list(&cores));
    }
}

#[test]
fn resolve_affinity_on_this_machine() {
    let total = logical_core_count();
    let (cores, mask, is_e_core, is_custom) = resolve_affinity(Some(vec![0]));
    assert!(!is_e_core);
    if total > 0 {
        assert!(is_custom);
        assert_eq!(cores, vec![0]);
        assert_eq!(mask, 1);
    }
    let (cores, mask, _, is_custom) = resolve_affinity(None);
    assert!(!is_custom);
    assert_eq!(cores.len(), 1);
    assert_eq!(mask, 1u64 << (cores[0] % 64));
}

#[test]
fn fallback_mask_on_this_machine_is_last_core() {
    let total = logical_core_count();
    let last = if total > 0 { total - 1 } else { 0 };
    assert_eq!(fallback_core_mask(), 1u64 << (last % 64));
}
