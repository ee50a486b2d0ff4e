use blocks::gpu::storage_buffer::{storage_size, StorageAllocation};

#[test]
fn storage_size_is_never_below_one_element() {
    assert_eq!(storage_size(0, 32), 32);
    assert_eq!(storage_size(8, 32), 32);
    assert_eq!(storage_size(96, 32), 96);
}

#[test]
fn growing_data_reallocates() {
    let mut allocation = StorageAllocation::new(0, 32);
    assert_eq!(allocation.size(), 32);
    assert!(allocation.write(64, 32));
    assert_eq!(allocation.size(), 64);
}

#[test]
fn small_changes_keep_the_allocation() {
    let mut allocation = StorageAllocation::new(100, 4);
    assert!(!allocation.write(100, 4));
    assert!(!allocation.write(50, 4));
    assert_eq!(allocation.size(), 100);
}

#[test]
fn shrinking_below_half_reallocates() {
    let mut allocation = StorageAllocation::new(100, 4);
    assert!(allocation.write(49, 1));
    assert_eq!(allocation.size(), 49);
}

#[test]
fn every_write_keeps_the_buffer_fitting() {
    let mut allocation = StorageAllocation::new(1, 1);
    for bytes in [5usize, 3, 2, 1, 9, 100, 51, 49, 24, 1000] {
        allocation.write(bytes, 1);
        let size = allocation.size();
        assert!(size >= bytes as u64);
        assert!(size <= 2 * bytes as u64 + 1);
    }
}
