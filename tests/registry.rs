use my_engine::mirror::{MirrorOp, INITIAL_MIRROR_BYTES, RECORD_SIZE};
use my_engine::registry::{InstanceManager, RegistryError};

fn record(seed: u8) -> [u8; 64] {
    let mut r = [0u8; 64];
    for (k, b) in r.iter_mut().enumerate() {
        *b = seed.wrapping_mul(31).wrapping_add(k as u8);
    }
    r
}

/// Carries out `op` on a host copy of the device buffer.
fn apply(buffer: &mut Vec<u8>, op: &MirrorOp) {
    match op {
        MirrorOp::Write { offset, record } => {
            let start = *offset as usize;
            buffer[start..start + record.len()].copy_from_slice(record);
        }
        MirrorOp::Realloc { size, contents } => {
            *buffer = vec![0u8; *size as usize];
            buffer[..contents.len()].copy_from_slice(contents);
        }
    }
}

fn slot_bytes(buffer: &[u8], slot: usize) -> &[u8] {
    let start = slot * RECORD_SIZE as usize;
    &buffer[start..start + RECORD_SIZE as usize]
}

#[test]
fn end_to_end_hundred_insert_fifty_removed() {
    let mut reg: InstanceManager<u32> = InstanceManager::new();
    for id in 0u32..100 {
        assert!(reg.add_instance(id as u128, id, record(id as u8)).is_ok());
    }
    for id in (0u32..100).step_by(2) {
        let (data, _) = reg.remove_instance(id as u128).unwrap();
        assert_eq!(data, id);
    }
    assert_eq!(reg.len(), 50);
    for id in 0u128..100 {
        assert_eq!(reg.contains(id), id % 2 == 1);
    }
    for id in (1u128..100).step_by(2) {
        assert!(reg.slot_index(id).unwrap() < 50);
    }
    let draw = reg.draw_call(6);
    assert_eq!(draw.instance_count, 50);
    assert_eq!(draw.index_count, 6);
}

#[test]
fn insert_after_remove_reuses_slot() {
    let mut reg: InstanceManager<u32> = InstanceManager::new();
    for id in 0u128..3 {
        reg.add_instance(id, id as u32, record(id as u8)).unwrap();
    }
    let cap = reg.capacity();
    let (_, op) = reg.remove_instance(1).unwrap();
    // the last slot moved into the freed one
    assert_eq!(op, Some(MirrorOp::Write { offset: RECORD_SIZE, record: record(2) }));
    assert_eq!(reg.slot_index(2), Some(1));
    let op = reg.add_instance(9, 9, record(9)).unwrap();
    assert_eq!(op, MirrorOp::Write { offset: 2 * RECORD_SIZE, record: record(9) });
    assert_eq!(reg.slot_index(9), Some(2));
    assert_eq!(reg.capacity(), cap);
}

#[test]
fn capacity_only_doubles() {
    let mut reg: InstanceManager<u32> = InstanceManager::new();
    assert_eq!(reg.capacity(), INITIAL_MIRROR_BYTES);
    let mut expected = INITIAL_MIRROR_BYTES;
    for n in 1u64..=100 {
        while expected < n * RECORD_SIZE {
            expected *= 2;
        }
        reg.add_instance(n as u128, 0, record(n as u8)).unwrap();
        assert_eq!(reg.capacity(), expected);
    }
    assert_eq!(reg.capacity(), 8192);
}

#[test]
fn capacity_exact_values() {
    let mut reg: InstanceManager<u32> = InstanceManager::new();
    let op = reg.add_instance(0, 0, record(0)).unwrap();
    assert_eq!(reg.capacity(), 64);
    match op {
        MirrorOp::Realloc { size, contents } => {
            assert_eq!(size, 64);
            assert_eq!(contents, record(0).to_vec());
        }
        _ => panic!("first insert must grow the buffer"),
    }
    reg.add_instance(1, 0, record(1)).unwrap();
    assert_eq!(reg.capacity(), 128);
    reg.add_instance(2, 0, record(2)).unwrap();
    assert_eq!(reg.capacity(), 256);
    let op = reg.add_instance(3, 0, record(3)).unwrap();
    assert_eq!(reg.capacity(), 256);
    assert_eq!(op, MirrorOp::Write { offset: 192, record: record(3) });
}

#[test]
fn removed_identity_is_not_found_and_reinsert_is_fresh() {
    let mut reg: InstanceManager<u32> = InstanceManager::new();
    reg.add_instance(5, 50, record(5)).unwrap();
    assert_eq!(reg.remove_instance(5).unwrap().0, 50);
    assert_eq!(reg.update_instance(5, 51, record(6)), Err(RegistryError::NotFound));
    assert!(matches!(reg.remove_instance(5), Err(RegistryError::NotFound)));
    assert!(reg.get(5).is_none());
    reg.add_instance(5, 70, record(7)).unwrap();
    assert_eq!(reg.get(5), Some(&70));
    assert_eq!(reg.remove_instance(5).unwrap().0, 70);
}

#[test]
fn duplicate_identity_is_refused() {
    let mut reg: InstanceManager<u32> = InstanceManager::new();
    reg.add_instance(1, 10, record(1)).unwrap();
    assert_eq!(reg.add_instance(1, 11, record(2)), Err(RegistryError::DuplicateIdentity));
    assert_eq!(reg.get(1), Some(&10));
    assert_eq!(reg.len(), 1);
}

#[test]
fn update_writes_in_place() {
    let mut reg: InstanceManager<u32> = InstanceManager::new();
    reg.add_instance(1, 10, record(1)).unwrap();
    reg.add_instance(2, 20, record(2)).unwrap();
    let op = reg.update_instance(2, 21, record(3)).unwrap();
    assert_eq!(op, MirrorOp::Write { offset: RECORD_SIZE, record: record(3) });
    assert_eq!(reg.slot_index(2), Some(1));
    assert_eq!(reg.get(2), Some(&21));
}

#[test]
fn removing_last_slot_writes_nothing() {
    let mut reg: InstanceManager<u32> = InstanceManager::new();
    reg.add_instance(1, 10, record(1)).unwrap();
    reg.add_instance(2, 20, record(2)).unwrap();
    assert_eq!(reg.remove_instance(2), Ok((20, None)));
    assert_eq!(reg.len(), 1);
    assert_eq!(reg.slot_index(1), Some(0));
}

#[test]
fn mirror_tracks_live_records() {
    let mut reg: InstanceManager<u32> = InstanceManager::new();
    let mut buffer = vec![0u8; INITIAL_MIRROR_BYTES as usize];
    let mut last: Vec<Option<[u8; 64]>> = vec![None; 40];
    let mut step: u8 = 0;
    for round in 0..4u128 {
        for id in 0u128..40 {
            step = step.wrapping_add(1);
            let r = record(step);
            match (id + round) % 3 {
                0 => {
                    if let Ok(op) = reg.add_instance(id, 0, r) {
                        apply(&mut buffer, &op);
                        last[id as usize] = Some(r);
                    }
                }
                1 => {
                    if let Ok(op) = reg.update_instance(id, 0, r) {
                        apply(&mut buffer, &op);
                        last[id as usize] = Some(r);
                    }
                }
                _ => {
                    if let Ok((_, op)) = reg.remove_instance(id) {
                        if let Some(op) = op {
                            apply(&mut buffer, &op);
                        }
                        last[id as usize] = None;
                    }
                }
            }
            assert_eq!(buffer.len() as u64, reg.capacity());
        }
    }
    let live = last.iter().filter(|r| r.is_some()).count();
    assert_eq!(reg.len(), live);
    for id in 0u128..40 {
        match last[id as usize] {
            Some(r) => {
                let slot = reg.slot_index(id).unwrap();
                assert!(slot < reg.len());
                assert_eq!(slot_bytes(&buffer, slot), &r[..]);
            }
            None => assert!(!reg.contains(id)),
        }
    }
}
