use strike_wallet::error::WalletError;
use strike_wallet::utils::{contains_item, copy_items, OptArray, OptArrayFlags};

fn ids<A>(refs: &Vec<strike_wallet::utils::OptArrayRef<A>>) -> Vec<usize> {
    refs.iter().map(|r| r.id()).collect()
}

#[test]
fn insert_takes_lowest_free_slots_in_order() {
    let mut registry: OptArray<u64, 4> = OptArray::from_vec(vec![None, Some(7), None, None]);
    assert_eq!(registry.count_free_slots(), 3);
    assert_eq!(registry.count_live_slots(), 1);
    assert!(registry.insert_many(&vec![10, 11]).is_ok());
    assert_eq!(registry.find_ref(&10).unwrap().id(), 0);
    assert_eq!(registry.find_ref(&11).unwrap().id(), 2);
    assert_eq!(registry.find_ref(&7).unwrap().id(), 1);
    assert_eq!(registry.count_free_slots(), 1);
    assert_eq!(registry.count_live_slots(), 3);
}

#[test]
fn free_and_live_slots_add_up_to_capacity() {
    let mut registry: OptArray<u64, 5> = OptArray::from_vec(vec![None; 5]);
    assert_eq!(registry.count_free_slots() + registry.count_live_slots(), 5);
    assert!(registry.insert_many(&vec![1, 2, 3]).is_ok());
    assert_eq!(registry.count_free_slots() + registry.count_live_slots(), 5);
    registry.remove_items(&vec![2, 9]);
    assert_eq!(registry.count_free_slots(), 3);
    assert_eq!(registry.count_live_slots(), 2);
    assert!(registry.add_items(&vec![4, 5, 6]));
    assert_eq!(registry.count_free_slots(), 0);
    assert_eq!(registry.count_live_slots(), 5);
}

#[test]
fn insert_beyond_capacity_changes_nothing() {
    let mut registry: OptArray<u64, 3> = OptArray::from_vec(vec![Some(1), None, None]);
    assert_eq!(registry.insert_many(&vec![2, 3, 4]), Err(WalletError::InvalidArgument));
    assert_eq!(registry.count_free_slots(), 2);
    assert!(registry.find_ref(&2).is_none());
    assert!(!registry.add_items(&vec![2, 3, 4]));
    assert!(registry.has_capacity(2));
    assert!(!registry.has_capacity(3));
    assert!(registry.insert_many(&vec![2, 3]).is_ok());
    assert!(registry.has_capacity(0));
    assert!(!registry.has_capacity(1));
}

#[test]
fn removal_frees_slots_for_reuse_and_reports_them() {
    let mut registry: OptArray<u64, 4> =
        OptArray::from_vec(vec![Some(1), Some(2), Some(3), Some(2)]);
    let freed = registry.remove_items(&vec![2, 8]);
    assert_eq!(ids(&freed), vec![1, 3]);
    assert!(registry.find_ref(&2).is_none());
    assert_eq!(registry.index(freed[0]), &None);
    assert!(registry.insert_many(&vec![9]).is_ok());
    assert_eq!(registry.find_ref(&9).unwrap().id(), 1);
    assert_eq!(registry.index(freed[0]), &Some(9));
}

#[test]
fn remove_by_refs_empties_exactly_those_slots() {
    let mut registry: OptArray<u64, 4> =
        OptArray::from_vec(vec![Some(1), Some(2), Some(3), None]);
    let refs = registry.find_refs(&vec![3, 1]);
    assert_eq!(ids(&refs), vec![0, 2]);
    registry.remove_by_refs(&refs);
    assert!(registry.find_ref(&1).is_none());
    assert_eq!(registry.find_ref(&2).unwrap().id(), 1);
    assert_eq!(registry.count_free_slots(), 3);
}

#[test]
fn find_ref_gives_the_lowest_holder() {
    let registry: OptArray<u64, 4> = OptArray::from_vec(vec![None, Some(5), Some(5), None]);
    assert_eq!(registry.find_ref(&5).unwrap().id(), 1);
    assert!(registry.find_ref(&6).is_none());
    assert!(registry.holds_all(&vec![5, 5]));
    assert!(!registry.holds_all(&vec![5, 6]));
    assert!(registry.holds_all(&vec![]));
}

#[test]
fn clone_keeps_the_registry() {
    let registry: OptArray<u64, 3> = OptArray::from_vec(vec![None, Some(5), None]);
    let mut copy = registry.clone();
    assert_eq!(copy.count_free_slots(), 2);
    assert!(copy.insert_many(&vec![6]).is_ok());
    assert!(registry.find_ref(&6).is_none());
    assert_eq!(copy.find_ref(&6).unwrap().id(), 0);
}

#[test]
fn flags_follow_least_significant_bit_first() {
    let registry: OptArray<u64, 16> =
        OptArray::from_vec((0..16u64).map(Some).collect::<Vec<Option<u64>>>());
    let mut flags: OptArrayFlags<u64, 2> = OptArrayFlags::zero();
    assert_eq!(flags.as_bytes(), &[0u8, 0u8]);
    assert_eq!(flags.count_enabled(), 0);
    let slot9 = registry.find_ref(&9).unwrap();
    let slot0 = registry.find_ref(&0).unwrap();
    flags.enable(slot9);
    flags.enable(slot0);
    assert_eq!(flags.as_bytes(), &[0b0000_0001u8, 0b0000_0010u8]);
    assert!(flags.is_enabled(slot9));
    assert!(!flags.is_enabled(registry.find_ref(&8).unwrap()));
    assert_eq!(flags.count_enabled(), 2);
    assert_eq!(ids(&flags.iter_enabled()), vec![0, 9]);
    flags.disable(slot9);
    assert_eq!(flags.as_bytes(), &[1u8, 0u8]);
    assert_eq!(flags.count_enabled(), 1);
}

#[test]
fn flags_from_bytes_and_bulk_setting() {
    let registry: OptArray<u64, 16> =
        OptArray::from_vec((0..16u64).map(Some).collect::<Vec<Option<u64>>>());
    let mut flags: OptArrayFlags<u64, 2> = OptArrayFlags::new([0b1000_0001, 0b0000_0100]);
    assert_eq!(ids(&flags.iter_enabled()), vec![0, 7, 10]);
    assert_eq!(flags.count_enabled(), 3);
    flags.set_all(&registry.find_refs(&vec![7, 1, 2]), false);
    assert_eq!(ids(&flags.iter_enabled()), vec![0, 10]);
    flags.set_all(&registry.find_refs(&vec![15, 3]), true);
    assert_eq!(flags.as_bytes(), &[0b0000_1001u8, 0b1000_0100u8]);
    let copy = flags.clone();
    assert_eq!(copy.as_bytes(), flags.as_bytes());
}

#[test]
fn copies_and_membership() {
    let items = vec![3u64, 1, 4];
    assert_eq!(copy_items(&items), items);
    assert!(contains_item(&items, &4));
    assert!(!contains_item(&items, &5));
}
