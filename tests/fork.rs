use pow_engine::fork::{id_less, same_id, should_switch};

#[test]
fn id_order_is_lexicographic() {
    assert!(id_less(&vec![1, 2, 3], &vec![1, 2, 4]));
    assert!(!id_less(&vec![1, 2, 4], &vec![1, 2, 3]));
    assert!(id_less(&vec![1, 2], &vec![1, 2, 0]));
    assert!(!id_less(&vec![1, 2, 0], &vec![1, 2]));
    assert!(!id_less(&vec![9], &vec![9]));
    assert!(id_less(&vec![], &vec![0]));
    assert!(id_less(&vec![0, 255], &vec![1, 0]));
}

#[test]
fn same_id_compares_bytes() {
    assert!(same_id(&vec![1, 2], &vec![1, 2]));
    assert!(!same_id(&vec![1, 2], &vec![1, 3]));
    assert!(!same_id(&vec![1, 2], &vec![1, 2, 3]));
    assert!(same_id(&vec![], &vec![]));
}

#[test]
fn more_work_wins_either_way() {
    assert!(should_switch(80, &vec![0xff], 70, &vec![0x00]));
    assert!(!should_switch(70, &vec![0x00], 80, &vec![0xff]));
}

#[test]
fn equal_work_goes_to_lower_id() {
    assert!(should_switch(70, &vec![0xb1], 70, &vec![0xb2]));
    assert!(!should_switch(70, &vec![0xb2], 70, &vec![0xb1]));
    assert!(!should_switch(70, &vec![0xb1], 70, &vec![0xb1]));
}
