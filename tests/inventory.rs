use triple_triad::card::CardId;
use triple_triad::inventory::Inventory;

#[test]
fn inventory_counts_saturate() {
    let mut inv = Inventory::new();
    let a = CardId::new(3).unwrap();
    let b = CardId::new(100).unwrap();
    inv.add(b, 2);
    inv.add(a, 250);
    inv.add(a, 10);
    assert_eq!(inv.iter_distinct(), vec![a, b]);
    inv.remove(b, 5);
    assert_eq!(inv.iter_distinct(), vec![a]);
    inv.remove(a, 254);
    assert_eq!(inv.iter_distinct(), vec![a]);
    inv.remove(a, 1);
    assert!(inv.iter_distinct().is_empty());
}

#[test]
fn empty_inventory_lists_nothing() {
    assert!(Inventory::new().iter_distinct().is_empty());
}
