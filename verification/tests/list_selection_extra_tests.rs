use arq::items::build_item;
use arq::list_selection::build_list_selection;

#[test]
fn deselect_removes_the_entry_at_that_position() {
    let item1 = build_item(1, "A".to_owned(), 'X', 1, 1);
    let item2 = build_item(2, "B".to_owned(), 'X', 1, 1);
    let item3 = build_item(3, "C".to_owned(), 'X', 1, 1);
    let mut list_selection = build_list_selection(vec![&item1, &item2, &item3], 3);
    list_selection.select(0);
    list_selection.select(2);
    assert!(list_selection.is_selected(0));
    assert!(list_selection.is_selected(2));
    // Without a previous position both selections went to the front: [2, 0]. Deselecting index 0
    // removes the entry at position 0 of the selection, which is index 2's.
    list_selection.deselect(0);
    assert!(list_selection.is_selected(0));
    assert!(!list_selection.is_selected(2));
    assert_eq!(1, list_selection.get_selected_items().len());
    assert_eq!(&item1, list_selection.get_selected_items()[0]);
}

#[test]
fn paging_without_a_selection_turns_pages() {
    let items: Vec<_> = (0..8u128).map(|i| build_item(i, format!("Item {}", i), 'X', 1, 1)).collect();
    let mut list_selection = build_list_selection(items.iter().collect(), 4);
    list_selection.page_down();
    assert_eq!(4, list_selection.get_start_index());
    list_selection.page_up();
    assert_eq!(0, list_selection.get_start_index());
    list_selection.move_down();
    assert_eq!(0, list_selection.get_start_index());
    assert_eq!(0, list_selection.get_selected_items().len());
}
