use arq::items::build_item;
use arq::list_selection::build_list_selection;

#[test]
fn test_build_list_selection() {
    // GIVEN a series of items to select from
    let item = build_item(1, "Test Item 1".to_owned(), 'X', 1, 1);
    let item2 = build_item(2, "Test Item 2".to_owned(), 'X', 1, 1);
    let item3 = build_item(3, "Test Item 3".to_owned(), 'X', 1, 1);
    let item4 = build_item(4, "Test Item 4".to_owned(), 'X', 1, 1);
    let items = vec! [ &item, &item2, &item3, &item4 ];

    // WHEN we call to build a list selection of these items
    let list_selection = build_list_selection(items, 4);

    // THEN we expect it to wrap the items provided
    let wrapped_items = list_selection.get_items();
    assert_eq!(4, wrapped_items.len());
    assert_eq!(item, *wrapped_items[0]);
    assert_eq!(item2, *wrapped_items[1]);
    assert_eq!(item3, *wrapped_items[2]);
    assert_eq!(item4, *wrapped_items[3]);

    // AND have no currently selected items
    let selected_items = list_selection.get_selected_items();
    assert_eq!(0, selected_items.len());
}

#[test]
fn test_toggle_selection() {
    // GIVEN a list selection
    let mut list_selection = build_list_selection(Vec::new(), 0);
    // AND it's currently not selecting anything
    assert!(!list_selection.is_selecting());
    // WHEN we call to toggle selection
    list_selection.toggle_select();
    // THEN it will flip the is selecting state
    assert!(list_selection.is_selecting());
    // AND the opposite
    list_selection.toggle_select();
    assert!(!list_selection.is_selecting());
}

#[test]
fn test_index_select() {
    // GIVEN a series of items to select from
    let item = build_item(1, "Test Item 1".to_owned(), 'X', 1, 1);
    let item2 = build_item(2, "Test Item 2".to_owned(), 'X', 1, 1);
    let item3 = build_item(3, "Test Item 3".to_owned(), 'X', 1, 1);
    let item4 = build_item(4, "Test Item 4".to_owned(), 'X', 1, 1);
    let items = vec! [ &item, &item2, &item3, &item4 ];

    // AND a valid list selection
    let mut list_selection = build_list_selection(items, 4);

    // WHEN we call to select a particular index
    list_selection.select(1);

    // THEN we expect it to be returned
    assert!(list_selection.is_selected(1));
    let selected_items = list_selection.get_selected_items();
    assert_eq!(1, selected_items.len());
    assert_eq!(&item2, selected_items[0]);
}

#[test]
fn test_selecting_above() {
    // GIVEN a series of items to select from
    let item = build_item(1, "Test Item 1".to_owned(), 'X', 1, 1);
    let item2 = build_item(2, "Test Item 2".to_owned(), 'X', 1, 1);
    let item3 = build_item(3, "Test Item 3".to_owned(), 'X', 1, 1);
    let item4 = build_item(4, "Test Item 4".to_owned(), 'X', 1, 1);
    let items = vec! [ &item, &item2, &item3, &item4 ];

    // AND a valid list selection
    let mut list_selection = build_list_selection(items, 4);

    // AND we've begun by selecting an index  and ensuring we're selecting items
    list_selection.set_initial_selection(1);
    list_selection.toggle_select();
    // WHEN we call to move up the selection
    list_selection.move_up();

    // THEN we expect multiple items/indices to be returned
    assert_eq!(true, list_selection.is_selecting());
    assert_eq!(true, list_selection.is_selected(0));
    assert_eq!(true, list_selection.is_selected(1));
    let selected_items = list_selection.get_selected_items();
    assert_eq!(2, selected_items.len());
    assert_eq!(&item, selected_items[0]);
    assert_eq!(&item2, selected_items[1]);
}

#[test]
fn test_selecting_above_multi() {
    // GIVEN a series of items to select from
    let item = build_item(1, "Test Item 1".to_owned(), 'X', 1, 1);
    let item2 = build_item(2, "Test Item 2".to_owned(), 'X', 1, 1);
    let item3 = build_item(3, "Test Item 3".to_owned(), 'X', 1, 1);
    let item4 = build_item(4, "Test Item 4".to_owned(), 'X', 1, 1);
    let items = vec! [ &item, &item2, &item3, &item4 ];

    // AND a valid list selection
    let mut list_selection = build_list_selection(items, 4);

    // AND we've begun by selecting an index  and ensuring we're selecting items
    list_selection.set_initial_selection(2);
    list_selection.toggle_select();
    // WHEN we call to move up the selection multiple times
    list_selection.move_up();
    list_selection.move_up();

    // THEN we expect multiple items/indices to be returned
    assert_eq!(true, list_selection.is_selecting());
    assert_eq!(true, list_selection.is_selected(0));
    assert_eq!(true, list_selection.is_selected(1));
    assert_eq!(true, list_selection.is_selected(2));
    let selected_items = list_selection.get_selected_items();
    assert_eq!(3, selected_items.len());
    assert_eq!(&item, selected_items[0]);
    assert_eq!(&item2, selected_items[1]);
    assert_eq!(&item3, selected_items[2]);
}

#[test]
fn test_reducing_selection_above() {
    // GIVEN a series of items to select from
    let item = build_item(1, "Test Item 1".to_owned(), 'X', 1, 1);
    let item2 = build_item(2, "Test Item 2".to_owned(), 'X', 1, 1);
    let item3 = build_item(3, "Test Item 3".to_owned(), 'X', 1, 1);
    let item4 = build_item(4, "Test Item 4".to_owned(), 'X', 1, 1);
    let items = vec! [ &item, &item2, &item3, &item4 ];

    // AND a valid list selection
    let mut list_selection = build_list_selection(items, 4);

    // AND we've begun by selecting an index (the pivot point)
    // AND then selecting above that twice
    list_selection.set_initial_selection(2);
    list_selection.toggle_select();
    list_selection.move_up();
    list_selection.move_up();

    assert_eq!(true, list_selection.is_selecting());
    assert_eq!(true, list_selection.is_selected(0));
    assert_eq!(true, list_selection.is_selected(1));
    assert_eq!(true, list_selection.is_selected(2));
    let selected_items = list_selection.get_selected_items();
    assert_eq!(3, selected_items.len());

    // WHEN we call to select down
    list_selection.move_down();

    // THEN we expect the selection to decrease towards the initial selection/pivot point (2)
    assert_eq!(true, list_selection.is_selecting());
    assert_eq!(true, list_selection.is_selected(1));
    assert_eq!(true, list_selection.is_selected(2));
    let selected_items = list_selection.get_selected_items();
    assert_eq!(2, selected_items.len());
    assert_eq!(&item2, selected_items[0]);
    assert_eq!(&item3, selected_items[1]);
}

#[test]
fn test_selecting_downwards() {
    // GIVEN a series of items to select from
    let item = build_item(1, "Test Item 1".to_owned(), 'X', 1, 1);
    let item2 = build_item(2, "Test Item 2".to_owned(), 'X', 1, 1);
    let item3 = build_item(3, "Test Item 3".to_owned(), 'X', 1, 1);
    let item4 = build_item(4, "Test Item 4".to_owned(), 'X', 1, 1);
    let items = vec! [ &item, &item2, &item3, &item4 ];

    // AND a valid list selection
    let mut list_selection = build_list_selection(items, 4);

    // AND we've begun by selecting an index  and ensuring we're selecting items
    list_selection.select(1);
    list_selection.update_selection(1);
    list_selection.toggle_select();
    // WHEN we call to move down the selection
    list_selection.move_down();

    // THEN we expect multiple items/indices to be returned
    assert_eq!(true, list_selection.is_selecting());
    assert_eq!(true, list_selection.is_selected(1));
    assert_eq!(true, list_selection.is_selected(2));
    let selected_items = list_selection.get_selected_items();
    assert_eq!(2, selected_items.len());
    assert_eq!(&item2, selected_items[0]);
    assert_eq!(&item3, selected_items[1]);
}

#[test]
fn test_selecting_downwards_multi() {
    // GIVEN a series of items to select from
    let item = build_item(1, "Test Item 1".to_owned(), 'X', 1, 1);
    let item2 = build_item(2, "Test Item 2".to_owned(), 'X', 1, 1);
    let item3 = build_item(3, "Test Item 3".to_owned(), 'X', 1, 1);
    let item4 = build_item(4, "Test Item 4".to_owned(), 'X', 1, 1);
    let items = vec! [ &item, &item2, &item3, &item4 ];

    // AND a valid list selection
    let mut list_selection = build_list_selection(items, 4);

    // AND we've begun by selecting an index  and ensuring we're selecting items
    list_selection.select(1);
    list_selection.toggle_select();
    // WHEN we call to move down the selection multiple times
    list_selection.move_down();
    list_selection.move_down();

    // THEN we expect multiple items/indices to be returned
    assert_eq!(true, list_selection.is_selecting());
    assert_eq!(true, list_selection.is_selected(1));
    assert_eq!(true, list_selection.is_selected(2));
    assert_eq!(true, list_selection.is_selected(3));
    let selected_items = list_selection.get_selected_items();
    assert_eq!(3, selected_items.len());
    assert_eq!(&item2, selected_items[0]);
    assert_eq!(&item3, selected_items[1]);
    assert_eq!(&item4, selected_items[2]);
}

#[test]
fn test_reducing_selection_below() {
    // GIVEN a series of items to select from
    let item = build_item(1, "Test Item 1".to_owned(), 'X', 1, 1);
    let item2 = build_item(2, "Test Item 2".to_owned(), 'X', 1, 1);
    let item3 = build_item(3, "Test Item 3".to_owned(), 'X', 1, 1);
    let item4 = build_item(4, "Test Item 4".to_owned(), 'X', 1, 1);
    let items = vec! [ &item, &item2, &item3, &item4 ];

    // AND a valid list selection
    let mut list_selection = build_list_selection(items, 4);

    // AND we've begun by selecting an index (the pivot point)
    // AND then selecting below that twice
    list_selection.set_initial_selection(1);
    list_selection.toggle_select();
    list_selection.move_down();
    list_selection.move_down();

    assert_eq!(true, list_selection.is_selecting());
    assert_eq!(true, list_selection.is_selected(1));
    assert_eq!(true, list_selection.is_selected(2));
    assert_eq!(true, list_selection.is_selected(3));
    let mut selected_items = list_selection.get_selected_items();
    assert_eq!(3, selected_items.len());

    // WHEN we call to select up
    list_selection.move_up();

    // THEN we expect the selection to decrease towards the initial selection/pivot point
    assert_eq!(true, list_selection.is_selecting());
    assert_eq!(true, list_selection.is_selected(1));
    assert_eq!(true, list_selection.is_selected(2));
    let selected_items = list_selection.get_selected_items();
    assert_eq!(2, selected_items.len());
    assert_eq!(&item2, selected_items[0]);
    assert_eq!(&item3, selected_items[1]);
}

#[test]
fn test_page_down_same_page() {
    // GIVEN a series of items to select from
    let item = build_item(1, "Test Item 1".to_owned(), 'X', 1, 1);
    let item2 = build_item(2, "Test Item 2".to_owned(), 'X', 1, 1);
    let item3 = build_item(3, "Test Item 3".to_owned(), 'X', 1, 1);
    let item4 = build_item(4, "Test Item 4".to_owned(), 'X', 1, 1);
    let items = vec! [ &item, &item2, &item3, &item4 ];

    // AND a valid list selection that has a line count matching our items
    let mut list_selection = build_list_selection(items, 4);

    // AND we've begun by selecting an index  and ensuring we're selecting items
    list_selection.set_initial_selection(1);
    list_selection.toggle_select();
    // WHEN we call to go down a page
    list_selection.page_down();

    // THEN we expect everything below this point to be selected
    assert_eq!(true, list_selection.is_selecting());
    assert_eq!(true, list_selection.is_selected(1));
    assert_eq!(true, list_selection.is_selected(2));
    assert_eq!(true, list_selection.is_selected(3));

    // AND the start index remains unchanged
    assert_eq!(0, list_selection.get_start_index());

    let selected_items = list_selection.get_selected_items();
    assert_eq!(3, selected_items.len());
    assert_eq!(&item2, selected_items[0]);
    assert_eq!(&item3, selected_items[1]);
    assert_eq!(&item4, selected_items[2]);
}

#[test]
fn test_page_down_multi_page_same_page() {
    // GIVEN a series of items to select from
    let item1 = build_item(1, "Test Item 1".to_owned(), 'X', 1, 1);
    let item2 = build_item(2, "Test Item 2".to_owned(), 'X', 1, 1);
    let item3 = build_item(3, "Test Item 3".to_owned(), 'X', 1, 1);
    let item4 = build_item(4, "Test Item 4".to_owned(), 'X', 1, 1);
    let item5 = build_item(1, "Test Item 1".to_owned(), 'X', 1, 1);
    let item6 = build_item(2, "Test Item 2".to_owned(), 'X', 1, 1);
    let item7 = build_item(3, "Test Item 3".to_owned(), 'X', 1, 1);
    let item8 = build_item(4, "Test Item 4".to_owned(), 'X', 1, 1);
    let items = vec! [ &item1, &item2, &item3, &item4, &item5, &item6, &item7, &item8  ];

    // AND a valid list selection that has a line count that fits half of these items
    let mut list_selection = build_list_selection(items, 4);

    // AND we've begun by selecting an index  and ensuring we're selecting items
    list_selection.set_initial_selection(1);
    list_selection.toggle_select();
    // WHEN we call to go down a page
    list_selection.page_down();

    // THEN we expect everything below this point to be selected
    // up to the end of the page
    assert_eq!(true, list_selection.is_selecting());
    assert_eq!(true, list_selection.is_selected(1));
    assert_eq!(true, list_selection.is_selected(2));
    assert_eq!(true, list_selection.is_selected(3));

    // AND the start index remains unchanged
    assert_eq!(0, list_selection.get_start_index());

    let selected_items = list_selection.get_selected_items();
    assert_eq!(3, selected_items.len());
    assert_eq!(&item2, selected_items[0]);
    assert_eq!(&item3, selected_items[1]);
    assert_eq!(&item4, selected_items[2]);
}

#[test]
fn test_page_down_multi_page_next_page() {
    // GIVEN a series of items to select from
    let item1 = build_item(1, "Test Item 1".to_owned(), 'X', 1, 1);
    let item2 = build_item(2, "Test Item 2".to_owned(), 'X', 1, 1);
    let item3 = build_item(3, "Test Item 3".to_owned(), 'X', 1, 1);
    let item4 = build_item(4, "Test Item 4".to_owned(), 'X', 1, 1);
    let item5 = build_item(5, "Test Item 5".to_owned(), 'X', 1, 1);
    let item6 = build_item(6, "Test Item 6".to_owned(), 'X', 1, 1);
    let item7 = build_item(7, "Test Item 7".to_owned(), 'X', 1, 1);
    let item8 = build_item(8, "Test Item 8".to_owned(), 'X', 1, 1);
    let items = vec! [ &item1, &item2, &item3, &item4, &item5, &item6, &item7, &item8  ];

    // AND a valid list selection that has a line count that fits half of these items
    let mut list_selection = build_list_selection(items, 4);

    // AND we've begun by selecting an index
    list_selection.set_initial_selection(1);
    // AND ensuring we're selecting items
    list_selection.toggle_select();
    // AND paging down to the end of the page
    list_selection.page_down();

    // WHEN we call to page down again
    list_selection.page_down();

    // THEN we expect the selection to turn the page
    // and select the first item on the next page
    assert_eq!(true, list_selection.is_selecting());
    assert_eq!(4, list_selection.get_selected_count());
    assert_eq!(true, list_selection.is_selected(1));
    assert_eq!(true, list_selection.is_selected(2));
    assert_eq!(true, list_selection.is_selected(3));
    // 4 items per page so index 4 is the first item on the 2nd page
    assert_eq!(true, list_selection.is_selected(4));
    // AND the start index will be the next page start index
    assert_eq!(4, list_selection.get_start_index());

    // AND the items themselves will also be selected
    let selected_items = list_selection.get_selected_items();
    assert_eq!(4, selected_items.len());
    assert_eq!(&item2, selected_items[0]);
    assert_eq!(&item3, selected_items[1]);
    assert_eq!(&item4, selected_items[2]);
    assert_eq!(&item5, selected_items[3]);
}

#[test]
fn test_page_up_multi_page_same_page() {
    // GIVEN a series of items to select from
    let item1 = build_item(0, "Test Item 1".to_owned(), 'X', 1, 1);
    let item2 = build_item(1, "Test Item 2".to_owned(), 'X', 1, 1);
    let item3 = build_item(2, "Test Item 3".to_owned(), 'X', 1, 1);
    let item4 = build_item(3, "Test Item 4".to_owned(), 'X', 1, 1);
    let item5 = build_item(4, "Test Item 5".to_owned(), 'X', 1, 1);
    let item6 = build_item(5, "Test Item 6".to_owned(), 'X', 1, 1);
    let item7 = build_item(6, "Test Item 7".to_owned(), 'X', 1, 1);
    let item8 = build_item(7, "Test Item 8".to_owned(), 'X', 1, 1);
    let items = vec! [ &item1, &item2, &item3, &item4, &item5, &item6, &item7, &item8  ];

    // AND a valid list selection that has a line count that fits half of these items
    let mut list_selection = build_list_selection(items, 4);

    // AND we've begun by navigating to the correct index and initialising selection
    list_selection.page_down();  // end of first page
    list_selection.page_down();  // 2nd page
    list_selection.set_initial_selection(2); // 3rd item of 2nd page
    list_selection.toggle_select();
    assert_eq!(4, list_selection.get_start_index());

    // WHEN we call to go up a page
    list_selection.page_up();

    // THEN we expect everything from the top of the page to the original point to be selected
    assert_eq!(true, list_selection.is_selecting());
    // Items 5,6, and 7
    assert_eq!(true, list_selection.is_selected(4));
    assert_eq!(true, list_selection.is_selected(5));
    assert_eq!(true, list_selection.is_selected(6));

    // AND the start index remains unchanged
    assert_eq!(4, list_selection.get_start_index());

    let selected_items = list_selection.get_selected_items();
    assert_eq!(3, selected_items.len());
    assert_eq!(&item5, selected_items[0]);
    assert_eq!(&item6, selected_items[1]);
    assert_eq!(&item7, selected_items[2]);
}

#[test]
fn test_page_up_multi_page_previous_page() {
    // GIVEN a series of items to select from
    let item1 = build_item(0, "Test Item 1".to_owned(), 'X', 1, 1);
    let item2 = build_item(1, "Test Item 2".to_owned(), 'X', 1, 1);
    let item3 = build_item(2, "Test Item 3".to_owned(), 'X', 1, 1);
    let item4 = build_item(3, "Test Item 4".to_owned(), 'X', 1, 1);
    let item5 = build_item(4, "Test Item 5".to_owned(), 'X', 1, 1);
    let item6 = build_item(5, "Test Item 6".to_owned(), 'X', 1, 1);
    let item7 = build_item(6, "Test Item 7".to_owned(), 'X', 1, 1);
    let item8 = build_item(7, "Test Item 8".to_owned(), 'X', 1, 1);
    let items = vec! [ &item1, &item2, &item3, &item4, &item5, &item6, &item7, &item8  ];

    // AND a valid list selection that has a line count that fits half of these items
    let mut list_selection = build_list_selection(items, 4);

    // AND we've begun by navigating to the correct index and initialising selection
    list_selection.page_down();  // end of first page
    list_selection.page_down();  // 2nd page
    list_selection.set_initial_selection(2); // 3rd item of 2nd page
    list_selection.toggle_select();
    assert_eq!(4, list_selection.get_start_index());

    // WHEN we call to go up a page twice
    list_selection.page_up();
    list_selection.page_up();

    // THEN we expect the selection to turn back the page and select the last item on the previous page
    assert_eq!(true, list_selection.is_selecting());
    assert_eq!(true, list_selection.is_selected(3));
    assert_eq!(true, list_selection.is_selected(4));
    assert_eq!(true, list_selection.is_selected(5));
    assert_eq!(true, list_selection.is_selected(6));

    // AND the start index is now the start of the previous page
    assert_eq!(0, list_selection.get_start_index());

    // AND our selection is the last item of page 1 and the first 3 items of page 2
    let selected_items = list_selection.get_selected_items();
    assert_eq!(4, selected_items.len());
    assert_eq!(&item4, selected_items[0]);
    assert_eq!(&item5, selected_items[1]);
    assert_eq!(&item6, selected_items[2]);
    assert_eq!(&item7, selected_items[3]);
}
