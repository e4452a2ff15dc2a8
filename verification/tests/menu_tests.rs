use rxr::menu::{option_number, Menu};

fn menu_of(count: usize) -> Menu {
    let paths: Vec<String> = (0..count).map(|i| format!("item{}.exe", i)).collect();
    Menu::from(&paths)
}

fn selected(menu: &Menu) -> Vec<usize> {
    let mut numbers: Vec<usize> = menu.get_selected().iter().cloned().collect();
    numbers.sort();
    numbers
}

#[test]
fn a_new_menu_shows_its_first_page() {
    let menu = menu_of(45);
    assert_eq!(menu.current_page(), 0);
    assert_eq!(menu.items_per_page(), 20);
    assert_eq!(menu.last_page(), 2);
    assert_eq!(menu.item_list().len(), 45);
    assert_eq!(menu.item_list()[44], "item44.exe");
    assert!(menu.get_selected().is_empty());
    assert_eq!(menu.get_page_range(), (0, 20));
    assert_eq!(menu_of(0).get_page_range(), (0, 0));
    assert_eq!(menu_of(0).last_page(), 0);
    assert_eq!(menu_of(20).last_page(), 1);
    assert_eq!(menu_of(19).get_page_range(), (0, 19));
}

#[test]
fn keys_turn_the_pages() {
    let mut menu = menu_of(45);
    assert!(menu.handle_input(b'<'));
    assert_eq!(menu.current_page(), 0);
    assert!(menu.handle_input(b'>'));
    assert_eq!(menu.get_page_range(), (20, 40));
    assert!(menu.handle_input(b'>'));
    assert_eq!(menu.get_page_range(), (40, 45));
    assert!(menu.handle_input(b'>'));
    assert_eq!(menu.current_page(), 2);
    assert!(menu.handle_input(b'<'));
    assert_eq!(menu.current_page(), 1);

    let mut full = menu_of(40);
    full.handle_input(b'>');
    full.handle_input(b'>');
    assert_eq!(full.current_page(), 2);
    assert_eq!(full.get_page_range(), (40, 40));
}

#[test]
fn keys_select_and_deselect() {
    let mut menu = menu_of(45);
    assert!(menu.handle_input(b'1'));
    assert!(menu.handle_input(b'q'));
    assert!(menu.handle_input(b'/'));
    assert_eq!(selected(&menu), vec![0, 10, 39]);
    assert!(menu.handle_input(b'q'));
    assert_eq!(selected(&menu), vec![0, 39]);
    assert!(menu.handle_input(b'A'));
    assert!(menu.handle_input(b' '));
    assert_eq!(selected(&menu), vec![0, 39]);
}

#[test]
fn enter_ends_the_menu() {
    let mut menu = menu_of(3);
    menu.handle_input(b'2');
    assert!(!menu.handle_input(10));
    assert!(!menu.handle_input(13));
    assert_eq!(selected(&menu), vec![1]);
    assert_eq!(menu.current_page(), 0);
}

#[test]
fn the_keys_that_select_are_numbered_in_order() {
    let keys = b"1234567890qwertyuiopasdfghjkl;zxcvbnm,./";
    assert_eq!(keys.len(), 40);
    for (number, key) in keys.iter().enumerate() {
        assert_eq!(option_number(*key), Some(number));
    }
    assert_eq!(option_number(b'<'), None);
    assert_eq!(option_number(10), None);
    assert_eq!(option_number(b'Q'), None);
}
