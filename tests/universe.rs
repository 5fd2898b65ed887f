use tokenizer::{Universe, WasmUniverse};

#[test]
fn area_is_width_times_height() {
    assert_eq!(Universe::new(3, 7).get_area(), 21);
    assert_eq!(Universe::new(0, 9).get_area(), 0);
}

#[test]
fn handle_holds_the_universe() {
    let handle = WasmUniverse::new(4, 5);
    assert_eq!(handle.get_universe().get_area(), 20);
}

#[test]
fn area_that_does_not_fit() {
    assert_eq!(Universe::new(65536, 65536).checked_area(), None);
    assert_eq!(Universe::new(65535, 65537).checked_area(), Some(4294967295));
}
