use two_stack_queue::broom::{chop, Broom, BroomIntent};
use two_stack_queue::extrema::find_extrema;
use two_stack_queue::grayscale::new_map;

#[test]
fn map_keeps_size_and_pixels() {
    let width: usize = 1024;
    let height: usize = 576;
    let image = new_map((width, height), vec![0; width * height]);
    assert_eq!(image.size(), (1024, 576));
    assert_eq!(image.pixels().len(), 1024 * 576);
}

#[test]
fn map_keeps_each_pixel() {
    let image = new_map((3, 2), vec![1, 2, 3, 4, 5, 6]);
    assert_eq!(image.size(), (3, 2));
    assert_eq!(image.pixels(), &vec![1u8, 2, 3, 4, 5, 6]);
}

#[test]
fn map_of_no_pixels() {
    let image = new_map((0, 7), Vec::new());
    assert_eq!(image.size(), (0, 7));
    assert!(image.pixels().is_empty());
}

#[test]
fn chop_makes_two_half_brooms() {
    let hokey = Broom {
        name: "Hokey".to_string(),
        height: 60,
        health: 100,
        position: (100.0f32, 200.0f32, 0.0f32),
        intent: BroomIntent::FetchWater,
    };
    let (hokey1, hokey2) = chop(hokey);
    assert_eq!(hokey1.name, "Hokey I");
    assert_eq!(hokey1.height, 30);
    assert_eq!(hokey1.health, 100);
    assert_eq!(hokey1.position, (100.0, 200.0, 0.0));
    assert_ne!(hokey1.intent, BroomIntent::DumpWater);
    assert_eq!(hokey1.intent, BroomIntent::FetchWater);
    assert_eq!(hokey2.name, "Hokey II");
    assert_eq!(hokey2.height, 30);
    assert_eq!(hokey2.health, 100);
    assert_eq!(hokey2.position, (100.0, 200.0, 0.0));
    assert_ne!(hokey2.intent, BroomIntent::DumpWater);
    assert_eq!(hokey2.intent, BroomIntent::FetchWater);
}

#[test]
fn chop_rounds_odd_height_down() {
    let b = Broom {
        name: String::new(),
        height: 7,
        health: 1,
        position: (),
        intent: BroomIntent::DumpWater,
    };
    let (first, second) = chop(b);
    assert_eq!(first.name, " I");
    assert_eq!(second.name, " II");
    assert_eq!(first.height, 3);
    assert_eq!(second.height, 3);
    assert_eq!(first.intent, BroomIntent::DumpWater);
    assert_eq!(second.intent, BroomIntent::DumpWater);
}

#[test]
fn extrema_of_five_numbers() {
    let a = [0, -3, 0, 15, 48];
    let e = find_extrema(&a);
    assert_eq!(*e.least, -3);
    assert_eq!(*e.greatest, 48);
}

#[test]
fn extrema_of_one_number() {
    let a = [5];
    let e = find_extrema(&a);
    assert_eq!(*e.least, 5);
    assert_eq!(*e.greatest, 5);
}

#[test]
fn extrema_at_the_ends_of_the_range() {
    let a = [i32::MAX, 0, i32::MIN, 0];
    let e = find_extrema(&a);
    assert_eq!(*e.least, i32::MIN);
    assert_eq!(*e.greatest, i32::MAX);
}

#[test]
fn extrema_refer_into_the_slice() {
    let a = [4, 9, 1, 9, 1];
    let e = find_extrema(&a);
    assert!(std::ptr::eq(e.least, &a[2]));
    assert!(std::ptr::eq(e.greatest, &a[1]));
}
