use nikola::backend::Size;
use nikola::binding::Access;
use nikola::computer::{compute_work_group_count, Dimensions};
use nikola::general::PhysicalSize;

#[test]
fn work_groups_cover_the_extent() {
    assert_eq!(compute_work_group_count((16, 16), (8, 8)), (2, 2));
    assert_eq!(compute_work_group_count((17, 15), (8, 8)), (3, 2));
    assert_eq!(compute_work_group_count((1, 64), (8, 8)), (1, 8));
}

#[test]
fn no_work_groups_for_an_empty_extent() {
    assert_eq!(compute_work_group_count((0, 0), (8, 8)), (0, 0));
}

#[test]
fn work_groups_of_one_item() {
    assert_eq!(compute_work_group_count((1920, 1080), (1, 1)), (1920, 1080));
}

#[test]
fn dimensions_keep_width_and_height() {
    let dimensions = Dimensions::new(640, 480);
    assert_eq!(dimensions.as_tuple(), (640, 480));
    assert_eq!(dimensions.width, 640);
    assert_eq!(dimensions.height, 480);
}

#[test]
fn dimensions_from_a_physical_size() {
    let dimensions = Dimensions::from_size(PhysicalSize::new(800, 600));
    assert_eq!(dimensions.as_tuple(), (800, 600));
}

#[test]
fn only_read_access_is_read_only() {
    assert!(Access::Read.to_bool_read());
    assert!(!Access::Write.to_bool_read());
    assert!(!Access::Both.to_bool_read());
}

#[test]
fn size_keeps_width_and_height() {
    let size = Size::new(640u32, 480u32);
    assert_eq!(size.into_tuple(), (640, 480));
    assert_eq!(size.into_u32_tuple(), (640, 480));
    let size = Size::from_tuple((3u16, 4u16));
    assert_eq!(size.into_tuple(), (3, 4));
    assert_eq!(size.into_u32_tuple(), (3, 4));
    let size = Size::from_physical(PhysicalSize::new(255u8, 0u8));
    assert_eq!(size.into_u32_tuple(), (255, 0));
}

#[test]
fn size_fits_the_other_rounded_up() {
    let size = Size::new(17u32, 16u32);
    let count = size.fit_other(Size::new(8, 8));
    assert_eq!(count.into_tuple(), (3, 2));
    let count = Size::new(0u16, 1u16).fit_other(Size::new(8, 8));
    assert_eq!(count.into_tuple(), (0, 1));
    let count = Size::new(u32::MAX - 1, 5).fit_other(Size::new(1, 5));
    assert_eq!(count.into_tuple(), (u32::MAX - 1, 1));
}
