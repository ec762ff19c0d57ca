use panko::backend::Error;
use panko::resource::ResourceTable;
use panko::types::{
    half_of, minus_of, saturate, saturate_wide, Color, CopyTextureOptions, Dimensions, Flip,
    GlyphMetrics, Key, Point, Rect, TextAlign, TextCrossAlign, TextPadding, WindowConfig,
};

#[test]
fn glyph_extents_are_differences_of_the_bounds() {
    let metrics = GlyphMetrics { min_x: 2, max_x: 11, min_y: -3, max_y: 9, advance: 12 };
    assert_eq!(metrics.height(), 9);
    assert_eq!(metrics.width(), 12);
    let swapped = GlyphMetrics { min_x: 5, max_x: 4, min_y: i32::MIN, max_y: i32::MAX, advance: 0 };
    assert_eq!(swapped.height(), u32::MAX);
    assert_eq!(swapped.width(), u32::MAX);
}

#[test]
fn points_rects_and_colours_hold_what_they_are_given() {
    assert_eq!(Point::new(-1, 2), Point { x: -1, y: 2 });
    let rect = Rect::new(3, 4, 5, 6);
    assert_eq!(rect, Rect { x: 3, y: 4, w: 5, h: 6 });
    assert_eq!(rect.point(), Point::new(3, 4));
    assert_eq!(Color::new(1, 2, 3, 4), Color { r: 1, g: 2, b: 3, a: 4 });
    assert_eq!(Color::black(), Color::new(0, 0, 0, 0));
    assert_eq!(Color::white(), Color::new(255, 255, 255, 255));
    assert_eq!(Color::green(), Color::new(0, 255, 0, 255));
    assert_eq!(Color::red(), Color::new(255, 0, 0, 255));
    assert_eq!(Color::blue(), Color::new(0, 255, 0, 255));
    assert_eq!(TextAlign::default(), TextAlign::Left);
    assert_eq!(TextCrossAlign::default(), TextCrossAlign::Start);
    assert_eq!(TextPadding::default().left, 0);
}

#[test]
fn numbers_are_brought_into_range() {
    assert_eq!(saturate(5), 5);
    assert_eq!(saturate(i64::MAX), i32::MAX);
    assert_eq!(saturate(i64::MIN), i32::MIN);
    assert_eq!(saturate_wide(-7), -7);
    assert_eq!(saturate_wide(1 << 90), i32::MAX);
    assert_eq!(saturate_wide(-(1 << 90)), i32::MIN);
    assert_eq!(minus_of(7, 3), 4);
    assert_eq!(minus_of(3, 7), 0);
    assert_eq!(half_of(7), 3);
    assert_eq!(half_of(-7), -3);
    assert_eq!(half_of(0), 0);
}

#[test]
fn small_decisions_of_a_backend() {
    let size = Dimensions { width: 3, height: 4 };
    let asked = WindowConfig::Borderless(size).size();
    assert_eq!((asked.width, asked.height), (3, 4));
    let asked = WindowConfig::Bordered { size, resizable: true }.size();
    assert_eq!((asked.width, asked.height), (3, 4));
    let asked = WindowConfig::Fullscreen.size();
    assert_eq!((asked.width, asked.height), (0, 0));
    assert_eq!(Key::from_letter('w'), Some(Key::W));
    assert_eq!(Key::from_letter('a'), Some(Key::A));
    assert_eq!(Key::from_letter('s'), Some(Key::S));
    assert_eq!(Key::from_letter('d'), Some(Key::D));
    assert_eq!(Key::from_letter('W'), None);
    let mut options = CopyTextureOptions::default();
    assert_eq!(options.flip(), Flip::Unflipped);
    options.flip_v = true;
    assert_eq!(options.flip(), Flip::Vertical);
    options.flip_h = true;
    assert_eq!(options.flip(), Flip::Horizontal);
}

#[test]
fn a_table_gives_each_number_once() {
    let mut table: ResourceTable<&str> = ResourceTable::new();
    assert_eq!(table.len(), 0);
    assert_eq!(table.get(0).err(), Some(Error::ResourceNotFound));
    assert_eq!(table.insert("a"), Ok(0));
    assert_eq!(table.insert("b"), Ok(1));
    assert_eq!(table.get(1), Ok(&"b"));
    assert_eq!(table.take(0), Some("a"));
    assert_eq!(table.take(0), None);
    assert_eq!(table.take(9), None);
    assert_eq!(table.get(0).err(), Some(Error::ResourceNotFound));
    assert_eq!(table.insert("c"), Ok(2));
    assert_eq!(table.len(), 3);
    assert_eq!(table.get(2), Ok(&"c"));
}

#[test]
fn errors_say_what_went_wrong() {
    assert_eq!(Error::ResourceNotFound.message(), "resource not found");
    assert_eq!(Error::BackendFailure(String::from("no device")).message(), "no device");
    assert_eq!(Error::AtlasCapacityExceeded.message(), "glyph does not fit into an atlas");
    assert_eq!(Error::InvalidInput.message(), "invalid input");
}
