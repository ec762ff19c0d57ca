use panko::backend::{Backend, Error, Traced};
use panko::canvas::Canvas;
use panko::atlas::{Allocation, FontAtlas, ATLAS_HEIGHT, ATLAS_WIDTH};
use panko::font::{place_glyph, Font, FontGlyphEntry};
use panko::types::{
    Color, CopyTextureOptions, Event, FontData, FontId, GlyphMetrics, Point, Rect, TextAlign,
    TextCrossAlign, TextPadding, TextureData, TextureId, WindowConfig,
};

#[derive(Clone, Debug, PartialEq)]
enum Call {
    Bind(Option<TextureId>),
    Metrics(char),
    Glyph(char, Point),
    Copy(TextureId, CopyTextureOptions),
    CreateTexture(u32, u32),
    DestroyTexture(TextureId),
    LoadFont(String, u8),
    DestroyFont(FontId),
}

struct Fake {
    calls: Vec<Call>,
    textures: u32,
    atlas: (u32, u32),
    advance: u32,
    glyph_height: u32,
    refuse_glyph: Option<char>,
    refuse_textures_after: Option<u32>,
}

impl Fake {
    fn new(atlas: (u32, u32), advance: u32, glyph_height: u32) -> Self {
        Fake {
            calls: Vec::new(),
            textures: 0,
            atlas,
            advance,
            glyph_height,
            refuse_glyph: None,
            refuse_textures_after: None,
        }
    }

    fn glyphs_drawn(&self) -> usize {
        self.calls.iter().filter(|c| matches!(c, Call::Glyph(..))).count()
    }
}

impl Backend for Fake {
    fn window_set_config(&mut self, _config: WindowConfig) -> Result<(), Error> {
        Ok(())
    }
    fn texture_create(&mut self, w: u32, h: u32) -> Result<TextureData, Error> {
        self.calls.push(Call::CreateTexture(w, h));
        if let Some(limit) = self.refuse_textures_after {
            if self.textures >= limit {
                return Err(Error::BackendFailure(String::from("out of textures")));
            }
        }
        let id = TextureId(self.textures);
        self.textures += 1;
        Ok(TextureData { id, width: self.atlas.0, height: self.atlas.1 })
    }
    fn texture_load(&mut self, _path: &str) -> Result<TextureData, Error> {
        Err(Error::ResourceNotFound)
    }
    fn texture_destroy(&mut self, id: TextureId) -> Result<(), Error> {
        self.calls.push(Call::DestroyTexture(id));
        Ok(())
    }
    fn font_load(&mut self, path: &str, scale: u8) -> Result<FontData, Error> {
        self.calls.push(Call::LoadFont(String::from(path), scale));
        Ok(FontData { id: FontId(7), glyphs_height: self.glyph_height })
    }
    fn font_destroy(&mut self, id: FontId) -> Result<(), Error> {
        self.calls.push(Call::DestroyFont(id));
        Ok(())
    }
    fn font_glyph_metrics(&mut self, _font: FontId, glyph: char) -> Result<GlyphMetrics, Error> {
        self.calls.push(Call::Metrics(glyph));
        Ok(GlyphMetrics { min_x: 0, max_x: 8, min_y: 0, max_y: 9, advance: self.advance })
    }
    fn render_set_logical_size(&mut self, _w: u32, _h: u32) -> Result<(), Error> {
        Ok(())
    }
    fn render_set_target(&mut self, target: Option<TextureId>) -> Result<(), Error> {
        self.calls.push(Call::Bind(target));
        Ok(())
    }
    fn render_set_draw_color(&mut self, _color: Color) -> Result<(), Error> {
        Ok(())
    }
    fn render_clear(&mut self) -> Result<(), Error> {
        Ok(())
    }
    fn render_present(&mut self) -> Result<(), Error> {
        Ok(())
    }
    fn render_copy_texture(&mut self, t: TextureId, o: CopyTextureOptions) -> Result<(), Error> {
        self.calls.push(Call::Copy(t, o));
        Ok(())
    }
    fn render_fill_rect(&mut self, _rect: Option<Rect>, _color: Color) -> Result<(), Error> {
        Ok(())
    }
    fn render_draw_rect(&mut self, _rect: Option<Rect>, _color: Color) -> Result<(), Error> {
        Ok(())
    }
    fn render_font_glyph(&mut self, _f: FontId, glyph: char, origin: Point) -> Result<(), Error> {
        self.calls.push(Call::Glyph(glyph, origin));
        if self.refuse_glyph == Some(glyph) {
            return Err(Error::BackendFailure(String::from("cannot draw")));
        }
        Ok(())
    }
    fn events_pump(&mut self, _events: &mut Vec<Event>) {}
    fn input_mouse_position(&mut self) -> Result<(i32, i32), Error> {
        Ok((0, 0))
    }
    fn system_get_millis(&mut self) -> Result<u64, Error> {
        Ok(0)
    }
    fn system_log(&self, _s: &str) {}
}

fn rect_of(font: &Font, glyph: char) -> (usize, Rect) {
    let entry = font.glyph(glyph).expect("glyph has an entry");
    (entry.atlas_index, entry.rect)
}

#[test]
fn a_new_font_asks_for_the_font_and_one_atlas() {
    let mut backend = Traced::new(Fake::new((64, 64), 10, 12));
    let font = Font::new(&mut backend, "mono.ttf", 16).unwrap();
    assert_eq!(font.id(), FontId(7));
    assert_eq!(font.scale(), 16);
    assert_eq!(font.glyphs_height(), 12);
    assert_eq!(font.atlas_count(), 1);
    assert_eq!(font.atlas(0), Some(TextureId(0)));
    assert_eq!(font.atlas(1), None);
    assert!(font.glyph('a').is_none());
    assert_eq!(
        backend.backend().calls,
        vec![
            Call::LoadFont(String::from("mono.ttf"), 16),
            Call::CreateTexture(ATLAS_WIDTH, ATLAS_HEIGHT)
        ]
    );
}

#[test]
fn a_font_without_an_atlas_is_given_back() {
    let mut fake = Fake::new((64, 64), 10, 12);
    fake.refuse_textures_after = Some(0);
    let mut backend = Traced::new(fake);
    let r = Font::new(&mut backend, "mono.ttf", 16);
    assert_eq!(r.err(), Some(Error::BackendFailure(String::from("out of textures"))));
    assert_eq!(
        backend.backend().calls,
        vec![
            Call::LoadFont(String::from("mono.ttf"), 16),
            Call::CreateTexture(ATLAS_WIDTH, ATLAS_HEIGHT),
            Call::DestroyFont(FontId(7))
        ]
    );
}

#[test]
fn the_second_glyph_wraps_to_the_next_row() {
    let mut backend = Traced::new(Fake::new((15, 100), 10, 12));
    let mut font = Font::new(&mut backend, "mono.ttf", 16).unwrap();
    {
        let mut canvas = Canvas::new(&mut backend, None).unwrap();
        assert_eq!(font.register_text("ab", &mut canvas), Ok(()));
    }
    assert_eq!(rect_of(&font, 'a'), (0, Rect::new(0, 0, 10, 12)));
    assert_eq!(rect_of(&font, 'b'), (0, Rect::new(0, 12, 10, 12)));
    let calls = &backend.backend().calls[2..];
    assert_eq!(
        calls,
        &[
            Call::Bind(None),
            Call::Bind(Some(TextureId(0))),
            Call::Metrics('a'),
            Call::Glyph('a', Point::new(0, 0)),
            Call::Metrics('b'),
            Call::Glyph('b', Point::new(0, 12)),
            Call::Bind(None),
        ]
    );
}

#[test]
fn registering_again_costs_no_call() {
    let mut backend = Traced::new(Fake::new((64, 64), 10, 12));
    let mut font = Font::new(&mut backend, "mono.ttf", 16).unwrap();
    {
        let mut canvas = Canvas::new(&mut backend, None).unwrap();
        assert_eq!(font.register_text("hello", &mut canvas), Ok(()));
    }
    let calls_once = backend.backend().calls.clone();
    assert_eq!(backend.backend().glyphs_drawn(), 4);
    let entries_once: Vec<_> = "helo".chars().map(|c| rect_of(&font, c)).collect();
    {
        let mut canvas = Canvas::new(&mut backend, None).unwrap();
        assert_eq!(font.register_text("hello", &mut canvas), Ok(()));
    }
    let mut expected = calls_once;
    expected.push(Call::Bind(None));
    assert_eq!(backend.backend().calls, expected);
    assert_eq!(backend.backend().glyphs_drawn(), 4);
    let entries_twice: Vec<_> = "helo".chars().map(|c| rect_of(&font, c)).collect();
    assert_eq!(entries_once, entries_twice);
    assert_eq!(font.atlas_count(), 1);
}

#[test]
fn glyphs_stay_inside_their_atlas_and_apart() {
    let mut backend = Traced::new(Fake::new((25, 25), 10, 10));
    let mut font = Font::new(&mut backend, "mono.ttf", 16).unwrap();
    let text = "abcdefghij";
    {
        let mut canvas = Canvas::new(&mut backend, None).unwrap();
        assert_eq!(font.register_text(text, &mut canvas), Ok(()));
    }
    assert_eq!(font.atlas_count(), 3);
    let placed: Vec<(usize, Rect)> = text.chars().map(|c| rect_of(&font, c)).collect();
    for (atlas, rect) in &placed {
        assert!(*atlas < font.atlas_count());
        assert!(rect.x >= 0 && rect.y >= 0);
        assert!(rect.x as u32 + rect.w <= 25);
        assert!(rect.y as u32 + rect.h <= 25);
    }
    for (i, a) in placed.iter().enumerate() {
        for b in &placed[i + 1..] {
            assert!(a.0 != b.0 || a.1.x != b.1.x || a.1.y != b.1.y);
        }
    }
    assert_eq!(placed[0], (0, Rect::new(0, 0, 10, 10)));
    assert_eq!(placed[1], (0, Rect::new(10, 0, 10, 10)));
    assert_eq!(placed[2], (0, Rect::new(0, 10, 10, 10)));
    assert_eq!(placed[3], (0, Rect::new(10, 10, 10, 10)));
    assert_eq!(placed[4], (1, Rect::new(0, 0, 10, 10)));
    assert_eq!(placed[8], (2, Rect::new(0, 0, 10, 10)));
    assert_eq!(placed[9], (2, Rect::new(10, 0, 10, 10)));
}

#[test]
fn a_full_atlas_hands_the_glyph_to_a_new_one() {
    let mut backend = Traced::new(Fake::new((20, 10), 10, 10));
    let mut screen = panko::texture::Texture::new_target(&mut backend, 20, 10).unwrap();
    let mut font = Font::new(&mut backend, "mono.ttf", 16).unwrap();
    {
        let mut canvas = Canvas::new(&mut backend, Some(&mut screen)).unwrap();
        assert_eq!(font.register_text("abc", &mut canvas), Ok(()));
    }
    assert_eq!(rect_of(&font, 'a'), (0, Rect::new(0, 0, 10, 10)));
    assert_eq!(rect_of(&font, 'b'), (0, Rect::new(10, 0, 10, 10)));
    assert_eq!(rect_of(&font, 'c'), (1, Rect::new(0, 0, 10, 10)));
    assert_eq!(font.atlas(0), Some(TextureId(1)));
    assert_eq!(font.atlas(1), Some(TextureId(2)));
    let calls = &backend.backend().calls[3..];
    assert_eq!(
        calls,
        &[
            Call::Bind(Some(TextureId(0))),
            Call::Bind(Some(TextureId(1))),
            Call::Metrics('a'),
            Call::Glyph('a', Point::new(0, 0)),
            Call::Metrics('b'),
            Call::Glyph('b', Point::new(10, 0)),
            Call::Metrics('c'),
            Call::Bind(Some(TextureId(0))),
            Call::CreateTexture(ATLAS_WIDTH, ATLAS_HEIGHT),
            Call::Bind(Some(TextureId(2))),
            Call::Metrics('c'),
            Call::Glyph('c', Point::new(0, 0)),
            Call::Bind(Some(TextureId(0))),
        ]
    );
}

#[test]
fn a_glyph_wider_than_an_atlas_is_refused() {
    let mut backend = Traced::new(Fake::new((20, 20), 30, 10));
    let mut font = Font::new(&mut backend, "mono.ttf", 16).unwrap();
    {
        let mut canvas = Canvas::new(&mut backend, None).unwrap();
        assert_eq!(font.register_text("a", &mut canvas), Err(Error::AtlasCapacityExceeded));
    }
    assert!(font.glyph('a').is_none());
    assert_eq!(font.atlas_count(), 1);
    assert_eq!(backend.backend().calls.last(), Some(&Call::Bind(None)));
}

#[test]
fn a_row_higher_than_an_atlas_is_refused() {
    let mut backend = Traced::new(Fake::new((20, 8), 5, 10));
    let mut font = Font::new(&mut backend, "mono.ttf", 16).unwrap();
    let mut canvas = Canvas::new(&mut backend, None).unwrap();
    assert_eq!(font.register_text("a", &mut canvas), Err(Error::AtlasCapacityExceeded));
}

#[test]
fn a_glyph_that_cannot_be_drawn_keeps_the_glyphs_before_it() {
    let mut fake = Fake::new((64, 64), 10, 10);
    fake.refuse_glyph = Some('c');
    let mut backend = Traced::new(fake);
    let mut font = Font::new(&mut backend, "mono.ttf", 16).unwrap();
    {
        let mut canvas = Canvas::new(&mut backend, None).unwrap();
        assert_eq!(
            font.register_text("abcd", &mut canvas),
            Err(Error::BackendFailure(String::from("cannot draw")))
        );
    }
    assert!(font.glyph('a').is_some());
    assert!(font.glyph('b').is_some());
    assert!(font.glyph('c').is_none());
    assert!(font.glyph('d').is_none());
    assert_eq!(backend.backend().calls.last(), Some(&Call::Bind(None)));
}

#[test]
fn a_line_is_one_copy_for_each_glyph() {
    let mut backend = Traced::new(Fake::new((64, 64), 10, 12));
    let mut font = Font::new(&mut backend, "mono.ttf", 16).unwrap();
    let color = Color::new(1, 2, 3, 4);
    {
        let mut canvas = Canvas::new(&mut backend, None).unwrap();
        assert_eq!(canvas.draw_text(&mut font, "aba", Point::new(5, 7), color), Ok(()));
    }
    let copies: Vec<Call> = backend
        .backend()
        .calls
        .iter()
        .filter(|c| matches!(c, Call::Copy(..)))
        .cloned()
        .collect();
    let copy = |src: Rect, x: i32| {
        Call::Copy(
            TextureId(0),
            CopyTextureOptions {
                src: Some(src),
                dest: Some(Rect::new(x, 7, 10, 12)),
                center: None,
                angle_bits: 0,
                flip_h: false,
                flip_v: false,
                color_mod: Some(color),
            },
        )
    };
    assert_eq!(
        copies,
        vec![
            copy(Rect::new(0, 0, 10, 12), 5),
            copy(Rect::new(10, 0, 10, 12), 15),
            copy(Rect::new(0, 0, 10, 12), 25),
        ]
    );
}

fn origins(backend: &Traced<Fake>) -> Vec<(i32, i32)> {
    backend
        .backend()
        .calls
        .iter()
        .filter_map(|c| match c {
            Call::Copy(_, options) => options.dest.map(|d| (d.x, d.y)),
            _ => None,
        })
        .collect()
}

#[test]
fn bounded_text_is_drawn_line_below_line() {
    let mut backend = Traced::new(Fake::new((256, 256), 10, 12));
    let mut font = Font::new(&mut backend, "mono.ttf", 16).unwrap();
    {
        let mut canvas = Canvas::new(&mut backend, None).unwrap();
        let r = canvas.draw_text_bounded(
            &mut font,
            "the cat sat",
            Color::white(),
            Rect::new(100, 200, 45, 90),
            TextAlign::Left,
            TextCrossAlign::Start,
            TextPadding { left: 4, right: 6, top: 3, bottom: 0 },
        );
        assert_eq!(r, Ok(()));
    }
    assert_eq!(
        origins(&backend),
        vec![
            (104, 203),
            (114, 203),
            (124, 203),
            (104, 215),
            (114, 215),
            (124, 215),
            (104, 227),
            (114, 227),
            (124, 227),
        ]
    );
}

#[test]
fn bounded_text_is_aligned_by_the_width_of_each_line() {
    let mut backend = Traced::new(Fake::new((256, 256), 10, 12));
    let mut font = Font::new(&mut backend, "mono.ttf", 16).unwrap();
    {
        let mut canvas = Canvas::new(&mut backend, None).unwrap();
        let r = canvas.draw_text_bounded(
            &mut font,
            "ab c",
            Color::white(),
            Rect::new(0, 0, 25, 100),
            TextAlign::Right,
            TextCrossAlign::End,
            TextPadding::default(),
        );
        assert_eq!(r, Ok(()));
        let r = canvas.draw_text_bounded(
            &mut font,
            "ab c",
            Color::white(),
            Rect::new(0, 0, 25, 100),
            TextAlign::Center,
            TextCrossAlign::Center,
            TextPadding::default(),
        );
        assert_eq!(r, Ok(()));
    }
    assert_eq!(
        origins(&backend),
        vec![(5, 24), (15, 24), (15, 36), (2, 12), (12, 12), (7, 24)]
    );
}

#[test]
fn justified_text_is_refused_without_a_call() {
    let mut backend = Traced::new(Fake::new((256, 256), 10, 12));
    let mut font = Font::new(&mut backend, "mono.ttf", 16).unwrap();
    let mut canvas = Canvas::new(&mut backend, None).unwrap();
    let r = canvas.draw_text_bounded(
        &mut font,
        "ab c",
        Color::white(),
        Rect::new(0, 0, 25, 100),
        TextAlign::Justified,
        TextCrossAlign::Start,
        TextPadding::default(),
    );
    assert_eq!(r, Err(Error::InvalidInput));
    assert!(font.glyph('a').is_none());
}

#[test]
fn the_width_of_a_text_is_the_sum_of_its_advances() {
    let mut backend = Traced::new(Fake::new((256, 256), 7, 12));
    let mut font = Font::new(&mut backend, "mono.ttf", 16).unwrap();
    let mut canvas = Canvas::new(&mut backend, None).unwrap();
    assert_eq!(canvas.text_width(&mut font, "hello"), Ok(35));
    assert_eq!(canvas.text_width(&mut font, ""), Ok(0));
}

#[test]
fn an_atlas_of_a_font_can_be_copied() {
    let mut backend = Traced::new(Fake::new((256, 256), 7, 12));
    let font = Font::new(&mut backend, "mono.ttf", 16).unwrap();
    {
        let mut canvas = Canvas::new(&mut backend, None).unwrap();
        assert_eq!(canvas.copy_font_atlas(&font, 0, CopyTextureOptions::default()), Ok(()));
        assert_eq!(
            canvas.copy_font_atlas(&font, 1, CopyTextureOptions::default()),
            Err(Error::ResourceNotFound)
        );
    }
    assert_eq!(
        backend.backend().calls.last(),
        Some(&Call::Copy(TextureId(0), CopyTextureOptions::default()))
    );
}

#[test]
fn releasing_a_font_gives_back_atlases_and_font() {
    let mut backend = Traced::new(Fake::new((10, 10), 10, 10));
    let mut font = Font::new(&mut backend, "mono.ttf", 16).unwrap();
    {
        let mut canvas = Canvas::new(&mut backend, None).unwrap();
        assert_eq!(font.register_text("ab", &mut canvas), Ok(()));
    }
    assert_eq!(font.atlas_count(), 2);
    font.release(&mut backend);
    let calls = &backend.backend().calls;
    assert_eq!(
        &calls[calls.len() - 3..],
        &[
            Call::DestroyTexture(TextureId(1)),
            Call::DestroyTexture(TextureId(0)),
            Call::DestroyFont(FontId(7))
        ]
    );
}

#[test]
fn an_atlas_fills_row_by_row() {
    let mut backend = Traced::new(Fake::new((30, 20), 10, 10));
    let mut atlas = FontAtlas::new(&mut backend, 1024, 1024, 10).unwrap();
    assert_eq!(atlas.allocate(10), Allocation::Placed(Rect::new(0, 0, 10, 10)));
    assert_eq!(atlas.allocate(20), Allocation::Placed(Rect::new(10, 0, 20, 10)));
    assert_eq!(atlas.allocate(1), Allocation::Placed(Rect::new(0, 10, 1, 10)));
    assert_eq!(atlas.allocate(31), Allocation::Oversize);
    assert_eq!(atlas.allocate(30), Allocation::Full);
    assert_eq!(atlas.allocate(1), Allocation::Full);
    assert_eq!(atlas.texture().width(), 30);
}

#[test]
fn one_glyph_gets_the_room_that_its_advance_asks_for() {
    let mut backend = Traced::new(Fake::new((15, 24), 10, 12));
    let mut atlas = FontAtlas::new(&mut backend, 1024, 1024, 12).unwrap();
    let metrics = |advance: u32| GlyphMetrics { min_x: 1, max_x: 2, min_y: 3, max_y: 4, advance };
    let placed: Option<FontGlyphEntry> = place_glyph(&mut atlas, 3, metrics(10)).unwrap();
    let entry = placed.unwrap();
    assert_eq!((entry.atlas_index, entry.rect), (3, Rect::new(0, 0, 10, 12)));
    assert_eq!((entry.metrics.advance, entry.metrics.max_y), (10, 4));
    let entry = place_glyph(&mut atlas, 3, metrics(10)).unwrap().unwrap();
    assert_eq!(entry.rect, Rect::new(0, 12, 10, 12));
    assert_eq!(place_glyph(&mut atlas, 3, metrics(16)).err(), Some(Error::AtlasCapacityExceeded));
    assert!(place_glyph(&mut atlas, 3, metrics(10)).unwrap().is_none());
    assert!(place_glyph(&mut atlas, 3, metrics(1)).unwrap().is_none());
}
