use panko::backend::{Backend, Error, Traced};
use panko::canvas::{Canvas, TextureCopy};
use panko::texture::{Texture, TextureKind};
use panko::types::{
    Color, CopyTextureOptions, Event, FontData, FontId, GlyphMetrics, Point, Rect, TextureData,
    TextureId, WindowConfig,
};

#[derive(Clone, Debug, PartialEq)]
enum Call {
    Bind(Option<TextureId>),
    Fill(Option<Rect>, Color),
    Outline(Option<Rect>, Color),
    Copy(TextureId, CopyTextureOptions),
    Present,
    Create(u32, u32),
    Load(String),
    Destroy(TextureId),
    Glyph(FontId, char, Point),
    Metrics(FontId, char),
}

#[derive(Default)]
struct Fake {
    calls: Vec<Call>,
    textures: u32,
    refuse_bind: Option<Option<TextureId>>,
    refuse_copies_from: Option<usize>,
    copies: usize,
}

fn refused() -> Error {
    Error::BackendFailure(String::from("refused"))
}

impl Backend for Fake {
    fn window_set_config(&mut self, _config: WindowConfig) -> Result<(), Error> {
        Ok(())
    }
    fn texture_create(&mut self, w: u32, h: u32) -> Result<TextureData, Error> {
        self.calls.push(Call::Create(w, h));
        self.textures += 1;
        Ok(TextureData { id: TextureId(self.textures), width: w, height: h })
    }
    fn texture_load(&mut self, path: &str) -> Result<TextureData, Error> {
        self.calls.push(Call::Load(String::from(path)));
        if path.is_empty() {
            return Err(Error::ResourceNotFound);
        }
        self.textures += 1;
        Ok(TextureData { id: TextureId(self.textures), width: 32, height: 16 })
    }
    fn texture_destroy(&mut self, id: TextureId) -> Result<(), Error> {
        self.calls.push(Call::Destroy(id));
        Ok(())
    }
    fn font_load(&mut self, _path: &str, _scale: u8) -> Result<FontData, Error> {
        Err(Error::ResourceNotFound)
    }
    fn font_destroy(&mut self, _id: FontId) -> Result<(), Error> {
        Ok(())
    }
    fn font_glyph_metrics(&mut self, font: FontId, glyph: char) -> Result<GlyphMetrics, Error> {
        self.calls.push(Call::Metrics(font, glyph));
        Ok(GlyphMetrics { min_x: 1, max_x: 9, min_y: -2, max_y: 10, advance: 11 })
    }
    fn render_set_logical_size(&mut self, _w: u32, _h: u32) -> Result<(), Error> {
        Ok(())
    }
    fn render_set_target(&mut self, target: Option<TextureId>) -> Result<(), Error> {
        self.calls.push(Call::Bind(target));
        if self.refuse_bind == Some(target) {
            return Err(refused());
        }
        Ok(())
    }
    fn render_set_draw_color(&mut self, _color: Color) -> Result<(), Error> {
        Ok(())
    }
    fn render_clear(&mut self) -> Result<(), Error> {
        Ok(())
    }
    fn render_present(&mut self) -> Result<(), Error> {
        self.calls.push(Call::Present);
        Ok(())
    }
    fn render_copy_texture(&mut self, t: TextureId, o: CopyTextureOptions) -> Result<(), Error> {
        self.calls.push(Call::Copy(t, o));
        self.copies += 1;
        match self.refuse_copies_from {
            Some(limit) if self.copies > limit => Err(refused()),
            _ => Ok(()),
        }
    }
    fn render_fill_rect(&mut self, rect: Option<Rect>, color: Color) -> Result<(), Error> {
        self.calls.push(Call::Fill(rect, color));
        Ok(())
    }
    fn render_draw_rect(&mut self, rect: Option<Rect>, color: Color) -> Result<(), Error> {
        self.calls.push(Call::Outline(rect, color));
        Ok(())
    }
    fn render_font_glyph(&mut self, f: FontId, glyph: char, origin: Point) -> Result<(), Error> {
        self.calls.push(Call::Glyph(f, glyph, origin));
        Ok(())
    }
    fn events_pump(&mut self, _events: &mut Vec<Event>) {}
    fn input_mouse_position(&mut self) -> Result<(i32, i32), Error> {
        Ok((0, 0))
    }
    fn system_get_millis(&mut self) -> Result<u64, Error> {
        Ok(0)
    }
    fn system_log(&self, _s: &str) {}
}

#[test]
fn textures_come_from_what_the_backend_answers() {
    let mut backend = Traced::new(Fake::default());
    let image = Texture::new_static(&mut backend, "tiles.png").unwrap();
    assert_eq!(image.id(), TextureId(1));
    assert_eq!(image.kind(), TextureKind::Static);
    assert_eq!((image.width(), image.height()), (32, 16));
    let surface = Texture::new_target(&mut backend, 640, 480).unwrap();
    assert_eq!(surface.id(), TextureId(2));
    assert_eq!(surface.kind(), TextureKind::Target);
    assert_eq!((surface.width(), surface.height()), (640, 480));
    assert_eq!(Texture::new_static(&mut backend, "").err(), Some(Error::ResourceNotFound));
    assert_eq!(surface.release(&mut backend), Ok(()));
    assert_eq!(
        backend.backend().calls,
        vec![
            Call::Load(String::from("tiles.png")),
            Call::Create(640, 480),
            Call::Load(String::new()),
            Call::Destroy(TextureId(2)),
        ]
    );
}

#[test]
fn a_canvas_binds_its_target() {
    let mut backend = Traced::new(Fake::default());
    let mut surface = Texture::new_target(&mut backend, 8, 8).unwrap();
    {
        let mut canvas = Canvas::new(&mut backend, Some(&mut surface)).unwrap();
        assert_eq!(canvas.clear(Color::red()), Ok(()));
        assert_eq!(canvas.draw_rect(Some(Rect::new(1, 2, 3, 4)), Color::green()), Ok(()));
        assert_eq!(canvas.present(), Ok(()));
    }
    {
        let mut canvas = Canvas::new(&mut backend, None).unwrap();
        assert_eq!(canvas.copy_texture(&surface, CopyTextureOptions::default()), Ok(()));
        assert_eq!(canvas.render_glyph(FontId(3), 'x', Point::new(4, 5)), Ok(()));
        assert_eq!(canvas.glyph_metrics(FontId(3), 'y').map(|m| m.advance), Ok(11));
        assert_eq!(canvas.present(), Ok(()));
    }
    assert_eq!(
        backend.backend().calls,
        vec![
            Call::Create(8, 8),
            Call::Bind(Some(TextureId(1))),
            Call::Fill(None, Color::red()),
            Call::Outline(Some(Rect::new(1, 2, 3, 4)), Color::green()),
            Call::Bind(None),
            Call::Copy(TextureId(1), CopyTextureOptions::default()),
            Call::Glyph(FontId(3), 'x', Point::new(4, 5)),
            Call::Metrics(FontId(3), 'y'),
            Call::Present,
        ]
    );
}

#[test]
fn a_canvas_that_cannot_bind_is_not_made() {
    let mut fake = Fake::default();
    fake.refuse_bind = Some(None);
    let mut backend = Traced::new(fake);
    assert_eq!(Canvas::new(&mut backend, None).err(), Some(refused()));
}

#[test]
fn nested_scopes_hand_the_target_back() {
    let mut backend = Traced::new(Fake::default());
    let mut a = Texture::new_target(&mut backend, 8, 8).unwrap();
    let mut b = Texture::new_target(&mut backend, 8, 8).unwrap();
    {
        let mut canvas = Canvas::new(&mut backend, None).unwrap();
        let r = canvas.with_target(Some(&mut a), |inner: &mut Canvas<Fake>| {
            inner.clear(Color::red())?;
            inner.with_target(Some(&mut b), |innermost: &mut Canvas<Fake>| {
                innermost.clear(Color::green())
            })?;
            inner.clear(Color::white())
        });
        assert_eq!(r, Ok(()));
        assert_eq!(canvas.present(), Ok(()));
    }
    assert_eq!(
        &backend.backend().calls[2..],
        &[
            Call::Bind(None),
            Call::Bind(Some(TextureId(1))),
            Call::Fill(None, Color::red()),
            Call::Bind(Some(TextureId(2))),
            Call::Fill(None, Color::green()),
            Call::Bind(Some(TextureId(1))),
            Call::Fill(None, Color::white()),
            Call::Bind(None),
            Call::Present,
        ]
    );
}

#[test]
fn a_scope_that_fails_still_hands_the_target_back() {
    let mut backend = Traced::new(Fake::default());
    let mut a = Texture::new_target(&mut backend, 8, 8).unwrap();
    {
        let mut canvas = Canvas::new(&mut backend, None).unwrap();
        let r = canvas.with_target(Some(&mut a), |inner: &mut Canvas<Fake>| {
            inner.clear(Color::red())?;
            Err(Error::InvalidInput)
        });
        assert_eq!(r, Err(Error::InvalidInput));
    }
    assert_eq!(
        &backend.backend().calls[1..],
        &[
            Call::Bind(None),
            Call::Bind(Some(TextureId(1))),
            Call::Fill(None, Color::red()),
            Call::Bind(None),
        ]
    );
}

#[test]
fn a_scope_that_cannot_be_entered_does_not_run() {
    let mut fake = Fake::default();
    fake.refuse_bind = Some(Some(TextureId(1)));
    let mut backend = Traced::new(fake);
    let mut a = Texture::new_target(&mut backend, 8, 8).unwrap();
    {
        let mut canvas = Canvas::new(&mut backend, None).unwrap();
        let r = canvas.with_target(Some(&mut a), |inner: &mut Canvas<Fake>| {
            inner.clear(Color::red())
        });
        assert_eq!(r, Err(refused()));
    }
    assert_eq!(
        &backend.backend().calls[1..],
        &[Call::Bind(None), Call::Bind(Some(TextureId(1)))]
    );
}

#[test]
fn a_nested_scope_over_the_screen_shows_nothing() {
    let mut backend = Traced::new(Fake::default());
    let mut a = Texture::new_target(&mut backend, 8, 8).unwrap();
    {
        let mut canvas = Canvas::new(&mut backend, Some(&mut a)).unwrap();
        let r = canvas.with_target(None, |inner: &mut Canvas<Fake>| inner.clear(Color::blue()));
        assert_eq!(r, Ok(()));
        assert_eq!(canvas.present(), Ok(()));
    }
    assert!(!backend.backend().calls.contains(&Call::Present));
    assert_eq!(backend.backend().calls.last(), Some(&Call::Bind(Some(TextureId(1)))));
}

#[test]
fn copies_stop_at_the_first_that_fails() {
    let mut fake = Fake::default();
    fake.refuse_copies_from = Some(1);
    let mut backend = Traced::new(fake);
    let copies: Vec<TextureCopy> = (0..3)
        .map(|i| TextureCopy { texture: TextureId(i), options: CopyTextureOptions::default() })
        .collect();
    {
        let mut canvas = Canvas::new(&mut backend, None).unwrap();
        assert_eq!(canvas.copy_all(&copies), Err(refused()));
    }
    assert_eq!(
        &backend.backend().calls[1..],
        &[
            Call::Copy(TextureId(0), CopyTextureOptions::default()),
            Call::Copy(TextureId(1), CopyTextureOptions::default()),
        ]
    );
}
