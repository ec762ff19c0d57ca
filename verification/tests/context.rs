use panko::backend::{Backend, Error};
use panko::texture::TextureKind;
use panko::types::{
    Color, CopyTextureOptions, Dimensions, Event, FontData, FontId, GlyphMetrics, Key, Point,
    Rect, TextureData, TextureId, WindowConfig,
};
use panko::{Context, FrameClock, FIXED_TIMESTEP_MILLIS};

#[derive(Default)]
struct Fake {
    log: Vec<String>,
    pending: Vec<Event>,
    mouse: Option<(i32, i32)>,
    millis: u64,
}

impl Backend for Fake {
    fn window_set_config(&mut self, config: WindowConfig) -> Result<(), Error> {
        self.log.push(format!("window {:?}", config.size()));
        Ok(())
    }
    fn texture_create(&mut self, w: u32, h: u32) -> Result<TextureData, Error> {
        self.log.push(format!("create {}x{}", w, h));
        Ok(TextureData { id: TextureId(5), width: w, height: h })
    }
    fn texture_load(&mut self, path: &str) -> Result<TextureData, Error> {
        self.log.push(format!("load {}", path));
        Ok(TextureData { id: TextureId(4), width: 2, height: 3 })
    }
    fn texture_destroy(&mut self, id: TextureId) -> Result<(), Error> {
        self.log.push(format!("destroy texture {}", id.0));
        Ok(())
    }
    fn font_load(&mut self, path: &str, scale: u8) -> Result<FontData, Error> {
        self.log.push(format!("font {} {}", path, scale));
        Ok(FontData { id: FontId(1), glyphs_height: 9 })
    }
    fn font_destroy(&mut self, id: FontId) -> Result<(), Error> {
        self.log.push(format!("destroy font {}", id.0));
        Ok(())
    }
    fn font_glyph_metrics(&mut self, _font: FontId, _glyph: char) -> Result<GlyphMetrics, Error> {
        Err(Error::ResourceNotFound)
    }
    fn render_set_logical_size(&mut self, _w: u32, _h: u32) -> Result<(), Error> {
        Ok(())
    }
    fn render_set_target(&mut self, target: Option<TextureId>) -> Result<(), Error> {
        self.log.push(format!("bind {:?}", target.map(|t| t.0)));
        Ok(())
    }
    fn render_set_draw_color(&mut self, _color: Color) -> Result<(), Error> {
        Ok(())
    }
    fn render_clear(&mut self) -> Result<(), Error> {
        self.log.push(String::from("clear"));
        Ok(())
    }
    fn render_present(&mut self) -> Result<(), Error> {
        self.log.push(String::from("present"));
        Ok(())
    }
    fn render_copy_texture(&mut self, _t: TextureId, _o: CopyTextureOptions) -> Result<(), Error> {
        Ok(())
    }
    fn render_fill_rect(&mut self, _rect: Option<Rect>, _color: Color) -> Result<(), Error> {
        Ok(())
    }
    fn render_draw_rect(&mut self, _rect: Option<Rect>, _color: Color) -> Result<(), Error> {
        Ok(())
    }
    fn render_font_glyph(&mut self, _f: FontId, _g: char, _o: Point) -> Result<(), Error> {
        Ok(())
    }
    fn events_pump(&mut self, events: &mut Vec<Event>) {
        events.append(&mut self.pending);
    }
    fn input_mouse_position(&mut self) -> Result<(i32, i32), Error> {
        self.mouse.ok_or(Error::BackendFailure(String::from("no mouse")))
    }
    fn system_get_millis(&mut self) -> Result<u64, Error> {
        self.millis += 10;
        Ok(self.millis)
    }
    fn system_log(&self, _s: &str) {}
}

#[test]
fn the_clock_hands_out_fixed_steps() {
    assert_eq!(FIXED_TIMESTEP_MILLIS, 16);
    let mut clock = FrameClock::new(100);
    assert_eq!(clock, FrameClock { millis_now: 100, acc_millis: 0 });
    assert_eq!(clock.tick(110), 10);
    assert!(!clock.take_fixed_step());
    assert_eq!(clock.tick(120), 10);
    assert_eq!(clock.acc_millis, 20);
    assert!(clock.take_fixed_step());
    assert_eq!(clock, FrameClock { millis_now: 120, acc_millis: 4 });
    assert!(!clock.take_fixed_step());
    assert_eq!(clock.tick(136), 16);
    assert!(clock.take_fixed_step());
    assert_eq!(clock.acc_millis, 4);
}

#[test]
fn a_clock_that_runs_backwards_stands_still() {
    let mut clock = FrameClock::new(100);
    assert_eq!(clock.tick(40), 0);
    assert_eq!(clock, FrameClock { millis_now: 40, acc_millis: 0 });
    assert_eq!(clock.tick(u64::MAX), u64::MAX - 40);
    assert_eq!(clock.tick(0), 0);
    assert_eq!(clock.tick(u64::MAX), u64::MAX);
    assert_eq!(clock.acc_millis, u64::MAX);
}

#[test]
fn a_context_reaches_the_backend() {
    let mut context = Context::new(Fake::default());
    assert!(!context.quit_requested());
    let config = WindowConfig::Bordered {
        size: Dimensions { width: 320, height: 200 },
        resizable: false,
    };
    assert_eq!(context.set_window_config(config), Ok(()));
    let image = context.load_texture("a.png").unwrap();
    assert_eq!((image.id(), image.kind()), (TextureId(4), TextureKind::Static));
    let surface = context.create_target(7, 8).unwrap();
    assert_eq!((surface.width(), surface.height()), (7, 8));
    let font = context.load_font("f.ttf", 12).unwrap();
    assert_eq!(font.glyphs_height(), 9);
    assert_eq!(context.millis(), Ok(10));
    assert_eq!(context.millis(), Ok(20));
    {
        let mut canvas = context.canvas().unwrap();
        assert_eq!(canvas.present(), Ok(()));
    }
    assert_eq!(context.release_texture(surface), Ok(()));
    context.release_font(font);
    context.request_quit();
    assert!(context.quit_requested());
}

#[test]
fn polling_takes_in_events_up_to_close() {
    let mut fake = Fake::default();
    fake.mouse = Some((12, 34));
    fake.pending = vec![
        Event::KeyDown(Key::W),
        Event::MouseDown,
        Event::Close,
        Event::KeyDown(Key::A),
    ];
    let mut context = Context::new(fake);
    assert_eq!(context.poll(), Ok(true));
    let input = context.input();
    assert_eq!((input.mouse.x(), input.mouse.y()), (12, 34));
    assert!(input.keyboard.is_key_down(Key::W));
    assert!(!input.keyboard.is_key_just_down(Key::W));
    assert!(input.mouse.is_just_down());
    assert!(input.keyboard.is_key_up(Key::A));
    assert_eq!(context.poll(), Ok(false));
    let input = context.input();
    assert!(input.keyboard.is_key_down(Key::W));
    assert!(input.keyboard.is_key_just_down(Key::W));
    assert!(input.mouse.is_down() && !input.mouse.is_just_down());
}

#[test]
fn polling_without_a_mouse_changes_nothing() {
    let mut fake = Fake::default();
    fake.pending = vec![Event::KeyDown(Key::W)];
    let mut context = Context::new(fake);
    assert_eq!(context.poll(), Err(Error::BackendFailure(String::from("no mouse"))));
    assert!(context.input().keyboard.is_key_up(Key::W));
}
