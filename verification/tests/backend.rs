use panko::backend::{Backend, Error};
use panko::types::{
    Color, CopyTextureOptions, Event, FontData, FontId, GlyphMetrics, Point, Rect, TextureData,
    TextureId, WindowConfig,
};

struct Counting {
    binds: Vec<Option<TextureId>>,
}

impl Backend for Counting {
    fn window_set_config(&mut self, _config: WindowConfig) -> Result<(), Error> {
        Ok(())
    }
    fn texture_create(&mut self, w: u32, h: u32) -> Result<TextureData, Error> {
        Ok(TextureData { id: TextureId(0), width: w, height: h })
    }
    fn texture_load(&mut self, _path: &str) -> Result<TextureData, Error> {
        Err(Error::ResourceNotFound)
    }
    fn texture_destroy(&mut self, _id: TextureId) -> Result<(), Error> {
        Ok(())
    }
    fn font_load(&mut self, _path: &str, _scale: u8) -> Result<FontData, Error> {
        Ok(FontData { id: FontId(0), glyphs_height: 10 })
    }
    fn font_destroy(&mut self, _id: FontId) -> Result<(), Error> {
        Ok(())
    }
    fn font_glyph_metrics(&mut self, _font: FontId, _glyph: char) -> Result<GlyphMetrics, Error> {
        Ok(GlyphMetrics { min_x: 0, max_x: 0, min_y: 0, max_y: 0, advance: 10 })
    }
    fn render_set_logical_size(&mut self, _w: u32, _h: u32) -> Result<(), Error> {
        Ok(())
    }
    fn render_set_target(&mut self, target: Option<TextureId>) -> Result<(), Error> {
        self.binds.push(target);
        Ok(())
    }
    fn render_set_draw_color(&mut self, _color: Color) -> Result<(), Error> {
        Ok(())
    }
    fn render_clear(&mut self) -> Result<(), Error> {
        Ok(())
    }
    fn render_present(&mut self) -> Result<(), Error> {
        Ok(())
    }
    fn render_copy_texture(&mut self, _t: TextureId, _o: CopyTextureOptions) -> Result<(), Error> {
        Ok(())
    }
    fn render_fill_rect(&mut self, _rect: Option<Rect>, _color: Color) -> Result<(), Error> {
        Ok(())
    }
    fn render_draw_rect(&mut self, _rect: Option<Rect>, _color: Color) -> Result<(), Error> {
        Ok(())
    }
    fn render_font_glyph(&mut self, _f: FontId, _g: char, _o: Point) -> Result<(), Error> {
        Ok(())
    }
    fn events_pump(&mut self, _events: &mut Vec<Event>) {}
    fn input_mouse_position(&mut self) -> Result<(i32, i32), Error> {
        Ok((0, 0))
    }
    fn system_get_millis(&mut self) -> Result<u64, Error> {
        Ok(0)
    }
    fn system_log(&self, _s: &str) {}
}

#[test]
fn a_backend_written_elsewhere_is_accepted() {
    let mut backend = Counting { binds: Vec::new() };
    assert!(backend.render_set_target(Some(TextureId(3))).is_ok());
    assert_eq!(backend.binds, vec![Some(TextureId(3))]);
    assert_eq!(Error::InvalidInput.message(), "invalid input");
}
