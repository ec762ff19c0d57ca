//! Fonts: glyphs are drawn once, packed into atlas textures row by row, and
//! found again by character.

use crate::backend::{
    extends, failed_from, Backend, BackendCall, Error, Issued, Outcome, Traced,
};
use crate::atlas::{
    allocated, allocation, disjoint, fresh, lemma_allocation, reach, taken, Allocation,
    AtlasView, FontAtlas, ATLAS_HEIGHT, ATLAS_WIDTH,
};
use crate::canvas::{copied, Canvas, TextureCopy};
use crate::text::{characters, line_text, reported_width, BoundedLines, Line};
use crate::texture::{data_of, TextureKind, TextureView};
use crate::types::{
    half, half_of, minus, minus_of, saturate, saturate_wide, saturated, Color,
    CopyTextureOptions, FontData, FontId, GlyphMetrics, Point, Rect, TextAlign, TextCrossAlign,
    TextPadding, TextureData, TextureId,
};
use hashbrown::HashMap;
use vstd::prelude::*;

verus! {

/// Where a glyph lies: in which atlas, in which rectangle of it, and its
/// metrics.
#[derive(Copy, Clone, Debug)]
pub struct FontGlyphEntry {
    pub atlas_index: usize,
    pub rect: Rect,
    pub metrics: GlyphMetrics,
}

/// The glyphs of a font by character, in a hash map.
#[verifier::external_body]
pub struct GlyphTable {
    map: HashMap<char, FontGlyphEntry>,
}

/// What a glyph table holds: for each character that has an entry, the
/// entry.
pub uninterp spec fn glyph_entries(table: GlyphTable) -> Map<char, FontGlyphEntry>;

/// `hashbrown::HashMap::new`: a map that holds nothing.
#[verifier::external_body]
fn table_new() -> (table: GlyphTable)
    ensures
        forall|glyph: char| !glyph_entries(table).contains_key(glyph),
{
    GlyphTable { map: HashMap::new() }
}

/// `hashbrown::HashMap::contains_key`: whether the map holds an entry for the
/// key.
#[verifier::external_body]
fn table_contains(table: &GlyphTable, glyph: char) -> (r: bool)
    ensures
        r == glyph_entries(*table).contains_key(glyph),
{
    table.map.contains_key(&glyph)
}

/// `hashbrown::HashMap::get`: the entry that the map holds for the key, if it
/// holds one.
#[verifier::external_body]
fn table_get(table: &GlyphTable, glyph: char) -> (r: Option<FontGlyphEntry>)
    ensures
        r == (if glyph_entries(*table).contains_key(glyph) {
            Some(glyph_entries(*table)[glyph])
        } else {
            None
        }),
{
    table.map.get(&glyph).copied()
}

/// `hashbrown::HashMap::insert`: behind it the map holds the entry for the
/// key, in place of the one it held for that key if it held one, and every
/// other entry as before.
#[verifier::external_body]
fn table_insert(table: &mut GlyphTable, glyph: char, entry: FontGlyphEntry)
    ensures
        glyph_entries(*final(table)) == glyph_entries(*old(table)).insert(glyph, entry),
{
    table.map.insert(glyph, entry);
}

/// Every character of the text has an entry.
pub open spec fn covers(glyphs: Map<char, FontGlyphEntry>, text: Seq<char>) -> bool {
    forall|i: int| 0 <= i < text.len() ==> glyphs.contains_key(#[trigger] text[i])
}

/// Whatever `earlier` holds, `later` holds too, and unchanged.
pub open spec fn keeps(
    earlier: Map<char, FontGlyphEntry>,
    later: Map<char, FontGlyphEntry>,
) -> bool {
    forall|glyph: char| #[trigger]
        earlier.contains_key(glyph) ==> later.contains_key(glyph) && later[glyph]
            == earlier[glyph]
}

/// The glyphs that lie in atlas `index` lie in the part of it that is taken,
/// each as wide as its advance and as high as a row.
pub open spec fn settled(glyphs: Map<char, FontGlyphEntry>, index: int, atlas: AtlasView) -> bool {
    forall|glyph: char| #[trigger]
        glyphs.contains_key(glyph) && glyphs[glyph].atlas_index == index ==> {
            &&& taken(atlas, glyphs[glyph].rect)
            &&& glyphs[glyph].rect.w == glyphs[glyph].metrics.advance
            &&& glyphs[glyph].rect.h == atlas.glyph_height
        }
}

/// No two glyphs of one atlas share a pixel.
pub open spec fn apart(glyphs: Map<char, FontGlyphEntry>) -> bool {
    forall|a: char, b: char|
        #![trigger glyphs[a], glyphs[b]]
        glyphs.contains_key(a) && glyphs.contains_key(b) && a != b && glyphs[a].atlas_index
            == glyphs[b].atlas_index ==> disjoint(glyphs[a].rect, glyphs[b].rect)
}

/// A call that asks for the metrics of a glyph of the font, or draws one.
pub open spec fn glyph_call(call: BackendCall, font: FontId) -> bool {
    ||| call matches BackendCall::FontGlyphMetrics { font: of, .. } && of == font
    ||| call matches BackendCall::RenderFontGlyph { font: of, .. } && of == font
}

/// What one pass over the glyphs from `start` on has left behind, where it
/// came to `next`: each glyph before `next` has an entry; where glyphs are
/// left, the atlas is full and the first of them has no entry; and an
/// atlas that was empty has taken at least one glyph.
pub open spec fn passed(
    before: AtlasView,
    atlas: AtlasView,
    glyphs: Map<char, FontGlyphEntry>,
    text: Seq<char>,
    start: int,
    next: int,
) -> bool {
    &&& start <= next <= text.len()
    &&& forall|j: int| start <= j < next ==> glyphs.contains_key(#[trigger] text[j])
    &&& next < text.len() ==> atlas.full && !glyphs.contains_key(text[next])
    &&& next < text.len() && fresh(before) ==> start < next
}

/// What one pass over the glyphs has changed: entries came only for glyphs
/// of the text, all of them in atlas `index`; the entries and the atlas are
/// in order as before, and the atlas has its texture and row height still.
pub open spec fn filled(
    before: AtlasView,
    atlas: AtlasView,
    earlier: Map<char, FontGlyphEntry>,
    glyphs: Map<char, FontGlyphEntry>,
    text: Seq<char>,
    index: int,
) -> bool {
    &&& keeps(earlier, glyphs)
    &&& settled(glyphs, index, atlas)
    &&& apart(glyphs)
    &&& atlas.texture == before.texture
    &&& atlas.width == before.width
    &&& atlas.height == before.height
    &&& atlas.glyph_height == before.glyph_height
    &&& forall|glyph: char| #[trigger]
        glyphs.contains_key(glyph) && !earlier.contains_key(glyph) ==> glyphs[glyph].atlas_index
            == index && text.contains(glyph)
}

/// What a glyph with these metrics gets in atlas `index`: an entry where
/// the atlas has room, none where it is full, and an error where no atlas
/// will ever take the glyph.
pub open spec fn placement(atlas: AtlasView, index: usize, metrics: GlyphMetrics) -> Result<
    Option<FontGlyphEntry>,
    Error,
> {
    match allocation(atlas, metrics.advance) {
        Allocation::Placed(rect) => Ok(Some(FontGlyphEntry { atlas_index: index, rect, metrics })),
        Allocation::Full => Ok(None),
        Allocation::Oversize => Err(Error::AtlasCapacityExceeded),
    }
}

/// Takes room in the atlas for a glyph with the metrics that the backend
/// answered, and returns the entry that the glyph gets once it is drawn.
pub fn place_glyph(atlas: &mut FontAtlas, atlas_index: usize, metrics: GlyphMetrics) -> (placed:
    Result<Option<FontGlyphEntry>, Error>)
    ensures
        placed == placement(old(atlas)@, atlas_index, metrics),
        final(atlas)@ == allocated(old(atlas)@, metrics.advance),
{
    match atlas.allocate(metrics.advance) {
        Allocation::Placed(rect) => Ok(Some(FontGlyphEntry { atlas_index, rect, metrics })),
        Allocation::Full => Ok(None),
        Allocation::Oversize => Err(Error::AtlasCapacityExceeded),
    }
}

/// Whether a pass over the glyphs goes on, has stopped at a glyph for which
/// the atlas is full, or has failed.
pub enum PassStatus {
    Going,
    Full,
    Failed(Error),
}

/// A pass over the glyphs of a text at some point: the atlas and the entries
/// as they stand, the place of the next glyph, and how many of the calls
/// made on the backend lie behind.
pub struct Pass {
    pub atlas: AtlasView,
    pub glyphs: Map<char, FontGlyphEntry>,
    pub next: int,
    pub at: int,
    pub status: PassStatus,
}

/// A pass behind one more glyph.
///
/// A glyph that has an entry costs no call and changes nothing. For any
/// other the next call asked for its metrics. Where that failed, the pass
/// has failed with that error. Else room was asked of the atlas for the
/// advance that came back: the pass has failed with `AtlasCapacityExceeded`
/// where no atlas takes the glyph, and has stopped where the atlas is full.
/// Where room was found, the call behind drew the glyph there: where that
/// failed, the pass has failed with that error and the glyph has no entry;
/// else the glyph has its entry, with the room and the metrics.
pub open spec fn glyph_step(
    pass: Pass,
    font: FontId,
    index: usize,
    glyph: char,
    calls: Seq<Issued>,
) -> Pass {
    if pass.glyphs.contains_key(glyph) {
        Pass { next: pass.next + 1, ..pass }
    } else {
        match calls[pass.at].outcome {
            Outcome::Metrics(metrics) => {
                let atlas = allocated(pass.atlas, metrics.advance);
                match placement(pass.atlas, index, metrics) {
                    Err(e) => Pass { at: pass.at + 1, status: PassStatus::Failed(e), ..pass },
                    Ok(None) => Pass { atlas, at: pass.at + 1, status: PassStatus::Full, ..pass },
                    Ok(Some(entry)) => match calls[pass.at + 1].outcome {
                        Outcome::Failed(e) => Pass {
                            atlas,
                            at: pass.at + 2,
                            status: PassStatus::Failed(e),
                            ..pass
                        },
                        _ => Pass {
                            atlas,
                            glyphs: pass.glyphs.insert(glyph, entry),
                            next: pass.next + 1,
                            at: pass.at + 2,
                            status: PassStatus::Going,
                        },
                    },
                }
            },
            Outcome::Failed(e) => Pass { at: pass.at + 1, status: PassStatus::Failed(e), ..pass },
            _ => Pass { at: pass.at + 1, status: PassStatus::Failed(Error::InvalidInput), ..pass },
        }
    }
}

/// The calls that one more glyph cost are the ones that registering it
/// makes: none for a glyph that has an entry; else one that asks for the
/// metrics of this glyph of the font and, where room was found, one that
/// draws this glyph at the top left corner of its room.
pub open spec fn glyph_calls(
    pass: Pass,
    font: FontId,
    index: usize,
    glyph: char,
    calls: Seq<Issued>,
) -> bool {
    !pass.glyphs.contains_key(glyph) ==> {
        &&& 0 <= pass.at < calls.len()
        &&& calls[pass.at].call == BackendCall::FontGlyphMetrics { font, glyph }
        &&& calls[pass.at].outcome is Metrics || calls[pass.at].outcome is Failed
        &&& calls[pass.at].outcome matches Outcome::Metrics(metrics) ==> (placement(
            pass.atlas,
            index,
            metrics,
        ) matches Ok(Some(entry)) ==> {
            &&& pass.at + 1 < calls.len()
            &&& calls[pass.at + 1].call == BackendCall::RenderFontGlyph {
                font,
                glyph,
                origin: Point { x: entry.rect.x, y: entry.rect.y },
            }
            &&& calls[pass.at + 1].outcome is Done || calls[pass.at + 1].outcome is Failed
        })
    }
}

/// Whether a pass takes another glyph: it goes on and glyphs are left.
pub open spec fn pass_open(pass: Pass, text: Seq<char>) -> bool {
    pass.status is Going && 0 <= pass.next < text.len()
}

/// The pass behind `n` more glyphs, or behind as many as it took before it
/// stopped, failed or came to the end of the text.
pub open spec fn pass_after(
    begun: Pass,
    font: FontId,
    index: usize,
    text: Seq<char>,
    calls: Seq<Issued>,
    n: int,
) -> Pass
    decreases n,
{
    if n <= 0 {
        begun
    } else {
        let pass = pass_after(begun, font, index, text, calls, n - 1);
        if pass_open(pass, text) {
            glyph_step(pass, font, index, text[pass.next], calls)
        } else {
            pass
        }
    }
}

/// The calls behind each of up to `n` more glyphs are the ones that
/// registering the glyph makes.
pub open spec fn pass_sound(
    begun: Pass,
    font: FontId,
    index: usize,
    text: Seq<char>,
    calls: Seq<Issued>,
    n: int,
) -> bool
    decreases n,
{
    n <= 0 || {
        let pass = pass_after(begun, font, index, text, calls, n - 1);
        &&& pass_sound(begun, font, index, text, calls, n - 1)
        &&& pass_open(pass, text) ==> glyph_calls(pass, font, index, text[pass.next], calls)
    }
}

/// What a pass returns: its error, or the place of the first glyph that is
/// left.
pub open spec fn pass_result(pass: Pass) -> Result<usize, Error> {
    match pass.status {
        PassStatus::Failed(e) => Err(e),
        _ => Ok(pass.next as usize),
    }
}

/// Calls that are made later change nothing of a pass.
pub proof fn lemma_pass_frame(
    begun: Pass,
    font: FontId,
    index: usize,
    text: Seq<char>,
    calls: Seq<Issued>,
    more: Seq<Issued>,
    n: int,
)
    requires
        extends(calls, more),
        pass_sound(begun, font, index, text, calls, n),
    ensures
        pass_after(begun, font, index, text, more, n) == pass_after(
            begun,
            font,
            index,
            text,
            calls,
            n,
        ),
        pass_sound(begun, font, index, text, more, n),
    decreases n,
{
    if n > 0 {
        lemma_pass_frame(begun, font, index, text, calls, more, n - 1);
        let pass = pass_after(begun, font, index, text, calls, n - 1);
        if pass_open(pass, text) && !pass.glyphs.contains_key(text[pass.next]) {
            assert(more[pass.at] == calls[pass.at]);
            if calls[pass.at].outcome is Metrics {
                let metrics = calls[pass.at].outcome->Metrics_0;
                if placement(pass.atlas, index, metrics) is Ok && placement(
                    pass.atlas,
                    index,
                    metrics,
                )->Ok_0 is Some {
                    assert(more[pass.at + 1] == calls[pass.at + 1]);
                }
            }
        }
    }
}

/// A pass that has stopped, failed or come to the end of the text stays as
/// it is.
pub proof fn lemma_pass_stays(
    begun: Pass,
    font: FontId,
    index: usize,
    text: Seq<char>,
    calls: Seq<Issued>,
    n: int,
    m: int,
)
    requires
        0 <= n <= m,
        !pass_open(pass_after(begun, font, index, text, calls, n), text),
    ensures
        pass_after(begun, font, index, text, calls, m) == pass_after(
            begun,
            font,
            index,
            text,
            calls,
            n,
        ),
        pass_sound(begun, font, index, text, calls, n) ==> pass_sound(
            begun,
            font,
            index,
            text,
            calls,
            m,
        ),
    decreases m,
{
    if n < m {
        lemma_pass_stays(begun, font, index, text, calls, n, m - 1);
    }
}

/// A pass that began as `begun` has run to its end over the calls, and has
/// left the atlas and the entries as given and returned `r`.
pub open spec fn passed_over(
    begun: Pass,
    font: FontId,
    index: usize,
    text: Seq<char>,
    calls: Seq<Issued>,
    atlas: AtlasView,
    glyphs: Map<char, FontGlyphEntry>,
    r: Result<usize, Error>,
) -> bool {
    let end = pass_after(begun, font, index, text, calls, text.len() - begun.next);
    &&& pass_sound(begun, font, index, text, calls, text.len() - begun.next)
    &&& !pass_open(end, text)
    &&& begun.next <= end.next <= text.len()
    &&& end.atlas == atlas
    &&& end.glyphs == glyphs
    &&& end.at == calls.len()
    &&& r == pass_result(end)
}

/// The glyph at place `i`.
fn glyph_at(glyphs: &Vec<char>, i: usize) -> (glyph: char)
    requires
        i < glyphs@.len(),
    ensures
        glyph == glyphs@[i as int],
{
    glyphs[i]
}

/// Registers one glyph in the atlas. A glyph that has an entry is passed
/// over. For any other the backend is asked for its metrics, room is taken
/// in the atlas, the glyph is drawn there, and only then is its entry made.
fn register_glyph<B: Backend>(
    font_id: FontId,
    atlas_index: usize,
    atlas: &mut FontAtlas,
    canvas: &mut Canvas<B>,
    entries: &mut GlyphTable,
    glyph: char,
    Ghost(next): Ghost<int>,
) -> (status: PassStatus)
    requires
        settled(glyph_entries(*old(entries)), atlas_index as int, old(atlas)@),
        apart(glyph_entries(*old(entries))),
    ensures
        final(canvas).target() == old(canvas).target(),
        extends(old(canvas).calls(), final(canvas).calls()),
        forall|i: int|
            old(canvas).calls().len() <= i < final(canvas).calls().len() ==> glyph_call(
                (#[trigger] final(canvas).calls()[i]).call,
                font_id,
            ),
        filled(
            old(atlas)@,
            final(atlas)@,
            glyph_entries(*old(entries)),
            glyph_entries(*final(entries)),
            seq![glyph],
            atlas_index as int,
        ),
        status is Going ==> glyph_entries(*final(entries)).contains_key(glyph),
        status is Full ==> !fresh(old(atlas)@) && final(atlas)@.full && !glyph_entries(
            *final(entries),
        ).contains_key(glyph),
        status matches PassStatus::Failed(e) ==> {
            &&& final(canvas).calls().len() > old(canvas).calls().len()
            &&& e == Error::AtlasCapacityExceeded || final(canvas).calls().last().outcome
                == Outcome::Failed(e)
        },
        ({
            let pass = Pass {
                atlas: old(atlas)@,
                glyphs: glyph_entries(*old(entries)),
                next,
                at: old(canvas).calls().len() as int,
                status: PassStatus::Going,
            };
            &&& glyph_calls(pass, font_id, atlas_index, glyph, final(canvas).calls())
            &&& glyph_step(pass, font_id, atlas_index, glyph, final(canvas).calls()) == (Pass {
                atlas: final(atlas)@,
                glyphs: glyph_entries(*final(entries)),
                next: if status is Going {
                    next + 1
                } else {
                    next
                },
                at: final(canvas).calls().len() as int,
                status,
            })
        }),
{
    if table_contains(entries, glyph) {
        return PassStatus::Going;
    }
    let ghost at = canvas.calls().len() as int;
    let metrics = match canvas.glyph_metrics(font_id, glyph) {
        Ok(metrics) => metrics,
        Err(e) => {
            return PassStatus::Failed(e);
        },
    };
    proof {
        atlas.lemma_reach();
        lemma_allocation(atlas@, metrics.advance);
    }
    let ghost atlas_before = atlas@;
    let entry = match place_glyph(atlas, atlas_index, metrics) {
        Err(e) => {
            return PassStatus::Failed(e);
        },
        Ok(None) => {
            return PassStatus::Full;
        },
        Ok(Some(entry)) => entry,
    };
    let ghost calls_measured = canvas.calls();
    let drawn = canvas.render_glyph(font_id, glyph, entry.rect.point());
    assert(canvas.calls()[at] == calls_measured[at]);
    match drawn {
        Ok(()) => {},
        Err(e) => {
            return PassStatus::Failed(e);
        },
    }
    let ghost entries_before = glyph_entries(*entries);
    table_insert(entries, glyph, entry);
    proof {
        let now = glyph_entries(*entries);
        assert(now[glyph].rect == entry.rect);
        assert forall|a: char, b: char|
            #![trigger now[a], now[b]]
            now.contains_key(a) && now.contains_key(b) && a != b && now[a].atlas_index
                == now[b].atlas_index implies disjoint(now[a].rect, now[b].rect) by {
            if a == glyph {
                assert(entries_before.contains_key(b));
                assert(taken(atlas_before, entries_before[b].rect));
            } else if b == glyph {
                assert(entries_before.contains_key(a));
                assert(taken(atlas_before, entries_before[a].rect));
            } else {
                assert(entries_before.contains_key(a));
                assert(entries_before.contains_key(b));
            }
        }
        assert(seq![glyph][0] == glyph);
    }
    PassStatus::Going
}

/// Registers the glyphs from `start` on in the atlas, one after the other,
/// until the text ends, the atlas is full or a call fails.
#[verifier::rlimit(40)]
fn place_glyphs<B: Backend>(
    font_id: FontId,
    atlas_index: usize,
    atlas: &mut FontAtlas,
    canvas: &mut Canvas<B>,
    entries: &mut GlyphTable,
    glyphs: &Vec<char>,
    start: usize,
) -> (r: Result<usize, Error>)
    requires
        start <= glyphs@.len(),
        settled(glyph_entries(*old(entries)), atlas_index as int, old(atlas)@),
        apart(glyph_entries(*old(entries))),
    ensures
        final(canvas).target() == old(canvas).target(),
        extends(old(canvas).calls(), final(canvas).calls()),
        forall|i: int|
            old(canvas).calls().len() <= i < final(canvas).calls().len() ==> glyph_call(
                (#[trigger] final(canvas).calls()[i]).call,
                font_id,
            ),
        filled(
            old(atlas)@,
            final(atlas)@,
            glyph_entries(*old(entries)),
            glyph_entries(*final(entries)),
            glyphs@,
            atlas_index as int,
        ),
        match r {
            Ok(next) => passed(
                old(atlas)@,
                final(atlas)@,
                glyph_entries(*final(entries)),
                glyphs@,
                start as int,
                next as int,
            ),
            Err(e) => {
                &&& final(canvas).calls().len() > old(canvas).calls().len()
                &&& e == Error::AtlasCapacityExceeded || final(canvas).calls().last().outcome
                    == Outcome::Failed(e)
            },
        },
        passed_over(
            Pass {
                atlas: old(atlas)@,
                glyphs: glyph_entries(*old(entries)),
                next: start as int,
                at: old(canvas).calls().len() as int,
                status: PassStatus::Going,
            },
            font_id,
            atlas_index,
            glyphs@,
            final(canvas).calls(),
            final(atlas)@,
            glyph_entries(*final(entries)),
            r,
        ),
{
    let n = glyphs.len();
    let mut i = start;
    let ghost begun = Pass {
        atlas: atlas@,
        glyphs: glyph_entries(*entries),
        next: start as int,
        at: canvas.calls().len() as int,
        status: PassStatus::Going,
    };
    while i < n
        invariant
            start <= i <= n,
            n == glyphs@.len(),
            canvas.target() == old(canvas).target(),
            extends(old(canvas).calls(), canvas.calls()),
            forall|k: int|
                old(canvas).calls().len() <= k < canvas.calls().len() ==> glyph_call(
                    (#[trigger] canvas.calls()[k]).call,
                    font_id,
                ),
            filled(
                old(atlas)@,
                atlas@,
                glyph_entries(*old(entries)),
                glyph_entries(*entries),
                glyphs@,
                atlas_index as int,
            ),
            forall|j: int|
                start <= j < i ==> glyph_entries(*entries).contains_key(#[trigger] glyphs@[j]),
            i == start ==> atlas@ == old(atlas)@,
            begun == (Pass {
                atlas: old(atlas)@,
                glyphs: glyph_entries(*old(entries)),
                next: start as int,
                at: old(canvas).calls().len() as int,
                status: PassStatus::Going,
            }),
            pass_sound(begun, font_id, atlas_index, glyphs@, canvas.calls(), i - start),
            pass_after(begun, font_id, atlas_index, glyphs@, canvas.calls(), i - start) == (Pass {
                atlas: atlas@,
                glyphs: glyph_entries(*entries),
                next: i as int,
                at: canvas.calls().len() as int,
                status: PassStatus::Going,
            }),
        decreases n - i,
    {
        let glyph = glyph_at(glyphs, i);
        let ghost calls_before = canvas.calls();
        let ghost atlas_before = atlas@;
        let ghost entries_before = glyph_entries(*entries);
        let status = register_glyph(
            font_id,
            atlas_index,
            atlas,
            canvas,
            entries,
            glyph,
            Ghost(i as int),
        );
        proof {
            lemma_pass_frame(
                begun,
                font_id,
                atlas_index,
                glyphs@,
                calls_before,
                canvas.calls(),
                i - start,
            );
            assert forall|k: int|
                old(canvas).calls().len() <= k < canvas.calls().len() implies glyph_call(
                (#[trigger] canvas.calls()[k]).call,
                font_id,
            ) by {
                if k < calls_before.len() {
                    assert(canvas.calls()[k] == calls_before[k]);
                }
            }
            lemma_filled_on(
                old(atlas)@,
                atlas_before,
                atlas@,
                glyph_entries(*old(entries)),
                entries_before,
                glyph_entries(*entries),
                glyphs@,
                glyph,
                atlas_index as int,
            );
            if !(status is Going) {
                lemma_pass_stays(
                    begun,
                    font_id,
                    atlas_index,
                    glyphs@,
                    canvas.calls(),
                    i - start + 1,
                    n - start,
                );
            }
        }
        match status {
            PassStatus::Going => {},
            PassStatus::Full => {
                return Ok(i);
            },
            PassStatus::Failed(e) => {
                return Err(e);
            },
        }
        i += 1;
    }
    Ok(n)
}

/// What held of the entries before a glyph of the text was registered holds
/// behind it.
proof fn lemma_filled_on(
    first: AtlasView,
    before: AtlasView,
    atlas: AtlasView,
    earliest: Map<char, FontGlyphEntry>,
    earlier: Map<char, FontGlyphEntry>,
    glyphs: Map<char, FontGlyphEntry>,
    text: Seq<char>,
    glyph: char,
    index: int,
)
    requires
        filled(first, before, earliest, earlier, text, index),
        filled(before, atlas, earlier, glyphs, seq![glyph], index),
        text.contains(glyph),
    ensures
        filled(first, atlas, earliest, glyphs, text, index),
{
    assert forall|other: char| #[trigger]
        glyphs.contains_key(other) && !earliest.contains_key(other) implies glyphs[other].atlas_index
        == index && text.contains(other) by {
        if earlier.contains_key(other) {
        } else {
            assert(seq![glyph].contains(other));
            assert(other == glyph);
        }
    }
}

/// The calls of one pass over the glyphs: the atlas's texture is bound; where
/// that fails, nothing follows; else the target is bound again at the end,
/// and between the two the backend is asked for nothing but the metrics and
/// the drawing of glyphs of the font. A pass succeeds only if the last call
/// did.
pub open spec fn pass_calls(
    before: Seq<Issued>,
    after: Seq<Issued>,
    atlas: TextureId,
    target: Option<TextureId>,
    font: FontId,
    succeeded: bool,
) -> bool {
    let first = before.len() as int;
    &&& extends(before, after)
    &&& after.len() > first
    &&& after[first].call == BackendCall::RenderSetTarget { target: Some(atlas) }
    &&& after[first].outcome is Failed ==> after.len() == first + 1 && !succeeded
    &&& !(after[first].outcome is Failed) ==> {
        &&& after.len() >= first + 2
        &&& after.last().call == BackendCall::RenderSetTarget { target }
        &&& succeeded ==> after.last().outcome == Outcome::Done
        &&& forall|i: int|
            first < i < after.len() - 1 ==> glyph_call((#[trigger] after[i]).call, font)
    }
}

/// Two calls side by side among those from place `from` up to place `to`
/// registered the glyph with this entry: the first asked for the metrics of
/// the glyph and was answered with those of the entry, and the second drew
/// the glyph at the top left corner of the entry's rectangle.
pub open spec fn drawn_for(
    calls: Seq<Issued>,
    from: int,
    to: int,
    font: FontId,
    glyph: char,
    entry: FontGlyphEntry,
) -> bool {
    exists|i: int|
        from <= i && i + 1 < to && #[trigger] calls[i] == (Issued {
            call: BackendCall::FontGlyphMetrics { font, glyph },
            outcome: Outcome::Metrics(entry.metrics),
        }) && calls[i + 1] == (Issued {
            call: BackendCall::RenderFontGlyph {
                font,
                glyph,
                origin: Point { x: entry.rect.x, y: entry.rect.y },
            },
            outcome: Outcome::Done,
        })
}

/// One of the calls from place `from` up to place `to` answered metrics with
/// an advance wider than the atlas, or the rows of the atlas are higher
/// than the atlas.
pub open spec fn outsized(calls: Seq<Issued>, from: int, to: int, atlas: AtlasView) -> bool {
    exists|i: int|
        from <= i < to && (#[trigger] calls[i]).outcome is Metrics && (
        calls[i].outcome->Metrics_0.advance > atlas.width || atlas.glyph_height > atlas.height)
}

/// One of the calls from place `from` up to place `to` failed with `e`.
pub open spec fn failed_within(calls: Seq<Issued>, from: int, to: int, e: Error) -> bool {
    exists|i: int| from <= i < to && (#[trigger] calls[i]).outcome == Outcome::Failed(e)
}

/// What a pass has done, read off its calls: it keeps every entry and the
/// size of the atlas; each entry it made lies in its atlas and came with two
/// calls, one for the metrics and one for the drawing; and where it failed,
/// a call failed with that error, or no atlas takes the glyph.
pub open spec fn pass_told(
    begun: Pass,
    end: Pass,
    font: FontId,
    index: usize,
    calls: Seq<Issued>,
) -> bool {
    &&& begun.at <= end.at
    &&& keeps(begun.glyphs, end.glyphs)
    &&& end.atlas.width == begun.atlas.width
    &&& end.atlas.height == begun.atlas.height
    &&& end.atlas.glyph_height == begun.atlas.glyph_height
    &&& end.atlas.texture == begun.atlas.texture
    &&& forall|glyph: char| #[trigger]
        end.glyphs.contains_key(glyph) && !begun.glyphs.contains_key(glyph) ==> {
            &&& end.glyphs[glyph].atlas_index == index
            &&& drawn_for(calls, begun.at, end.at, font, glyph, end.glyphs[glyph])
        }
    &&& end.status matches PassStatus::Failed(e) ==> {
        ||| failed_within(calls, begun.at, end.at, e)
        ||| e == Error::AtlasCapacityExceeded && outsized(calls, begun.at, end.at, begun.atlas)
    }
}

/// A pass whose calls are the ones that registering makes has done what
/// `pass_told` says.
pub proof fn lemma_pass_told(
    begun: Pass,
    font: FontId,
    index: usize,
    text: Seq<char>,
    calls: Seq<Issued>,
    n: int,
)
    requires
        begun.status is Going,
        pass_sound(begun, font, index, text, calls, n),
    ensures
        pass_told(begun, pass_after(begun, font, index, text, calls, n), font, index, calls),
    decreases n,
{
    if n > 0 {
        lemma_pass_told(begun, font, index, text, calls, n - 1);
        let pass = pass_after(begun, font, index, text, calls, n - 1);
        let end = pass_after(begun, font, index, text, calls, n);
        if pass_open(pass, text) && !pass.glyphs.contains_key(text[pass.next]) {
            let glyph = text[pass.next];
            assert forall|other: char| #[trigger]
                end.glyphs.contains_key(other) && !begun.glyphs.contains_key(
                    other,
                ) implies end.glyphs[other].atlas_index == index && drawn_for(
                calls,
                begun.at,
                end.at,
                font,
                other,
                end.glyphs[other],
            ) by {
                if pass.glyphs.contains_key(other) {
                    let i = choose|i: int|
                        begun.at <= i && i + 1 < pass.at && #[trigger] calls[i] == (Issued {
                            call: BackendCall::FontGlyphMetrics { font, glyph: other },
                            outcome: Outcome::Metrics(pass.glyphs[other].metrics),
                        }) && calls[i + 1] == (Issued {
                            call: BackendCall::RenderFontGlyph {
                                font,
                                glyph: other,
                                origin: Point {
                                    x: pass.glyphs[other].rect.x,
                                    y: pass.glyphs[other].rect.y,
                                },
                            },
                            outcome: Outcome::Done,
                        });
                    assert(calls[i].outcome == Outcome::Metrics(end.glyphs[other].metrics));
                } else {
                    assert(other == glyph);
                    assert(calls[pass.at].outcome == Outcome::Metrics(end.glyphs[other].metrics));
                }
            }
            if end.status is Failed {
                let e = end.status->Failed_0;
                if calls[pass.at].outcome is Failed {
                    assert(calls[pass.at].outcome == Outcome::Failed(e));
                } else {
                    let metrics = calls[pass.at].outcome->Metrics_0;
                    if placement(pass.atlas, index, metrics) is Err {
                        assert(calls[pass.at].outcome is Metrics);
                        assert(outsized(calls, begun.at, end.at, begun.atlas));
                    } else {
                        assert(calls[pass.at + 1].outcome == Outcome::Failed(e));
                    }
                }
            }
        } else if pass.status is Failed {
            let e = pass.status->Failed_0;
            if failed_within(calls, begun.at, pass.at, e) {
                let i = choose|i: int|
                    begun.at <= i < pass.at && (#[trigger] calls[i]).outcome == Outcome::Failed(e);
                assert(failed_within(calls, begun.at, end.at, e));
            } else {
                let i = choose|i: int|
                    begun.at <= i < pass.at && (#[trigger] calls[i]).outcome is Metrics && (
                    calls[i].outcome->Metrics_0.advance > begun.atlas.width
                        || begun.atlas.glyph_height > begun.atlas.height);
                assert(outsized(calls, begun.at, end.at, begun.atlas));
            }
        }
    }
}

/// The pass that begins at glyph `start` behind the call at place `first`.
pub open spec fn pass_begun(
    atlas: AtlasView,
    glyphs: Map<char, FontGlyphEntry>,
    start: int,
    first: int,
) -> Pass {
    Pass { atlas, glyphs, next: start, at: first + 1, status: PassStatus::Going }
}

/// A pass under its own scope, as it ends. The call at place `first` bound
/// the texture of the atlas: where that failed, the pass has failed with
/// that error and nothing has changed. Else the glyphs from `start` on were
/// registered until the pass stopped, failed or came to the end of the text,
/// and the call behind bound the own target again; where the pass had not
/// failed and that call did, the pass has failed with the error of that
/// call.
pub open spec fn scope_after(
    atlas: AtlasView,
    glyphs: Map<char, FontGlyphEntry>,
    font: FontId,
    index: usize,
    text: Seq<char>,
    start: int,
    calls: Seq<Issued>,
    first: int,
) -> Pass {
    match calls[first].outcome {
        Outcome::Failed(e) => Pass {
            atlas,
            glyphs,
            next: start,
            at: first + 1,
            status: PassStatus::Failed(e),
        },
        _ => {
            let end = pass_after(
                pass_begun(atlas, glyphs, start, first),
                font,
                index,
                text,
                calls,
                text.len() - start,
            );
            Pass {
                at: end.at + 1,
                status: match (end.status, calls[end.at].outcome) {
                    (PassStatus::Failed(e), _) => PassStatus::Failed(e),
                    (_, Outcome::Failed(e)) => PassStatus::Failed(e),
                    (status, _) => status,
                },
                ..end
            }
        },
    }
}

/// The calls of a pass under its own scope are the ones that it makes: one
/// that binds the texture of the atlas and, where that succeeded, those of
/// the pass and one that binds `target` again.
pub open spec fn scope_sound(
    atlas: AtlasView,
    glyphs: Map<char, FontGlyphEntry>,
    font: FontId,
    index: usize,
    target: Option<TextureId>,
    text: Seq<char>,
    start: int,
    calls: Seq<Issued>,
    first: int,
) -> bool {
    let begun = pass_begun(atlas, glyphs, start, first);
    let end = pass_after(begun, font, index, text, calls, text.len() - start);
    &&& 0 <= first < calls.len()
    &&& calls[first].call == BackendCall::RenderSetTarget { target: Some(atlas.texture.id) }
    &&& calls[first].outcome is Done || calls[first].outcome is Failed
    &&& calls[first].outcome is Done ==> {
        &&& pass_sound(begun, font, index, text, calls, text.len() - start)
        &&& !pass_open(end, text)
        &&& first < end.at < calls.len()
        &&& calls[end.at].call == BackendCall::RenderSetTarget { target }
        &&& calls[end.at].outcome is Done || calls[end.at].outcome is Failed
    }
}

/// Calls that are made later change nothing of a pass under its own scope.
pub proof fn lemma_scope_frame(
    atlas: AtlasView,
    glyphs: Map<char, FontGlyphEntry>,
    font: FontId,
    index: usize,
    target: Option<TextureId>,
    text: Seq<char>,
    start: int,
    calls: Seq<Issued>,
    more: Seq<Issued>,
    first: int,
)
    requires
        extends(calls, more),
        scope_sound(atlas, glyphs, font, index, target, text, start, calls, first),
    ensures
        scope_after(atlas, glyphs, font, index, text, start, more, first) == scope_after(
            atlas,
            glyphs,
            font,
            index,
            text,
            start,
            calls,
            first,
        ),
        scope_sound(atlas, glyphs, font, index, target, text, start, more, first),
{
    assert(more[first] == calls[first]);
    if calls[first].outcome is Done {
        let begun = pass_begun(atlas, glyphs, start, first);
        lemma_pass_frame(begun, font, index, text, calls, more, text.len() - start);
        let end = pass_after(begun, font, index, text, calls, text.len() - start);
        assert(more[end.at] == calls[end.at]);
    }
}

/// A pass under its own scope over the glyphs from `start` on has made
/// the calls from place `first` on, has left the atlas and the entries as
/// given, and has returned `r`.
pub open spec fn scoped(
    atlas: AtlasView,
    glyphs: Map<char, FontGlyphEntry>,
    font: FontId,
    index: usize,
    target: Option<TextureId>,
    text: Seq<char>,
    start: int,
    calls: Seq<Issued>,
    first: int,
    atlas_left: AtlasView,
    glyphs_left: Map<char, FontGlyphEntry>,
    r: Result<usize, Error>,
) -> bool {
    let end = scope_after(atlas, glyphs, font, index, text, start, calls, first);
    &&& scope_sound(atlas, glyphs, font, index, target, text, start, calls, first)
    &&& start <= end.next <= text.len()
    &&& end.atlas == atlas_left
    &&& end.glyphs == glyphs_left
    &&& end.at == calls.len()
    &&& r == pass_result(end)
}

/// One pass over the glyphs from `start` on, with the atlas's texture as
/// the target: the texture is bound, the glyphs are registered until the
/// text ends, the atlas is full or a call fails, and the canvas's own target
/// is bound again, whatever happened in between. Returns the place of the
/// first glyph that is left.
///
/// An error is `AtlasCapacityExceeded` or the error of a call that failed;
/// the entries made before it stay.
fn register_glyphs<B: Backend>(
    font_id: FontId,
    atlas_index: usize,
    atlas: &mut FontAtlas,
    canvas: &mut Canvas<B>,
    entries: &mut GlyphTable,
    glyphs: &Vec<char>,
    start: usize,
) -> (r: Result<usize, Error>)
    requires
        start <= glyphs@.len(),
        settled(glyph_entries(*old(entries)), atlas_index as int, old(atlas)@),
        apart(glyph_entries(*old(entries))),
    ensures
        final(canvas).target() == old(canvas).target(),
        pass_calls(
            old(canvas).calls(),
            final(canvas).calls(),
            old(atlas)@.texture.id,
            old(canvas).target(),
            font_id,
            r is Ok,
        ),
        filled(
            old(atlas)@,
            final(atlas)@,
            glyph_entries(*old(entries)),
            glyph_entries(*final(entries)),
            glyphs@,
            atlas_index as int,
        ),
        match r {
            Ok(next) => passed(
                old(atlas)@,
                final(atlas)@,
                glyph_entries(*final(entries)),
                glyphs@,
                start as int,
                next as int,
            ),
            Err(e) => e == Error::AtlasCapacityExceeded || failed_from(
                final(canvas).calls(),
                old(canvas).calls().len() as int,
                e,
            ),
        },
        scoped(
            old(atlas)@,
            glyph_entries(*old(entries)),
            font_id,
            atlas_index,
            old(canvas).target(),
            glyphs@,
            start as int,
            final(canvas).calls(),
            old(canvas).calls().len() as int,
            final(atlas)@,
            glyph_entries(*final(entries)),
            r,
        ),
{
    let ghost first = canvas.calls().len() as int;
    match canvas.enter(atlas.texture()) {
        Err(e) => {
            assert(canvas.calls()[first].outcome == Outcome::Failed(e));
            return Err(e);
        },
        Ok(()) => {},
    }
    let ghost entered = canvas.calls();
    let placed = place_glyphs(font_id, atlas_index, atlas, canvas, entries, glyphs, start);
    let ghost inside = canvas.calls();
    let left = canvas.leave();
    proof {
        lemma_pass_frame(
            pass_begun(old(atlas)@, glyph_entries(*old(entries)), start as int, first),
            font_id,
            atlas_index,
            glyphs@,
            inside,
            canvas.calls(),
            glyphs@.len() - start,
        );
        assert(canvas.calls()[first] == entered[first]);
        assert forall|i: int| first < i < canvas.calls().len() - 1 implies glyph_call(
            (#[trigger] canvas.calls()[i]).call,
            font_id,
        ) by {
            assert(canvas.calls()[i] == inside[i]);
        }
    }
    match placed {
        Err(e) => {
            proof {
                if e != Error::AtlasCapacityExceeded {
                    assert(canvas.calls()[inside.len() - 1] == inside.last());
                }
            }
            Err(e)
        },
        Ok(next) => match left {
            Err(e) => {
                assert(canvas.calls()[inside.len() as int].outcome == Outcome::Failed(e));
                Err(e)
            },
            Ok(()) => Ok(next),
        },
    }
}

/// Registering a text at some point: the atlases and the entries as they
/// stand, the place of the next glyph, how many of the calls made on the
/// backend lie behind, and the result once there is one.
pub struct Registration {
    pub atlases: Seq<AtlasView>,
    pub glyphs: Map<char, FontGlyphEntry>,
    pub next: int,
    pub at: int,
    pub result: Option<Result<(), Error>>,
}

/// The place of the first glyph at or behind `from` that has no entry; the
/// length of the text if there is none.
pub open spec fn skip_cached(glyphs: Map<char, FontGlyphEntry>, text: Seq<char>, from: int) -> int
    decreases text.len() - from,
{
    if 0 <= from < text.len() && glyphs.contains_key(text[from]) {
        skip_cached(glyphs, text, from + 1)
    } else {
        from
    }
}

/// An atlas over the texture that the backend answered, with nothing in it.
pub open spec fn empty_atlas(data: TextureData, glyph_height: u32) -> AtlasView {
    AtlasView {
        texture: TextureView {
            id: data.id,
            kind: TextureKind::Target,
            width: data.width,
            height: data.height,
        },
        width: reach(data.width),
        height: reach(data.height),
        glyph_height,
        x_cursor: 0,
        y_cursor: 0,
        full: false,
    }
}

/// Registering behind one more round.
///
/// Glyphs that have an entry are passed over without a call. Where none is
/// left, registering has succeeded. Else a pass under its own scope runs
/// over the rest in the last atlas. Where it fails, registering has failed
/// with its error. Where it stops because the atlas is full, the call
/// behind it asked for the texture of a new atlas: where that failed,
/// registering has failed with that error; else the font has one more
/// atlas, empty, over that texture, and the glyph that found no room is the
/// next to be registered.
pub open spec fn round_after(
    state: Registration,
    font: FontId,
    text: Seq<char>,
    calls: Seq<Issued>,
) -> Registration {
    let start = skip_cached(state.glyphs, text, state.next);
    if !(0 <= start < text.len()) {
        Registration { next: start, result: Some(Ok(())), ..state }
    } else {
        let index = state.atlases.len() - 1;
        let end = scope_after(
            state.atlases.last(),
            state.glyphs,
            font,
            index as usize,
            text,
            start,
            calls,
            state.at,
        );
        let atlases = state.atlases.update(index, end.atlas);
        let on = Registration {
            atlases,
            glyphs: end.glyphs,
            next: end.next,
            at: end.at,
            result: None,
        };
        match end.status {
            PassStatus::Failed(e) => Registration { result: Some(Err(e)), ..on },
            PassStatus::Going => on,
            PassStatus::Full => match calls[end.at].outcome {
                Outcome::Texture(data) => Registration {
                    atlases: atlases.push(empty_atlas(data, state.atlases.last().glyph_height)),
                    at: end.at + 1,
                    ..on
                },
                Outcome::Failed(e) => Registration { at: end.at + 1, result: Some(Err(e)), ..on },
                _ => Registration {
                    at: end.at + 1,
                    result: Some(Err(Error::InvalidInput)),
                    ..on
                },
            },
        }
    }
}

/// The calls of one more round are the ones that registering makes: those
/// of a pass under its own scope and, where the atlas was full, one that
/// asks for the texture of a new atlas.
pub open spec fn round_sound(
    state: Registration,
    font: FontId,
    target: Option<TextureId>,
    text: Seq<char>,
    calls: Seq<Issued>,
) -> bool {
    let start = skip_cached(state.glyphs, text, state.next);
    0 <= start < text.len() ==> {
        let index = state.atlases.len() - 1;
        let end = scope_after(
            state.atlases.last(),
            state.glyphs,
            font,
            index as usize,
            text,
            start,
            calls,
            state.at,
        );
        &&& state.atlases.len() > 0
        &&& scope_sound(
            state.atlases.last(),
            state.glyphs,
            font,
            index as usize,
            target,
            text,
            start,
            calls,
            state.at,
        )
        &&& end.status is Full ==> {
            &&& 0 <= end.at < calls.len()
            &&& calls[end.at].call == BackendCall::TextureCreate {
                width: ATLAS_WIDTH,
                height: ATLAS_HEIGHT,
            }
            &&& calls[end.at].outcome is Texture || calls[end.at].outcome is Failed
        }
    }
}

/// Calls that are made later change nothing of a round.
pub proof fn lemma_round_frame(
    state: Registration,
    font: FontId,
    target: Option<TextureId>,
    text: Seq<char>,
    calls: Seq<Issued>,
    more: Seq<Issued>,
)
    requires
        extends(calls, more),
        round_sound(state, font, target, text, calls),
    ensures
        round_after(state, font, text, more) == round_after(state, font, text, calls),
        round_sound(state, font, target, text, more),
{
    let start = skip_cached(state.glyphs, text, state.next);
    if 0 <= start < text.len() {
        let index = (state.atlases.len() - 1) as usize;
        lemma_scope_frame(
            state.atlases.last(),
            state.glyphs,
            font,
            index,
            target,
            text,
            start,
            calls,
            more,
            state.at,
        );
        let end = scope_after(
            state.atlases.last(),
            state.glyphs,
            font,
            index,
            text,
            start,
            calls,
            state.at,
        );
        if end.status is Full {
            assert(more[end.at] == calls[end.at]);
        }
    }
}

/// Registering behind `rounds` more rounds, or behind as many as it took to
/// come to a result.
pub open spec fn rounds_after(
    begun: Registration,
    font: FontId,
    text: Seq<char>,
    calls: Seq<Issued>,
    rounds: int,
) -> Registration
    decreases rounds,
{
    if rounds <= 0 {
        begun
    } else {
        let state = rounds_after(begun, font, text, calls, rounds - 1);
        if state.result is None {
            round_after(state, font, text, calls)
        } else {
            state
        }
    }
}

/// The calls of up to `rounds` more rounds are the ones that registering
/// makes.
pub open spec fn rounds_sound(
    begun: Registration,
    font: FontId,
    target: Option<TextureId>,
    text: Seq<char>,
    calls: Seq<Issued>,
    rounds: int,
) -> bool
    decreases rounds,
{
    rounds <= 0 || {
        let state = rounds_after(begun, font, text, calls, rounds - 1);
        &&& rounds_sound(begun, font, target, text, calls, rounds - 1)
        &&& state.result is None ==> round_sound(state, font, target, text, calls)
    }
}

/// Calls that are made later change nothing of the rounds before them.
pub proof fn lemma_rounds_frame(
    begun: Registration,
    font: FontId,
    target: Option<TextureId>,
    text: Seq<char>,
    calls: Seq<Issued>,
    more: Seq<Issued>,
    rounds: int,
)
    requires
        extends(calls, more),
        rounds_sound(begun, font, target, text, calls, rounds),
    ensures
        rounds_after(begun, font, text, more, rounds) == rounds_after(
            begun,
            font,
            text,
            calls,
            rounds,
        ),
        rounds_sound(begun, font, target, text, more, rounds),
    decreases rounds,
{
    if rounds > 0 {
        lemma_rounds_frame(begun, font, target, text, calls, more, rounds - 1);
        let state = rounds_after(begun, font, text, calls, rounds - 1);
        if state.result is None {
            lemma_round_frame(state, font, target, text, calls, more);
        }
    }
}

/// What registering has done, read off its calls: the font keeps every
/// entry and every atlas; each entry that was made came with two calls side
/// by side, one for the metrics and one for the drawing; and where
/// registering failed, a call failed with that error, or the last atlas
/// takes no glyph as wide as the backend answered or as high as a row.
pub open spec fn registration_told(
    begun: Registration,
    end: Registration,
    font: FontId,
    calls: Seq<Issued>,
) -> bool {
    &&& begun.at <= end.at
    &&& 0 < begun.atlases.len() <= end.atlases.len()
    &&& keeps(begun.glyphs, end.glyphs)
    &&& forall|glyph: char| #[trigger]
        end.glyphs.contains_key(glyph) && !begun.glyphs.contains_key(glyph) ==> drawn_for(
            calls,
            begun.at,
            end.at,
            font,
            glyph,
            end.glyphs[glyph],
        )
    &&& end.result matches Some(Err(e)) ==> {
        ||| failed_within(calls, begun.at, end.at, e)
        ||| e == Error::AtlasCapacityExceeded && outsized(
            calls,
            begun.at,
            end.at,
            end.atlases.last(),
        )
    }
}

/// The two calls that registered a glyph lie in every wider stretch of
/// calls too.
proof fn lemma_drawn_wider(
    calls: Seq<Issued>,
    from: int,
    to: int,
    wider_from: int,
    wider_to: int,
    font: FontId,
    glyph: char,
    entry: FontGlyphEntry,
)
    requires
        drawn_for(calls, from, to, font, glyph, entry),
        wider_from <= from,
        to <= wider_to,
    ensures
        drawn_for(calls, wider_from, wider_to, font, glyph, entry),
{
    let i = choose|i: int|
        from <= i && i + 1 < to && #[trigger] calls[i] == (Issued {
            call: BackendCall::FontGlyphMetrics { font, glyph },
            outcome: Outcome::Metrics(entry.metrics),
        }) && calls[i + 1] == (Issued {
            call: BackendCall::RenderFontGlyph {
                font,
                glyph,
                origin: Point { x: entry.rect.x, y: entry.rect.y },
            },
            outcome: Outcome::Done,
        });
    assert(wider_from <= i && i + 1 < wider_to);
}

/// A round whose calls are the ones that registering makes has done what
/// `registration_told` says.
pub proof fn lemma_round_told(
    state: Registration,
    font: FontId,
    target: Option<TextureId>,
    text: Seq<char>,
    calls: Seq<Issued>,
)
    requires
        state.atlases.len() > 0,
        round_sound(state, font, target, text, calls),
    ensures
        registration_told(state, round_after(state, font, text, calls), font, calls),
{
    let start = skip_cached(state.glyphs, text, state.next);
    let after = round_after(state, font, text, calls);
    if 0 <= start < text.len() {
        let index = (state.atlases.len() - 1) as usize;
        let atlas = state.atlases.last();
        let end = scope_after(atlas, state.glyphs, font, index, text, start, calls, state.at);
        if calls[state.at].outcome is Failed {
            let e = calls[state.at].outcome->Failed_0;
            assert(calls[state.at].outcome == Outcome::Failed(e));
            assert(failed_within(calls, state.at, after.at, e));
        } else {
            let begun = pass_begun(atlas, state.glyphs, start, state.at);
            let pass = pass_after(begun, font, index, text, calls, text.len() - start);
            lemma_pass_told(begun, font, index, text, calls, text.len() - start);
            assert forall|glyph: char| #[trigger]
                after.glyphs.contains_key(glyph) && !state.glyphs.contains_key(
                    glyph,
                ) implies drawn_for(calls, state.at, after.at, font, glyph, after.glyphs[glyph]) by {
                lemma_drawn_wider(
                    calls,
                    begun.at,
                    pass.at,
                    state.at,
                    after.at,
                    font,
                    glyph,
                    after.glyphs[glyph],
                );
            }
            if after.result is Some && after.result->Some_0 is Err {
                let e = after.result->Some_0->Err_0;
                if pass.status is Failed {
                    if failed_within(calls, begun.at, pass.at, e) {
                        let i = choose|i: int|
                            begun.at <= i < pass.at && (#[trigger] calls[i]).outcome
                                == Outcome::Failed(e);
                        assert(failed_within(calls, state.at, after.at, e));
                    } else {
                        let i = choose|i: int|
                            begun.at <= i < pass.at && (#[trigger] calls[i]).outcome is Metrics && (
                            calls[i].outcome->Metrics_0.advance > atlas.width || atlas.glyph_height
                                > atlas.height);
                        assert(after.atlases.last() == pass.atlas);
                        assert(outsized(calls, state.at, after.at, after.atlases.last()));
                    }
                } else if calls[pass.at].outcome is Failed {
                    assert(calls[pass.at].outcome == Outcome::Failed(e));
                    assert(failed_within(calls, state.at, after.at, e));
                } else {
                    assert(calls[end.at].outcome == Outcome::Failed(e));
                    assert(failed_within(calls, state.at, after.at, e));
                }
            }
        }
    }
}

/// Rounds whose calls are the ones that registering makes have done what
/// `registration_told` says.
pub proof fn lemma_rounds_told(
    begun: Registration,
    font: FontId,
    target: Option<TextureId>,
    text: Seq<char>,
    calls: Seq<Issued>,
    rounds: int,
)
    requires
        begun.atlases.len() > 0,
        begun.result is None,
        rounds_sound(begun, font, target, text, calls, rounds),
    ensures
        registration_told(begun, rounds_after(begun, font, text, calls, rounds), font, calls),
    decreases rounds,
{
    if rounds > 0 {
        lemma_rounds_told(begun, font, target, text, calls, rounds - 1);
        let state = rounds_after(begun, font, text, calls, rounds - 1);
        let end = rounds_after(begun, font, text, calls, rounds);
        if state.result is None {
            lemma_round_told(state, font, target, text, calls);
            assert forall|glyph: char| #[trigger]
                end.glyphs.contains_key(glyph) && !begun.glyphs.contains_key(
                    glyph,
                ) implies drawn_for(calls, begun.at, end.at, font, glyph, end.glyphs[glyph]) by {
                if state.glyphs.contains_key(glyph) {
                    lemma_drawn_wider(
                        calls,
                        begun.at,
                        state.at,
                        begun.at,
                        end.at,
                        font,
                        glyph,
                        end.glyphs[glyph],
                    );
                } else {
                    lemma_drawn_wider(
                        calls,
                        state.at,
                        end.at,
                        begun.at,
                        end.at,
                        font,
                        glyph,
                        end.glyphs[glyph],
                    );
                }
            }
            if end.result is Some && end.result->Some_0 is Err {
                let e = end.result->Some_0->Err_0;
                if failed_within(calls, state.at, end.at, e) {
                    let i = choose|i: int|
                        state.at <= i < end.at && (#[trigger] calls[i]).outcome == Outcome::Failed(
                            e,
                        );
                    assert(failed_within(calls, begun.at, end.at, e));
                } else {
                    let atlas = end.atlases.last();
                    let i = choose|i: int|
                        state.at <= i < end.at && (#[trigger] calls[i]).outcome is Metrics && (
                        calls[i].outcome->Metrics_0.advance > atlas.width || atlas.glyph_height
                            > atlas.height);
                    assert(outsized(calls, begun.at, end.at, atlas));
                }
            }
        }
    }
}

/// Registering that has come to a result stays as it is, however many rounds
/// are counted behind it.
pub proof fn lemma_rounds_stay(
    begun: Registration,
    font: FontId,
    text: Seq<char>,
    calls: Seq<Issued>,
    rounds: int,
    more: int,
)
    requires
        0 <= rounds <= more,
        rounds_after(begun, font, text, calls, rounds).result is Some,
    ensures
        rounds_after(begun, font, text, calls, more) == rounds_after(
            begun,
            font,
            text,
            calls,
            rounds,
        ),
    decreases more,
{
    if rounds < more {
        lemma_rounds_stay(begun, font, text, calls, rounds, more - 1);
    }
}

/// Registering a text has run to its result in `rounds` rounds, over the
/// calls from `before` on, and has turned the one font into the other.
pub open spec fn replayed<'a>(
    earlier: &'a Font,
    later: &'a Font,
    text: Seq<char>,
    before: Seq<Issued>,
    after: Seq<Issued>,
    target: Option<TextureId>,
    r: Result<(), Error>,
    rounds: int,
) -> bool {
    let begun = Registration {
        atlases: earlier.atlas_views(),
        glyphs: earlier.glyphs(),
        next: 0,
        at: before.len() as int,
        result: None,
    };
    let end = rounds_after(begun, earlier.font_id(), text, after, rounds);
    &&& rounds_sound(begun, earlier.font_id(), target, text, after, rounds)
    &&& end.result == Some(r)
    &&& end.atlases == later.atlas_views()
    &&& end.glyphs == later.glyphs()
    &&& end.at == after.len()
}

/// A font was asked of the backend behind the calls `before`. The first
/// call asked for the font at `path` in size `scale`; where it failed,
/// nothing followed and its error is the result. The second asked for the
/// texture of an atlas. Where it succeeded, the result is a font in order,
/// as the backend answered it, without glyphs and with one empty atlas over
/// that texture. Where it failed, a third call gave the font back to the
/// backend, and the error of the second is the result.
pub open spec fn loaded(
    before: Seq<Issued>,
    after: Seq<Issued>,
    path: Seq<char>,
    scale: u8,
    r: Result<Font, Error>,
) -> bool {
    let first = after[before.len() as int];
    &&& extends(before, after)
    &&& after.len() > before.len()
    &&& first.call == (BackendCall::FontLoad { path, scale })
    &&& match r {
        Ok(font) => {
            &&& font.wf()
            &&& font.loaded_scale() == scale
            &&& forall|glyph: char| !font.glyphs().contains_key(glyph)
            &&& font.atlas_views().len() == 1
            &&& fresh(font.atlas_views()[0])
            &&& after.len() == before.len() + 2
            &&& first.outcome == Outcome::Font(
                FontData { id: font.font_id(), glyphs_height: font.row_height() },
            )
            &&& after.last() == (Issued {
                call: BackendCall::TextureCreate { width: ATLAS_WIDTH, height: ATLAS_HEIGHT },
                outcome: Outcome::Texture(data_of(font.atlas_views()[0].texture)),
            })
        },
        Err(e) => {
            ||| {
                &&& after.len() == before.len() + 1
                &&& first.outcome == Outcome::Failed(e)
            }
            ||| {
                &&& after.len() == before.len() + 3
                &&& first.outcome is Font
                &&& after[before.len() as int + 1] == (Issued {
                    call: BackendCall::TextureCreate { width: ATLAS_WIDTH, height: ATLAS_HEIGHT },
                    outcome: Outcome::Failed(e),
                })
                &&& after.last().call == (BackendCall::FontDestroy {
                    font: first.outcome->Font_0.id,
                })
            }
        },
    }
}

/// A font was given back to the backend behind the calls `before`: one call
/// for the texture of each of its atlases, newest first, and one for the
/// font.
pub open spec fn released(
    before: Seq<Issued>,
    after: Seq<Issued>,
    atlases: Seq<AtlasView>,
    font: FontId,
) -> bool {
    &&& after.len() == before.len() + atlases.len() + 1
    &&& extends(before, after)
    &&& forall|i: int|
        0 <= i < atlases.len() ==> (#[trigger] after[before.len() + i]).call
            == (BackendCall::TextureDestroy { texture: atlases[atlases.len() - 1 - i].texture.id })
    &&& after.last().call == (BackendCall::FontDestroy { font })
}

/// A font of the backend at one size, with the glyphs drawn so far.
pub struct Font {
    id: FontId,
    scale: u8,
    glyphs_height: u32,
    atlases: Vec<FontAtlas>,
    entries: GlyphTable,
}

/// The second font is the first a while later: the same font, with every
/// glyph it had where it was, and every atlas it had over the texture it
/// was over.
pub open spec fn grown<'a>(earlier: &'a Font, later: &'a Font) -> bool {
    &&& later.font_id() == earlier.font_id()
    &&& later.loaded_scale() == earlier.loaded_scale()
    &&& later.row_height() == earlier.row_height()
    &&& keeps(earlier.glyphs(), later.glyphs())
    &&& earlier.atlas_views().len() <= later.atlas_views().len()
    &&& forall|i: int|
        0 <= i < earlier.atlas_views().len() ==> (#[trigger] later.atlas_views()[i]).texture
            == earlier.atlas_views()[i].texture
}

impl Font {
    /// The identity of the font at the backend.
    pub closed spec fn font_id(&self) -> FontId {
        self.id
    }

    /// The size in which the font was loaded.
    pub closed spec fn loaded_scale(&self) -> u8 {
        self.scale
    }

    /// The height of every glyph of the font, and of every row of its
    /// atlases.
    pub closed spec fn row_height(&self) -> u32 {
        self.glyphs_height
    }

    /// The glyphs drawn so far, by character.
    pub closed spec fn glyphs(&self) -> Map<char, FontGlyphEntry> {
        glyph_entries(self.entries)
    }

    /// The atlases, oldest first. Glyphs go to the last.
    pub closed spec fn atlas_views(&self) -> Seq<AtlasView> {
        Seq::new(self.atlases@.len(), |i: int| self.atlases@[i]@)
    }

    /// The font is in order: it has an atlas; every atlas has rows of the
    /// font's height; every glyph lies in an atlas the font has, in the part
    /// of it that is taken; and no two glyphs of one atlas share a pixel.
    pub closed spec fn wf(&self) -> bool {
        &&& self.atlases@.len() > 0
        &&& forall|i: int|
            0 <= i < self.atlases@.len() ==> (#[trigger] self.atlases@[i])@.glyph_height
                == self.glyphs_height
        &&& forall|i: int|
            0 <= i < self.atlases@.len() ==> settled(
                self.glyphs(),
                i,
                (#[trigger] self.atlases@[i])@,
            )
        &&& forall|glyph: char| #[trigger]
            self.glyphs().contains_key(glyph) ==> self.glyphs()[glyph].atlas_index
                < self.atlases@.len()
        &&& apart(self.glyphs())
    }

    /// Loads the font at `path` in size `scale` and gives it one empty atlas:
    /// one call of the backend for the font and one for the atlas's texture.
    /// Where the first fails, its error comes back. Where the second fails,
    /// the font is given back to the backend with a third call, and the
    /// error of the second comes back.
    pub fn new<B: Backend>(backend: &mut Traced<B>, path: &str, scale: u8) -> (r: Result<
        Self,
        Error,
    >)
        ensures
            loaded(old(backend).calls(), final(backend).calls(), path@, scale, r),
    {
        let data = match backend.font_load(path, scale) {
            Ok(data) => data,
            Err(e) => {
                return Err(e);
            },
        };
        match FontAtlas::new(backend, ATLAS_WIDTH, ATLAS_HEIGHT, data.glyphs_height) {
            Ok(atlas) => {
                let mut atlases: Vec<FontAtlas> = Vec::new();
                atlases.push(atlas);
                let font = Font {
                    id: data.id,
                    scale,
                    glyphs_height: data.glyphs_height,
                    atlases,
                    entries: table_new(),
                };
                Ok(font)
            },
            Err(e) => {
                let _ = backend.font_destroy(data.id);
                Err(e)
            },
        }
    }

    /// Registers every character of the text: see `register_glyphs`.
    pub fn register_text<B: Backend>(&mut self, text: &str, canvas: &mut Canvas<B>) -> (r: Result<
        (),
        Error,
    >)
        requires
            old(self).wf(),
        ensures
            final(self).wf(),
            grown(old(self), final(self)),
            registered(
                old(self),
                final(self),
                text@,
                old(canvas).calls(),
                final(canvas).calls(),
                old(canvas).target(),
                r,
            ),
            final(canvas).target() == old(canvas).target(),
    {
        self.register_glyphs(text, canvas)
    }

    /// Makes sure that every character of the text has its glyph in an
    /// atlas.
    ///
    /// A text whose characters all have a glyph costs no call and changes
    /// nothing. For any other, the last atlas is bound as the target and the
    /// glyphs that are missing are drawn into it one after the other; when
    /// it is full, the canvas's own target is bound again, a new atlas is
    /// made, and the glyph that found no room is the first to go there. The
    /// canvas's own target is bound again at the end, also after a failure
    /// in between.
    ///
    /// A glyph too large for an empty atlas fails with
    /// `AtlasCapacityExceeded`; a call of the backend that fails, with its
    /// error. The glyphs registered before the failure stay.
    #[verifier::rlimit(40)]
    pub fn register_glyphs<B: Backend>(&mut self, text: &str, canvas: &mut Canvas<B>) -> (r:
        Result<(), Error>)
        requires
            old(self).wf(),
        ensures
            final(self).wf(),
            grown(old(self), final(self)),
            registered(
                old(self),
                final(self),
                text@,
                old(canvas).calls(),
                final(canvas).calls(),
                old(canvas).target(),
                r,
            ),
            final(canvas).target() == old(canvas).target(),
    {
        let glyphs = characters(text);
        let n = glyphs.len();
        let mut i: usize = 0;
        let ghost mut touched = false;
        let ghost mut rounds: int = 0;
        let ghost begun = Registration {
            atlases: self.atlas_views(),
            glyphs: self.glyphs(),
            next: 0,
            at: canvas.calls().len() as int,
            result: None,
        };
        loop
            invariant
                glyphs@ == text@,
                n == glyphs@.len(),
                i <= n,
                old(self).wf(),
                self.wf(),
                grown(old(self), self),
                canvas.target() == old(canvas).target(),
                extends(old(canvas).calls(), canvas.calls()),
                forall|k: int|
                    old(canvas).calls().len() <= k < canvas.calls().len() ==> registering_call(
                        (#[trigger] canvas.calls()[k]).call,
                        old(self).font_id(),
                    ),
                forall|j: int| 0 <= j < i ==> self.glyphs().contains_key(#[trigger] glyphs@[j]),
                forall|glyph: char| #[trigger]
                    self.glyphs().contains_key(glyph) && !old(self).glyphs().contains_key(glyph)
                        ==> text@.contains(glyph),
                !touched ==> canvas.calls() == old(canvas).calls() && self.glyphs() == old(
                    self,
                ).glyphs() && self.atlas_views() == old(self).atlas_views(),
                !touched ==> forall|j: int|
                    0 <= j < i ==> old(self).glyphs().contains_key(#[trigger] glyphs@[j]),
                touched ==> canvas.calls().len() > old(canvas).calls().len(),
                touched ==> !covers(old(self).glyphs(), text@),
                touched ==> {
                    ||| canvas.calls().last() == (Issued {
                        call: BackendCall::RenderSetTarget { target: canvas.target() },
                        outcome: Outcome::Done,
                    })
                    ||| i < n && !self.glyphs().contains_key(glyphs@[i as int])
                },
                0 <= rounds,
                begun == (Registration {
                    atlases: old(self).atlas_views(),
                    glyphs: old(self).glyphs(),
                    next: 0,
                    at: old(canvas).calls().len() as int,
                    result: None,
                }),
                rounds_sound(
                    begun,
                    old(self).font_id(),
                    old(canvas).target(),
                    text@,
                    canvas.calls(),
                    rounds,
                ),
                rounds_after(begun, old(self).font_id(), text@, canvas.calls(), rounds) == (
                Registration {
                    atlases: self.atlas_views(),
                    glyphs: self.glyphs(),
                    next: i as int,
                    at: canvas.calls().len() as int,
                    result: None,
                }),
            decreases
                    n - i,
                    (if fresh(self.atlases@.last()@) {
                        0int
                    } else {
                        1int
                    }),
        {
            let ghost from = i as int;
            while i < n && table_contains(&self.entries, glyph_at(&glyphs, i))
                invariant
                    n == glyphs@.len(),
                    from <= i <= n,
                    skip_cached(self.glyphs(), glyphs@, i as int) == skip_cached(
                        self.glyphs(),
                        glyphs@,
                        from,
                    ),
                    forall|j: int| 0 <= j < i ==> self.glyphs().contains_key(#[trigger] glyphs@[j]),
                    !touched ==> self.glyphs() == old(self).glyphs(),
                    !touched ==> forall|j: int|
                        0 <= j < i ==> old(self).glyphs().contains_key(#[trigger] glyphs@[j]),
                decreases n - i,
            {
                i += 1;
            }
            let ghost state = rounds_after(
                begun,
                old(self).font_id(),
                text@,
                canvas.calls(),
                rounds,
            );
            if i == n {
                proof {
                    assert(replayed(
                        old(self),
                        self,
                        text@,
                        old(canvas).calls(),
                        canvas.calls(),
                        old(canvas).target(),
                        Ok(()),
                        rounds + 1,
                    ));
                    lemma_replayed_told(
                        old(self),
                        self,
                        text@,
                        old(canvas).calls(),
                        canvas.calls(),
                        old(canvas).target(),
                        Ok(()),
                        rounds + 1,
                    );
                }
                return Ok(());
            }
            let ghost before = *self;
            let ghost calls_before = canvas.calls();
            let round = self.register_round(&glyphs, i, canvas);
            proof {
                assert(!old(self).glyphs().contains_key(glyphs@[i as int]));
                touched = true;
                lemma_grown_on(old(self), &before, self);
                assert forall|k: int|
                    old(canvas).calls().len() <= k < canvas.calls().len() implies registering_call(
                    (#[trigger] canvas.calls()[k]).call,
                    old(self).font_id(),
                ) by {
                    if k < calls_before.len() {
                        assert(canvas.calls()[k] == calls_before[k]);
                    }
                }
                lemma_rounds_frame(
                    begun,
                    old(self).font_id(),
                    old(canvas).target(),
                    text@,
                    calls_before,
                    canvas.calls(),
                    rounds,
                );
                let started = Registration { next: i as int, ..state };
                assert(round_after(state, old(self).font_id(), text@, canvas.calls())
                    == round_after(started, old(self).font_id(), text@, canvas.calls()));
                rounds = rounds + 1;
            }
            match round {
                Err(e) => {
                    proof {
                        if e != Error::AtlasCapacityExceeded {
                            let at = choose|at: int|
                                calls_before.len() <= at < canvas.calls().len() && (
                                #[trigger] canvas.calls()[at]).outcome == Outcome::Failed(e);
                            assert(old(canvas).calls().len() <= at);
                        }
                        assert(replayed(
                            old(self),
                            self,
                            text@,
                            old(canvas).calls(),
                            canvas.calls(),
                            old(canvas).target(),
                            Err(e),
                            rounds,
                        ));
                        lemma_replayed_told(
                            old(self),
                            self,
                            text@,
                            old(canvas).calls(),
                            canvas.calls(),
                            old(canvas).target(),
                            Err(e),
                            rounds,
                        );
                    }
                    return Err(e);
                },
                Ok(next) => {
                    i = next;
                },
            }
        }
    }

    /// One round of registering, from a glyph that has no entry: a pass
    /// under its own scope over the glyphs from `start` on in the last
    /// atlas and, where that atlas is full, a new atlas behind it. Returns
    /// the place of the first glyph that is left.
    #[verifier::rlimit(40)]
    fn register_round<B: Backend>(
        &mut self,
        glyphs: &Vec<char>,
        start: usize,
        canvas: &mut Canvas<B>,
    ) -> (r: Result<usize, Error>)
        requires
            old(self).wf(),
            start < glyphs@.len(),
            !old(self).glyphs().contains_key(glyphs@[start as int]),
        ensures
            final(self).wf(),
            grown(old(self), final(self)),
            final(canvas).target() == old(canvas).target(),
            extends(old(canvas).calls(), final(canvas).calls()),
            final(canvas).calls().len() > old(canvas).calls().len(),
            forall|k: int|
                old(canvas).calls().len() <= k < final(canvas).calls().len() ==> registering_call(
                    (#[trigger] final(canvas).calls()[k]).call,
                    old(self).font_id(),
                ),
            forall|glyph: char| #[trigger]
                final(self).glyphs().contains_key(glyph) && !old(self).glyphs().contains_key(glyph)
                    ==> glyphs@.contains(glyph),
            match r {
                Ok(next) => {
                    &&& start <= next <= glyphs@.len()
                    &&& forall|j: int|
                        start <= j < next ==> final(self).glyphs().contains_key(
                            #[trigger] glyphs@[j],
                        )
                    &&& next < glyphs@.len() ==> !final(self).glyphs().contains_key(
                        glyphs@[next as int],
                    )
                    &&& next > start || (fresh(final(self).atlas_views().last()) && !fresh(
                        old(self).atlas_views().last(),
                    ))
                    &&& next < glyphs@.len() || final(canvas).calls().last() == (Issued {
                        call: BackendCall::RenderSetTarget { target: old(canvas).target() },
                        outcome: Outcome::Done,
                    })
                },
                Err(e) => {
                    &&& e == Error::AtlasCapacityExceeded || failed_from(
                        final(canvas).calls(),
                        old(canvas).calls().len() as int,
                        e,
                    )
                    &&& final(canvas).calls().last().outcome is Failed
                        || final(canvas).calls().last().call == (BackendCall::RenderSetTarget {
                        target: old(canvas).target(),
                    })
                },
            },
            ({
                let state = Registration {
                    atlases: old(self).atlas_views(),
                    glyphs: old(self).glyphs(),
                    next: start as int,
                    at: old(canvas).calls().len() as int,
                    result: None,
                };
                let end = round_after(state, old(self).font_id(), glyphs@, final(canvas).calls());
                &&& round_sound(
                    state,
                    old(self).font_id(),
                    old(canvas).target(),
                    glyphs@,
                    final(canvas).calls(),
                )
                &&& end.atlases == final(self).atlas_views()
                &&& end.glyphs == final(self).glyphs()
                &&& end.at == final(canvas).calls().len()
                &&& match r {
                    Ok(next) => end.result is None && end.next == next,
                    Err(e) => end.result == Some(Err::<(), Error>(e)),
                }
            }),
    {
        let n = glyphs.len();
        let ghost before = *self;
        let ghost calls_before = canvas.calls();
        let atlas_index = self.atlases.len() - 1;
        let passed = register_glyphs(
            self.id,
            atlas_index,
            &mut self.atlases[atlas_index],
            canvas,
            &mut self.entries,
            glyphs,
            start,
        );
        let ghost end = scope_after(
            before.atlas_views().last(),
            before.glyphs(),
            self.id,
            atlas_index,
            glyphs@,
            start as int,
            canvas.calls(),
            calls_before.len() as int,
        );
        proof {
            assert(skip_cached(before.glyphs(), glyphs@, start as int) == start);
            assert(self.atlas_views() =~= before.atlas_views().update(
                atlas_index as int,
                self.atlases@[atlas_index as int]@,
            )) by {
                assert forall|k: int| 0 <= k < self.atlases@.len() && k != atlas_index implies self.atlases@[k]
                    == before.atlases@[k] by {}
            }
            lemma_pass_full(
                pass_begun(
                    before.atlas_views().last(),
                    before.glyphs(),
                    start as int,
                    calls_before.len() as int,
                ),
                self.id,
                atlas_index,
                glyphs@,
                canvas.calls(),
                glyphs@.len() - start,
            );
            assert forall|k: int|
                calls_before.len() <= k < canvas.calls().len() implies registering_call(
                (#[trigger] canvas.calls()[k]).call,
                self.id,
            ) by {}
            assert forall|k: int| 0 <= k < self.atlases@.len() implies settled(
                self.glyphs(),
                k,
                (#[trigger] self.atlases@[k])@,
            ) by {
                if k != atlas_index {
                    assert(self.atlases@[k] == before.atlases@[k]);
                    assert(settled(before.glyphs(), k, before.atlases@[k]@));
                }
            }
            assert forall|k: int| 0 <= k < self.atlases@.len() implies (
            #[trigger] self.atlases@[k])@.glyph_height == self.glyphs_height by {
                if k != atlas_index {
                    assert(self.atlases@[k] == before.atlases@[k]);
                }
            }
            assert forall|k: int| 0 <= k < before.atlas_views().len() implies (
            #[trigger] self.atlas_views()[k]).texture == before.atlas_views()[k].texture by {
                if k != atlas_index {
                    assert(self.atlases@[k] == before.atlases@[k]);
                }
            }
        }
        let ghost state = Registration {
            atlases: before.atlas_views(),
            glyphs: before.glyphs(),
            next: start as int,
            at: calls_before.len() as int,
            result: None,
        };
        proof {
            assert(before.atlas_views().last() == before.atlases@[atlas_index as int]@);
            assert(end.atlas == self.atlases@[atlas_index as int]@);
            assert(end.glyphs == self.glyphs());
            assert(end.at == canvas.calls().len());
            assert(pass_result(end) == passed);
        }
        let next = match passed {
            Err(e) => {
                proof {
                    if e != Error::AtlasCapacityExceeded {
                        assert(failed_from(canvas.calls(), calls_before.len() as int, e));
                    }
                }
                return Err(e);
            },
            Ok(next) => next,
        };
        proof {
            assert(end.next == next);
            assert(next < n <==> end.status is Full);
        }
        if next < n {
            let ghost grown_so_far = *self;
            let ghost calls_so_far = canvas.calls();
            let made = canvas.create_target(ATLAS_WIDTH, ATLAS_HEIGHT);
            proof {
                lemma_scope_frame(
                    before.atlas_views().last(),
                    before.glyphs(),
                    self.id,
                    atlas_index,
                    canvas.target(),
                    glyphs@,
                    start as int,
                    calls_so_far,
                    canvas.calls(),
                    calls_before.len() as int,
                );
                assert forall|k: int|
                    calls_before.len() <= k < canvas.calls().len() implies registering_call(
                    (#[trigger] canvas.calls()[k]).call,
                    self.id,
                ) by {
                    if k < calls_so_far.len() {
                        assert(canvas.calls()[k] == calls_so_far[k]);
                    }
                }
            }
            match made {
                Err(e) => {
                    assert(canvas.calls()[canvas.calls().len() - 1].outcome == Outcome::Failed(
                        e,
                    ));
                    return Err(e);
                },
                Ok(texture) => {
                    let atlas = FontAtlas::over(texture, self.glyphs_height);
                    proof {
                        atlas.lemma_reach();
                    }
                    self.atlases.push(atlas);
                    proof {
                        assert(self.atlas_views() =~= grown_so_far.atlas_views().push(atlas@));
                        assert(canvas.calls()[end.at].outcome == Outcome::Texture(
                            data_of(atlas@.texture),
                        ));
                        assert(atlas@ == empty_atlas(
                            data_of(atlas@.texture),
                            before.atlas_views().last().glyph_height,
                        ));
                        assert(round_sound(
                            state,
                            self.id,
                            canvas.target(),
                            glyphs@,
                            canvas.calls(),
                        ));
                        assert forall|k: int| 0 <= k < self.atlases@.len() implies settled(
                            self.glyphs(),
                            k,
                            (#[trigger] self.atlases@[k])@,
                        ) by {
                            if k < grown_so_far.atlases@.len() {
                                assert(self.atlases@[k] == grown_so_far.atlases@[k]);
                                assert(settled(
                                    grown_so_far.glyphs(),
                                    k,
                                    grown_so_far.atlases@[k]@,
                                ));
                            }
                        }
                        assert forall|k: int| 0 <= k < self.atlases@.len() implies (
                        #[trigger] self.atlases@[k])@.glyph_height == self.glyphs_height by {
                            if k < grown_so_far.atlases@.len() {
                                assert(self.atlases@[k] == grown_so_far.atlases@[k]);
                            }
                        }
                        assert forall|k: int| 0 <= k < before.atlas_views().len() implies (
                        #[trigger] self.atlas_views()[k]).texture
                            == before.atlas_views()[k].texture by {
                            assert(self.atlases@[k] == grown_so_far.atlases@[k]);
                            assert(grown_so_far.atlas_views()[k].texture
                                == before.atlas_views()[k].texture);
                        }
                    }
                },
            }
        }
        Ok(next)
    }
}

/// What registering has done can be read off its calls: each entry that was
/// made came with two calls side by side, one for the metrics and one for
/// the drawing; and where registering failed, a call failed with that
/// error, or the last atlas takes no glyph as wide as the backend answered
/// or as high as a row.
pub proof fn lemma_replayed_told(
    earlier: &Font,
    later: &Font,
    text: Seq<char>,
    before: Seq<Issued>,
    after: Seq<Issued>,
    target: Option<TextureId>,
    r: Result<(), Error>,
    rounds: int,
)
    requires
        earlier.wf(),
        replayed(earlier, later, text, before, after, target, r, rounds),
    ensures
        forall|glyph: char| #[trigger]
            later.glyphs().contains_key(glyph) && !earlier.glyphs().contains_key(glyph)
                ==> drawn_for(
                after,
                before.len() as int,
                after.len() as int,
                earlier.font_id(),
                glyph,
                later.glyphs()[glyph],
            ),
        r matches Err(e) ==> {
            ||| failed_from(after, before.len() as int, e)
            ||| e == Error::AtlasCapacityExceeded && outsized(
                after,
                before.len() as int,
                after.len() as int,
                later.atlas_views().last(),
            )
        },
{
    let begun = Registration {
        atlases: earlier.atlas_views(),
        glyphs: earlier.glyphs(),
        next: 0,
        at: before.len() as int,
        result: None,
    };
    lemma_rounds_told(begun, earlier.font_id(), target, text, after, rounds);
    if r is Err {
        let e = r->Err_0;
        if failed_within(after, before.len() as int, after.len() as int, e) {
            let i = choose|i: int|
                before.len() <= i < after.len() && (#[trigger] after[i]).outcome
                    == Outcome::Failed(e);
            assert(failed_from(after, before.len() as int, e));
        }
    }
}

/// There is one success only.
proof fn lemma_done(r: Result<(), Error>)
    ensures
        r is Ok ==> r == Ok::<(), Error>(()),
{
    if r is Ok {
        assert(r->Ok_0 == ());
    }
}

/// A font that has grown out of one that has grown out of another has grown
/// out of that other.
proof fn lemma_grown_on(first: &Font, second: &Font, third: &Font)
    requires
        grown(first, second),
        grown(second, third),
    ensures
        grown(first, third),
{
    assert forall|i: int| 0 <= i < first.atlas_views().len() implies (
    #[trigger] third.atlas_views()[i]).texture == first.atlas_views()[i].texture by {
        assert(second.atlas_views()[i].texture == first.atlas_views()[i].texture);
    }
}

/// A pass stops at a glyph of the text.
pub proof fn lemma_pass_full(
    begun: Pass,
    font: FontId,
    index: usize,
    text: Seq<char>,
    calls: Seq<Issued>,
    n: int,
)
    requires
        begun.status is Going,
    ensures
        pass_after(begun, font, index, text, calls, n).status is Full ==> 0 <= pass_after(
            begun,
            font,
            index,
            text,
            calls,
            n,
        ).next < text.len(),
    decreases n,
{
    if n > 0 {
        lemma_pass_full(begun, font, index, text, calls, n - 1);
    }
}

/// A call that registering makes: it binds a target, asks for the metrics
/// of a glyph of the font or draws one, or creates the texture of an atlas.
pub open spec fn registering_call(call: BackendCall, font: FontId) -> bool {
    ||| glyph_call(call, font)
    ||| call is RenderSetTarget
    ||| call == (BackendCall::TextureCreate { width: ATLAS_WIDTH, height: ATLAS_HEIGHT })
}

/// What registering a text has done.
///
/// The calls from `before` on, the font behind them and the result are what
/// some number of rounds give, round after round as `round_after` says, and
/// no call was made beside those of the rounds.
///
/// So every call was one that registering makes, and entries came for
/// characters of the text only, each with a call for its metrics and a call
/// that drew it where its entry says. Success means that each character of
/// the text has an entry. An error is that of a call that failed, or
/// `AtlasCapacityExceeded` where the last atlas takes no glyph as wide as
/// the backend answered or as high as a row.
///
/// Where each character had an entry already, the font is as before, no
/// call was made and the result is success. Else calls were made, and the
/// last of them binds `target` again, unless it is a call that failed;
/// success means that it did not fail.
pub open spec fn registered<'a>(
    earlier: &'a Font,
    later: &'a Font,
    text: Seq<char>,
    before: Seq<Issued>,
    after: Seq<Issued>,
    target: Option<TextureId>,
    r: Result<(), Error>,
) -> bool {
    &&& extends(before, after)
    &&& exists|rounds: int| #[trigger]
        replayed(earlier, later, text, before, after, target, r, rounds)
    &&& forall|i: int|
        before.len() <= i < after.len() ==> registering_call(
            (#[trigger] after[i]).call,
            earlier.font_id(),
        )
    &&& forall|glyph: char| #[trigger]
        later.glyphs().contains_key(glyph) && !earlier.glyphs().contains_key(glyph)
            ==> text.contains(glyph)
    &&& r is Ok ==> covers(later.glyphs(), text)
    &&& forall|glyph: char| #[trigger]
        later.glyphs().contains_key(glyph) && !earlier.glyphs().contains_key(glyph) ==> drawn_for(
            after,
            before.len() as int,
            after.len() as int,
            earlier.font_id(),
            glyph,
            later.glyphs()[glyph],
        )
    &&& r matches Err(e) ==> {
        ||| failed_from(after, before.len() as int, e)
        ||| e == Error::AtlasCapacityExceeded && outsized(
            after,
            before.len() as int,
            after.len() as int,
            later.atlas_views().last(),
        )
    }
    &&& covers(earlier.glyphs(), text) ==> {
        &&& r is Ok
        &&& after == before
        &&& later.glyphs() == earlier.glyphs()
        &&& later.atlas_views() == earlier.atlas_views()
    }
    &&& !covers(earlier.glyphs(), text) ==> {
        &&& after.len() > before.len()
        &&& r is Ok ==> after.last() == (Issued {
            call: BackendCall::RenderSetTarget { target },
            outcome: Outcome::Done,
        })
        &&& r is Err ==> after.last().outcome is Failed || after.last().call
            == (BackendCall::RenderSetTarget { target })
    }
}

/// The advance of a glyph that has an entry; zero for one that has none.
pub open spec fn advance(glyphs: Map<char, FontGlyphEntry>, glyph: char) -> u32 {
    if glyphs.contains_key(glyph) {
        glyphs[glyph].metrics.advance
    } else {
        0
    }
}

/// The advance of each character of the text.
pub open spec fn advances(glyphs: Map<char, FontGlyphEntry>, text: Seq<char>) -> Seq<u32> {
    Seq::new(text.len(), |i: int| advance(glyphs, text[i]))
}

/// The sum of the advances of the first `count` characters of the text.
pub open spec fn advance_sum(glyphs: Map<char, FontGlyphEntry>, text: Seq<char>, count: int) -> int
    decreases count,
{
    if count <= 0 {
        0
    } else {
        advance_sum(glyphs, text, count - 1) + advance(glyphs, text[count - 1])
    }
}

/// The copy that draws character `j` of a line of text whose first glyph
/// has its top left corner at `position`: from the glyph's rectangle in its
/// atlas to a rectangle as wide as the glyph's advance and as high as the
/// font, as far to the right of `position` as the advances of the glyphs
/// before it add up to, in `color`.
pub open spec fn glyph_copy(
    font: &Font,
    text: Seq<char>,
    position: Point,
    color: Color,
    j: int,
) -> TextureCopy {
    let entry = font.glyphs()[text[j]];
    TextureCopy {
        texture: font.atlas_views()[entry.atlas_index as int].texture.id,
        options: CopyTextureOptions {
            src: Some(entry.rect),
            dest: Some(
                Rect {
                    x: saturated(position.x + advance_sum(font.glyphs(), text, j)),
                    y: position.y,
                    w: entry.metrics.advance,
                    h: font.row_height(),
                },
            ),
            center: None,
            angle_bits: 0,
            flip_h: false,
            flip_v: false,
            color_mod: Some(color),
        },
    }
}

/// The copies that draw a line of text, one for each character, left to
/// right.
pub open spec fn line_copies(font: &Font, text: Seq<char>, position: Point, color: Color) -> Seq<
    TextureCopy,
> {
    Seq::new(text.len(), |j: int| glyph_copy(font, text, position, color, j))
}

impl Font {
    /// The identity of the font at the backend.
    pub fn id(&self) -> (id: FontId)
        ensures
            id == self.font_id(),
    {
        self.id
    }

    /// The size in which the font was loaded.
    pub fn scale(&self) -> (scale: u8)
        ensures
            scale == self.loaded_scale(),
    {
        self.scale
    }

    /// The height of every glyph of the font.
    pub fn glyphs_height(&self) -> (height: u32)
        ensures
            height == self.row_height(),
    {
        self.glyphs_height
    }

    /// How many atlases the font has.
    pub fn atlas_count(&self) -> (count: usize)
        ensures
            count == self.atlas_views().len(),
    {
        self.atlases.len()
    }

    /// The texture of atlas `index`, if the font has that atlas.
    pub fn atlas(&self, index: usize) -> (r: Option<TextureId>)
        ensures
            r == (if index < self.atlas_views().len() {
                Some(self.atlas_views()[index as int].texture.id)
            } else {
                None
            }),
    {
        if index < self.atlases.len() {
            Some(self.atlases[index].texture().id())
        } else {
            None
        }
    }

    /// The entry of a glyph, if it has one.
    pub fn glyph(&self, glyph: char) -> (r: Option<FontGlyphEntry>)
        ensures
            r == (if self.glyphs().contains_key(glyph) {
                Some(self.glyphs()[glyph])
            } else {
                None
            }),
    {
        table_get(&self.entries, glyph)
    }

    /// Appends to `plan` the copies that draw the line.
    fn plan_line(
        &self,
        position: Point,
        glyphs: &Vec<char>,
        color: Color,
        plan: &mut Vec<TextureCopy>,
    )
        requires
            self.wf(),
            covers(self.glyphs(), glyphs@),
        ensures
            final(plan)@ == old(plan)@ + line_copies(self, glyphs@, position, color),
    {
        let mut pen: i64 = position.x as i64;
        let mut j: usize = 0;
        while j < glyphs.len()
            invariant
                self.wf(),
                covers(self.glyphs(), glyphs@),
                j <= glyphs@.len(),
                0 <= advance_sum(self.glyphs(), glyphs@, j as int),
                pen == saturated(position.x + advance_sum(self.glyphs(), glyphs@, j as int)),
                plan@.len() == old(plan)@.len() + j,
                forall|k: int| 0 <= k < old(plan)@.len() ==> plan@[k] == old(plan)@[k],
                forall|k: int|
                    0 <= k < j ==> #[trigger] plan@[old(plan)@.len() + k] == glyph_copy(
                        self,
                        glyphs@,
                        position,
                        color,
                        k,
                    ),
            decreases glyphs@.len() - j,
        {
            let glyph = glyph_at(glyphs, j);
            assert(self.glyphs().contains_key(glyphs@[j as int]));
            match table_get(&self.entries, glyph) {
                Some(entry) => {
                    plan.push(
                        TextureCopy {
                            texture: self.atlases[entry.atlas_index].texture().id(),
                            options: CopyTextureOptions {
                                src: Some(entry.rect),
                                dest: Some(
                                    Rect::new(
                                        saturate(pen),
                                        position.y,
                                        entry.metrics.advance,
                                        self.glyphs_height,
                                    ),
                                ),
                                center: None,
                                angle_bits: 0,
                                flip_h: false,
                                flip_v: false,
                                color_mod: Some(color),
                            },
                        },
                    );
                    pen = saturate(pen + entry.metrics.advance as i64) as i64;
                },
                None => {},
            }
            j += 1;
        }
        proof {
            let base = old(plan)@.len() as int;
            let copies = line_copies(self, glyphs@, position, color);
            assert forall|at: int| base <= at < plan@.len() implies plan@[at] == copies[at
                - base] by {
                let k = at - base;
                assert(plan@[base + k] == glyph_copy(self, glyphs@, position, color, k));
            }
            assert(plan@ =~= old(plan)@ + copies);
        }
    }

    /// Draws a line of text, its first glyph with its top left corner at
    /// `position`: one copy for each character, left to right, up to the
    /// first that fails.
    fn draw_text_line<B: Backend>(
        &self,
        position: Point,
        text: &str,
        canvas: &mut Canvas<B>,
        color: Color,
    ) -> (r: Result<(), Error>)
        requires
            self.wf(),
            covers(self.glyphs(), text@),
        ensures
            final(canvas).target() == old(canvas).target(),
            copied(
                old(canvas).calls(),
                final(canvas).calls(),
                line_copies(self, text@, position, color),
                r,
            ),
    {
        let glyphs = characters(text);
        let mut plan: Vec<TextureCopy> = Vec::new();
        self.plan_line(position, &glyphs, color, &mut plan);
        assert(plan@ =~= line_copies(self, text@, position, color));
        canvas.copy_all(&plan)
    }
}

/// The rectangle that padding leaves of `rect`. Sides that padding uses up
/// leave a width or height of zero.
pub open spec fn inner_rect(rect: Rect, padding: TextPadding) -> Rect {
    Rect {
        x: saturated(rect.x + padding.left),
        y: saturated(rect.y + padding.top),
        w: minus(minus(rect.w, padding.left as u32), padding.right as u32),
        h: minus(minus(rect.h, padding.top as u32), padding.bottom as u32),
    }
}

/// The height of `line_count` lines, at most `i32::MAX`.
pub open spec fn block_height(line_count: int, row_height: u32) -> int {
    saturated(line_count * row_height) as int
}

/// How far below the top of `inner` the first line begins: not at all, by
/// half the height of the lines, or by their height.
pub open spec fn block_offset(
    cross_align: TextCrossAlign,
    line_count: int,
    row_height: u32,
) -> int {
    match cross_align {
        TextCrossAlign::Start => 0,
        TextCrossAlign::Center => half(block_height(line_count, row_height)),
        TextCrossAlign::End => block_height(line_count, row_height),
    }
}

/// How far right of the left side of `inner` a line of `width` begins: not
/// at all, by what the line leaves of the width of `inner`, or by half of
/// that.
pub open spec fn line_offset(inner: Rect, align: TextAlign, width: int) -> int {
    match align {
        TextAlign::Right => inner.w - width,
        TextAlign::Center => half(inner.w - width),
        _ => 0,
    }
}

/// The top left corner of line `k` of `line_count` lines, of `width`.
pub open spec fn line_origin(
    inner: Rect,
    align: TextAlign,
    cross_align: TextCrossAlign,
    line_count: int,
    row_height: u32,
    k: int,
    width: int,
) -> Point {
    Point {
        x: saturated(inner.x + line_offset(inner, align, width)),
        y: saturated(inner.y + block_offset(cross_align, line_count, row_height) + k * row_height),
    }
}

/// The copies that draw the first `upto` of the lines, line after line.
pub open spec fn block_copies(
    font: &Font,
    text: Seq<char>,
    lines: Seq<Line>,
    color: Color,
    inner: Rect,
    align: TextAlign,
    cross_align: TextCrossAlign,
    upto: int,
) -> Seq<TextureCopy>
    decreases upto,
{
    if upto <= 0 {
        Seq::empty()
    } else {
        block_copies(font, text, lines, color, inner, align, cross_align, upto - 1) + line_copies(
            font,
            line_text(text, lines[upto - 1]),
            line_origin(
                inner,
                align,
                cross_align,
                lines.len() as int,
                font.row_height(),
                upto - 1,
                reported_width(lines[upto - 1].width),
            ),
            color,
        )
    }
}

/// The copies that draw a text inside a rectangle: the text is broken into
/// lines no wider than what padding leaves of the rectangle, each character
/// as wide as its advance, and the lines are drawn one below the other.
pub open spec fn bounded_copies(
    font: &Font,
    text: Seq<char>,
    color: Color,
    rect: Rect,
    align: TextAlign,
    cross_align: TextCrossAlign,
    padding: TextPadding,
) -> Seq<TextureCopy> {
    let inner = inner_rect(rect, padding);
    let lines = crate::text::lines(text, advances(font.glyphs(), text), inner.w as int);
    block_copies(font, text, lines, color, inner, align, cross_align, lines.len() as int)
}

/// A text was registered and then drawn with `copies`: the calls up to
/// `mid` registered it; where that failed, nothing followed and the error is
/// the result; else the copies followed.
pub open spec fn drawn<'a>(
    earlier: &'a Font,
    later: &'a Font,
    text: Seq<char>,
    copies: Seq<TextureCopy>,
    before: Seq<Issued>,
    mid: Seq<Issued>,
    after: Seq<Issued>,
    target: Option<TextureId>,
    r: Result<(), Error>,
) -> bool {
    ||| {
        &&& registered(earlier, later, text, before, mid, target, Ok(()))
        &&& copied(mid, after, copies, r)
    }
    ||| {
        &&& r is Err
        &&& after == mid
        &&& registered(earlier, later, text, before, mid, target, r)
    }
}

/// Line `at` was found as the layout has it: within the text, with its
/// text and with the width that is reported for it.
pub open spec fn gathered(
    found: Seq<(&str, u32)>,
    all: Seq<Line>,
    text: Seq<char>,
    at: int,
) -> bool {
    &&& 0 <= all[at].start <= all[at].end <= text.len()
    &&& found[at].0@ == line_text(text, all[at])
    &&& found[at].1 == reported_width(all[at].width)
}

/// The inner rectangle.
fn inner_rect_of(rect: Rect, padding: TextPadding) -> (inner: Rect)
    ensures
        inner == inner_rect(rect, padding),
{
    Rect::new(
        saturate(rect.x as i64 + padding.left as i64),
        saturate(rect.y as i64 + padding.top as i64),
        minus_of(minus_of(rect.w, padding.left as u32), padding.right as u32),
        minus_of(minus_of(rect.h, padding.top as u32), padding.bottom as u32),
    )
}

/// The product of a count and a height.
fn rows(count: usize, row_height: u32) -> (r: i128)
    ensures
        r == count * row_height,
        0 <= r <= 0xffff_ffff_ffff_ffff * 0xffff_ffff,
{
    assert(0 <= (count as int) * (row_height as int) <= 0xffff_ffff_ffff_ffff * 0xffff_ffff)
        by (nonlinear_arith)
        requires
            0 <= count <= 0xffff_ffff_ffff_ffff,
            0 <= row_height <= 0xffff_ffff,
    ;
    (count as i128) * (row_height as i128)
}

/// The top left corner of line `k`.
fn line_origin_of(
    inner: Rect,
    align: TextAlign,
    cross_align: TextCrossAlign,
    line_count: usize,
    row_height: u32,
    k: usize,
    width: u32,
) -> (origin: Point)
    ensures
        origin == line_origin(
            inner,
            align,
            cross_align,
            line_count as int,
            row_height,
            k as int,
            width as int,
        ),
{
    let room = inner.w as i64 - width as i64;
    let right = match align {
        TextAlign::Right => room,
        TextAlign::Center => half_of(room),
        _ => 0,
    };
    let block = saturate_wide(rows(line_count, row_height)) as i64;
    let down = match cross_align {
        TextCrossAlign::Start => 0,
        TextCrossAlign::Center => half_of(block),
        TextCrossAlign::End => block,
    };
    Point::new(
        saturate(inner.x as i64 + right),
        saturate_wide(inner.y as i128 + down as i128 + rows(k, row_height)),
    )
}

/// The advance of a glyph that has an entry; zero for one that has none.
fn advance_of(entries: &GlyphTable, glyph: char) -> (r: u32)
    ensures
        r == advance(glyph_entries(*entries), glyph),
{
    match table_get(entries, glyph) {
        Some(entry) => entry.metrics.advance,
        None => 0,
    }
}

impl Font {
    /// The copies that draw a text inside a rectangle.
    pub fn plan_bounded(
        &self,
        text: &str,
        color: Color,
        rect: Rect,
        align: TextAlign,
        cross_align: TextCrossAlign,
        padding: TextPadding,
    ) -> (plan: Vec<TextureCopy>)
        requires
            self.wf(),
            covers(self.glyphs(), text@),
        ensures
            plan@ == bounded_copies(self, text@, color, rect, align, cross_align, padding),
    {
        let inner = inner_rect_of(rect, padding);
        let entries = &self.entries;
        let measure = |glyph: char| -> (width: u32)
            ensures
                width == advance(glyph_entries(*entries), glyph),
            { advance_of(entries, glyph) };
        let mut iter = text.bounded_lines(inner.w, measure);
        let ghost all = crate::text::lines(
            text@,
            advances(self.glyphs(), text@),
            inner.w as int,
        );
        assert(iter.widths() =~= advances(self.glyphs(), text@));
        let mut found: Vec<(&str, u32)> = Vec::new();
        let mut more = true;
        while more
            invariant
                iter.text() == text@,
                found@.len() <= all.len(),
                more ==> iter.remaining() == all.skip(found@.len() as int),
                !more ==> found@.len() == all.len(),
                forall|at: int|
                    0 <= at < found@.len() ==> #[trigger] gathered(found@, all, text@, at),
            decreases
                    all.len() - found@.len(),
                    (if more {
                        1int
                    } else {
                        0int
                    }),
        {
            match iter.next() {
                Some(line) => {
                    assert(all.skip(found@.len() as int)[0] == all[found@.len() as int]);
                    assert(all.skip(found@.len() as int).drop_first() =~= all.skip(
                        found@.len() as int + 1,
                    ));
                    let ghost earlier = found@;
                    found.push(line);
                    assert forall|at: int| 0 <= at < found@.len() implies #[trigger] gathered(
                        found@,
                        all,
                        text@,
                        at,
                    ) by {
                        if at < earlier.len() {
                            assert(gathered(earlier, all, text@, at));
                        }
                    }
                },
                None => {
                    more = false;
                },
            }
        }
        let mut plan: Vec<TextureCopy> = Vec::new();
        let mut k: usize = 0;
        while k < found.len()
            invariant
                self.wf(),
                covers(self.glyphs(), text@),
                k <= found@.len(),
                found@.len() == all.len(),
                forall|at: int|
                    0 <= at < found@.len() ==> #[trigger] gathered(found@, all, text@, at),
                plan@ == block_copies(
                    self,
                    text@,
                    all,
                    color,
                    inner,
                    align,
                    cross_align,
                    k as int,
                ),
            decreases found@.len() - k,
        {
            let (line, width) = found[k];
            let glyphs = characters(line);
            let origin = line_origin_of(
                inner,
                align,
                cross_align,
                found.len(),
                self.glyphs_height,
                k,
                width,
            );
            proof {
                assert(gathered(found@, all, text@, k as int));
                assert forall|j: int| 0 <= j < glyphs@.len() implies self.glyphs().contains_key(
                    #[trigger] glyphs@[j],
                ) by {
                    assert(glyphs@[j] == text@[all[k as int].start + j]);
                }
            }
            self.plan_line(origin, &glyphs, color, &mut plan);
            k += 1;
        }
        plan
    }

    /// Registers the text and draws it as one line, its first glyph with its
    /// top left corner at `position`.
    pub fn draw_text<B: Backend>(
        &mut self,
        canvas: &mut Canvas<B>,
        text: &str,
        position: Point,
        color: Color,
    ) -> (r: Result<(), Error>)
        requires
            old(self).wf(),
        ensures
            final(self).wf(),
            grown(old(self), final(self)),
            final(canvas).target() == old(canvas).target(),
            exists|mid: Seq<Issued>| #[trigger]
                drawn(
                    old(self),
                    final(self),
                    text@,
                    line_copies(final(self), text@, position, color),
                    old(canvas).calls(),
                    mid,
                    final(canvas).calls(),
                    old(canvas).target(),
                    r,
                ),
    {
        let registration = self.register_glyphs(text, canvas);
        proof {
            lemma_done(registration);
        }
        match registration {
            Err(e) => {
                assert(drawn(
                    old(self),
                    self,
                    text@,
                    line_copies(self, text@, position, color),
                    old(canvas).calls(),
                    canvas.calls(),
                    canvas.calls(),
                    old(canvas).target(),
                    Err(e),
                ));
                Err(e)
            },
            Ok(()) => {
                let ghost mid = canvas.calls();
                let r = self.draw_text_line(position, text, canvas, color);
                assert(drawn(
                    old(self),
                    self,
                    text@,
                    line_copies(self, text@, position, color),
                    old(canvas).calls(),
                    mid,
                    canvas.calls(),
                    old(canvas).target(),
                    r,
                ));
                r
            },
        }
    }

    /// Registers the text and draws it inside `rect`, broken into lines.
    ///
    /// Justified text is not drawn: it fails with `InvalidInput`, without a
    /// call and with the font as it was.
    pub fn draw_text_bounded<B: Backend>(
        &mut self,
        canvas: &mut Canvas<B>,
        text: &str,
        color: Color,
        rect: Rect,
        align: TextAlign,
        cross_align: TextCrossAlign,
        padding: TextPadding,
    ) -> (r: Result<(), Error>)
        requires
            old(self).wf(),
        ensures
            final(self).wf(),
            grown(old(self), final(self)),
            final(canvas).target() == old(canvas).target(),
            align is Justified ==> {
                &&& r == Err::<(), Error>(Error::InvalidInput)
                &&& final(canvas).calls() == old(canvas).calls()
                &&& final(self).glyphs() == old(self).glyphs()
                &&& final(self).atlas_views() == old(self).atlas_views()
            },
            !(align is Justified) ==> exists|mid: Seq<Issued>| #[trigger]
                drawn(
                    old(self),
                    final(self),
                    text@,
                    bounded_copies(final(self), text@, color, rect, align, cross_align, padding),
                    old(canvas).calls(),
                    mid,
                    final(canvas).calls(),
                    old(canvas).target(),
                    r,
                ),
    {
        match align {
            TextAlign::Justified => {
                return Err(Error::InvalidInput);
            },
            _ => {},
        }
        let registration = self.register_glyphs(text, canvas);
        proof {
            lemma_done(registration);
        }
        match registration {
            Err(e) => {
                assert(drawn(
                    old(self),
                    self,
                    text@,
                    bounded_copies(self, text@, color, rect, align, cross_align, padding),
                    old(canvas).calls(),
                    canvas.calls(),
                    canvas.calls(),
                    old(canvas).target(),
                    Err(e),
                ));
                Err(e)
            },
            Ok(()) => {
                let ghost mid = canvas.calls();
                let plan = self.plan_bounded(text, color, rect, align, cross_align, padding);
                let r = canvas.copy_all(&plan);
                assert(drawn(
                    old(self),
                    self,
                    text@,
                    bounded_copies(self, text@, color, rect, align, cross_align, padding),
                    old(canvas).calls(),
                    mid,
                    canvas.calls(),
                    old(canvas).target(),
                    r,
                ));
                r
            },
        }
    }
}

/// The width of a text was asked for: the text was registered, with
/// `registered` as the result of that, and on success the width is the sum
/// of the advances of its characters, or `u32::MAX` where a `u32` cannot
/// hold the sum.
pub open spec fn measured<'a>(
    earlier: &'a Font,
    later: &'a Font,
    text: Seq<char>,
    before: Seq<Issued>,
    after: Seq<Issued>,
    target: Option<TextureId>,
    r: Result<u32, Error>,
) -> bool {
    match r {
        Ok(width) => {
            &&& registered(earlier, later, text, before, after, target, Ok(()))
            &&& width == reported_width(advance_sum(later.glyphs(), text, text.len() as int))
        },
        Err(e) => registered(earlier, later, text, before, after, target, Err(e)),
    }
}

impl Font {
    /// Registers the text and returns how wide it is as one line.
    pub fn line_width<B: Backend>(&mut self, text: &str, canvas: &mut Canvas<B>) -> (r: Result<
        u32,
        Error,
    >)
        requires
            old(self).wf(),
        ensures
            final(self).wf(),
            grown(old(self), final(self)),
            final(canvas).target() == old(canvas).target(),
            measured(
                old(self),
                final(self),
                text@,
                old(canvas).calls(),
                final(canvas).calls(),
                old(canvas).target(),
                r,
            ),
    {
        let registration = self.register_glyphs(text, canvas);
        proof {
            lemma_done(registration);
        }
        match registration {
            Err(e) => Err(e),
            Ok(()) => {
                let glyphs = characters(text);
                let mut sum: u64 = 0;
                let mut j: usize = 0;
                while j < glyphs.len()
                    invariant
                        glyphs@ == text@,
                        j <= glyphs@.len(),
                        0 <= advance_sum(self.glyphs(), text@, j as int),
                        sum == reported_width(advance_sum(self.glyphs(), text@, j as int)),
                    decreases glyphs@.len() - j,
                {
                    let next = sum + advance_of(&self.entries, glyph_at(&glyphs, j)) as u64;
                    sum = if next > u32::MAX as u64 {
                        u32::MAX as u64
                    } else {
                        next
                    };
                    j += 1;
                }
                Ok(sum as u32)
            },
        }
    }

    /// Gives the font and the textures of its atlases back to the backend:
    /// one call for each atlas, newest first, and one for the font. What the
    /// calls answer is not looked at.
    pub fn release<B: Backend>(self, backend: &mut Traced<B>)
        ensures
            released(
                old(backend).calls(),
                final(backend).calls(),
                self.atlas_views(),
                self.font_id(),
            ),
    {
        let ghost views = self.atlas_views();
        let ghost before = backend.calls();
        let Font { id, scale: _, glyphs_height: _, atlases, entries: _ } = self;
        let mut atlases = atlases;
        let ghost count = atlases@.len() as int;
        let ghost mut released: int = 0;
        while atlases.len() > 0
            invariant
                released + atlases@.len() == count,
                count == views.len(),
                forall|i: int| 0 <= i < atlases@.len() ==> (#[trigger] atlases@[i])@ == views[i],
                extends(before, backend.calls()),
                backend.calls().len() == before.len() + released,
                forall|i: int|
                    0 <= i < released ==> (#[trigger] backend.calls()[before.len() + i]).call
                        == (BackendCall::TextureDestroy { texture: views[count - 1 - i].texture.id }),
            decreases atlases@.len(),
        {
            let ghost so_far = backend.calls();
            match atlases.pop() {
                Some(atlas) => {
                    let _ = atlas.into_texture().release(backend);
                    proof {
                        assert forall|i: int| 0 <= i < released + 1 implies (
                        #[trigger] backend.calls()[before.len() + i]).call
                            == (BackendCall::TextureDestroy {
                            texture: views[count - 1 - i].texture.id,
                        }) by {
                            if i < released {
                                assert(backend.calls()[before.len() + i] == so_far[before.len()
                                    + i]);
                            }
                        }
                    }
                    proof {
                        released = released + 1;
                    }
                },
                None => {},
            }
        }
        let ghost so_far = backend.calls();
        let _ = backend.font_destroy(id);
        proof {
            assert forall|i: int| 0 <= i < views.len() implies (#[trigger] backend.calls()[before.len()
                + i]).call == (BackendCall::TextureDestroy {
                texture: views[count - 1 - i].texture.id,
            }) by {
                assert(backend.calls()[before.len() + i] == so_far[before.len() + i]);
            }
        }
    }

    /// Registering a text a second time changes nothing and costs no call:
    /// where a first registration of the text succeeded, a second one that
    /// begins where the first ended succeeds as well, and leaves the glyphs,
    /// the atlases and the calls made as they were.
    pub proof fn lemma_registered_again(
        first: &Font,
        second: &Font,
        third: &Font,
        text: Seq<char>,
        before: Seq<Issued>,
        between: Seq<Issued>,
        after: Seq<Issued>,
        target: Option<TextureId>,
        r: Result<(), Error>,
    )
        requires
            registered(first, second, text, before, between, target, Ok(())),
            registered(second, third, text, between, after, target, r),
        ensures
            r is Ok,
            after == between,
            third.glyphs() == second.glyphs(),
            third.atlas_views() == second.atlas_views(),
    {
    }

    /// A glyph of the font lies in an atlas that the font has, inside the
    /// part of the atlas's texture that the atlas uses: its rectangle begins
    /// at or behind the top left corner and ends at or before the right and
    /// the lower side. It is as wide as the glyph's advance and as high as
    /// the font.
    pub proof fn lemma_glyph_inside_atlas(&self, glyph: char)
        requires
            self.wf(),
            self.glyphs().contains_key(glyph),
        ensures
            self.glyphs()[glyph].atlas_index < self.atlas_views().len(),
            ({
                let entry = self.glyphs()[glyph];
                let atlas = self.atlas_views()[entry.atlas_index as int];
                &&& 0 <= entry.rect.x
                &&& 0 <= entry.rect.y
                &&& entry.rect.x + entry.rect.w <= atlas.width <= atlas.texture.width
                &&& entry.rect.y + entry.rect.h <= atlas.height <= atlas.texture.height
                &&& entry.rect.w == entry.metrics.advance
                &&& entry.rect.h == self.row_height()
            }),
    {
        let entry = self.glyphs()[glyph];
        self.atlases@[entry.atlas_index as int].lemma_reach();
        assert(settled(
            self.glyphs(),
            entry.atlas_index as int,
            self.atlases@[entry.atlas_index as int]@,
        ));
    }

    /// Two glyphs of one atlas share no pixel.
    pub proof fn lemma_glyphs_apart(&self, a: char, b: char)
        requires
            self.wf(),
            self.glyphs().contains_key(a),
            self.glyphs().contains_key(b),
            a != b,
            self.glyphs()[a].atlas_index == self.glyphs()[b].atlas_index,
        ensures
            disjoint(self.glyphs()[a].rect, self.glyphs()[b].rect),
    {
    }
}

} // verus!
