//! Fonts, glyph images and the renderer that caches raw glyph masks and
//! composites them against the caller's colors.
use vstd::prelude::*;
use crate::compositor::{composite_wide, composited};
use crate::glyph_cache::{
    FontId, FontSize, GlyphId, GlyphCacheKey, GlyphCache, GLYPH_CACHE_SIZE, holds_key, key_index,
    promoted, put_entries, keys_unique, lemma_promoted_keeps_unique, lemma_put_keeps_unique,
};

verus! {

/// The pixels of a glyph image with its placement, as values.
pub ghost struct ImageView {
    pub data: Seq<u8>,
    pub width: u32,
    pub height: u32,
    pub left: i32,
    pub top: i32,
}

/// A tightly packed, row-major image of four bytes per pixel, with the
/// horizontal and vertical offsets that place it against a text baseline.
pub struct ImageBuffer {
    pub data: Vec<u8>,
    pub width: u32,
    pub height: u32,
    pub left: i32,
    pub top: i32,
}

impl View for ImageBuffer {
    type V = ImageView;

    open spec fn view(&self) -> ImageView {
        ImageView {
            data: self.data@,
            width: self.width,
            height: self.height,
            left: self.left,
            top: self.top,
        }
    }
}

impl Clone for ImageBuffer {
    fn clone(&self) -> (r: Self)
        ensures
            r@ == self@,
    {
        let data = self.data.clone();
        assert(data@ =~= self.data@);
        ImageBuffer { data, width: self.width, height: self.height, left: self.left, top: self.top }
    }
}

/// A plain outline's mask with each pixel's coverage byte (channel 1) copied
/// into its alpha byte (channel 3).
pub open spec fn with_coverage_alpha(data: Seq<u8>) -> Seq<u8> {
    Seq::new(data.len(), |i: int| if i % 4 == 3 { data[i - 2] } else { data[i] })
}

impl ImageBuffer {
    /// Copies each pixel's coverage byte into its alpha byte, as a mask
    /// rasterized from a plain (not color) outline needs.
    pub fn coverage_to_alpha(&mut self)
        ensures
            final(self)@ == (ImageView { data: with_coverage_alpha(old(self).data@), ..old(self)@ }),
    {
        let ghost raw = self.data@;
        let len = self.data.len();
        let mut p: usize = 0;
        while len - p >= 4
            invariant
                len == raw.len(),
                self.data@.len() == len,
                p % 4 == 0,
                p <= len,
                self.width == old(self).width && self.height == old(self).height,
                self.left == old(self).left && self.top == old(self).top,
                forall|j: int| 0 <= j < len ==> (#[trigger] self.data@[j]) == if j % 4 == 3 && j < p { raw[j - 2] } else { raw[j] },
            decreases len - p,
        {
            let coverage = self.data[p + 1];
            self.data.set(p + 3, coverage);
            p = p + 4;
        }
        assert(self.data@ =~= with_coverage_alpha(raw));
    }

    /// An image of no pixels: what a glyph with nothing to draw yields.
    pub fn empty() -> (r: ImageBuffer)
        ensures
            r@ == empty_image(),
    {
        ImageBuffer { data: Vec::new(), width: 0, height: 0, left: 0, top: 0 }
    }
}

/// The image of no pixels, placed at the origin.
pub open spec fn empty_image() -> ImageView {
    ImageView { data: Seq::empty(), width: 0, height: 0, left: 0, top: 0 }
}

/// Whether an image covers no pixel.
pub open spec fn is_blank(mask: ImageView) -> bool {
    mask.width == 0 || mask.height == 0
}

/// The final image of a raw mask against a text color and a background
/// color: the same placement, every byte composited. A mask that covers no
/// pixel is handed back as it is, with no compositing.
pub open spec fn rendered(mask: ImageView, textcolor: [u8; 4], destcolor: [u8; 4]) -> ImageView {
    if is_blank(mask) {
        mask
    } else {
        ImageView { data: composited(mask.data, textcolor, destcolor), ..mask }
    }
}

/// What the rasterizer's outcome stores: its mask, or the empty image where
/// no source in the font had anything to draw.
pub open spec fn raw_mask(raster: Option<ImageBuffer>) -> ImageView {
    match raster {
        Some(mask) => mask@,
        None => empty_image(),
    }
}

/// The cache key of a glyph of a font at a size.
pub open spec fn glyph_key(font: &FontData, size: FontSize, glyph: GlyphId) -> GlyphCacheKey {
    (font.font_id(), size, glyph)
}

#[verifier::external_type_specification]
#[verifier::external_body]
pub struct ExCacheKey(swash::CacheKey);

/// Where the face `index` of a font file starts, if the file holds a font
/// and such a face.
pub uninterp spec fn face_offset(data: Seq<u8>, index: usize) -> Option<u32>;

/// Relies on `swash::FontRef::from_index`: validates the file and finds the
/// face's table directory, and hands out a fresh cache key for the face.
#[verifier::external_body]
fn locate_face(data: &Vec<u8>, index: usize) -> (r: Option<(u32, swash::CacheKey)>)
    ensures
        match r {
            Some(found) => face_offset(data@, index) == Some(found.0),
            None => face_offset(data@, index) is None,
        },
{
    swash::FontRef::from_index(data, index).map(|font| (font.offset, font.key))
}

/// Relies on `swash::CacheKey::value`: the number behind a cache key.
pub assume_specification[ swash::CacheKey::value ](key: swash::CacheKey) -> u64;

/// A loaded font file, with the offset of one face and the identity that was
/// made for it once, when the face was found.
pub struct FontData {
    data: Vec<u8>,
    offset: u32,
    key: swash::CacheKey,
    id: FontId,
}

impl FontData {
    /// The bytes of the font file.
    pub closed spec fn bytes(&self) -> Seq<u8> {
        self.data@
    }

    /// The offset of the face's table directory.
    pub closed spec fn table_offset(&self) -> u32 {
        self.offset
    }

    /// The identity of the face.
    pub closed spec fn font_id(&self) -> FontId {
        self.id
    }

    /// Takes a font file's bytes and the index of a face in it; `None` where
    /// the bytes hold no font or no face of that index.
    pub fn from_bytes(data: Vec<u8>, index: usize) -> (r: Option<FontData>)
        ensures
            r is Some <==> face_offset(data@, index) is Some,
            r matches Some(font) ==> font.bytes() == data@ && Some(font.table_offset()) == face_offset(data@, index),
    {
        match locate_face(&data, index) {
            Some((offset, key)) => {
                let id = key.value();
                Some(FontData { data, offset, key, id })
            },
            None => None,
        }
    }

    /// The bytes of the font file.
    pub fn data(&self) -> (r: &[u8])
        ensures
            r@ == self.bytes(),
    {
        self.data.as_slice()
    }

    /// The offset of the face's table directory.
    pub fn offset(&self) -> (r: u32)
        ensures
            r == self.table_offset(),
    {
        self.offset
    }

    /// The identity of the face, as the glyph cache keys it.
    pub fn id(&self) -> (r: FontId)
        ensures
            r == self.font_id(),
    {
        self.id
    }

    /// The identity of the face, as the font library's caches key it.
    pub fn key(&self) -> swash::CacheKey {
        self.key
    }
}

/// Keeps the raw masks of rendered glyphs and composites them on demand.
///
/// Rasterizing is the caller's work: `render_glyph` answers from the cache,
/// and where it has no mask the caller rasterizes the glyph and hands the
/// outcome to `render_rasterized`, which stores and composites it.
pub struct FontManager {
    glyph_cache: GlyphCache,
}

impl FontManager {
    /// The cache of raw masks.
    pub closed spec fn cache(&self) -> GlyphCache {
        self.glyph_cache
    }

    pub open spec fn wf(&self) -> bool {
        self.cache().wf() && self.cache().capacity() >= 1
    }

    /// A renderer with an empty cache of `GLYPH_CACHE_SIZE` masks.
    pub fn default() -> (r: FontManager)
        ensures
            r.wf(),
            r.cache().entries().len() == 0,
            r.cache().capacity() == GLYPH_CACHE_SIZE,
    {
        FontManager { glyph_cache: GlyphCache::new(GLYPH_CACHE_SIZE) }
    }

    /// The final image of the glyph where its raw mask is cached (which
    /// makes it the most recently used); `None` where the glyph still has to
    /// be rasterized.
    pub fn render_glyph(
        &mut self,
        font: &FontData,
        size: FontSize,
        glyph: GlyphId,
        textcolor: [u8; 4],
        destcolor: [u8; 4],
    ) -> (r: Option<ImageBuffer>)
        requires
            old(self).wf(),
        ensures
            final(self).wf(),
            final(self).cache().capacity() == old(self).cache().capacity(),
            final(self).cache().entries() == promoted(old(self).cache().entries(), glyph_key(font, size, glyph)),
            match r {
                Some(img) => {
                    let entries = old(self).cache().entries();
                    let key = glyph_key(font, size, glyph);
                    &&& holds_key(entries, key)
                    &&& img@ == rendered(entries[key_index(entries, key)].1, textcolor, destcolor)
                },
                None => !holds_key(old(self).cache().entries(), glyph_key(font, size, glyph)),
            },
    {
        let key: GlyphCacheKey = (font.id, size, glyph);
        match self.glyph_cache.lookup(&key) {
            Some(mask) => Some(Self::finish(mask, textcolor, destcolor)),
            None => None,
        }
    }

    /// Stores the outcome of rasterizing a glyph as its raw mask (an empty
    /// image where the rasterizer found nothing to draw) and returns the
    /// glyph's final image.
    pub fn render_rasterized(
        &mut self,
        font: &FontData,
        size: FontSize,
        glyph: GlyphId,
        raster: Option<ImageBuffer>,
        textcolor: [u8; 4],
        destcolor: [u8; 4],
    ) -> (r: ImageBuffer)
        requires
            old(self).wf(),
        ensures
            final(self).wf(),
            final(self).cache().capacity() == old(self).cache().capacity(),
            final(self).cache().entries() == put_entries(
                old(self).cache().entries(),
                old(self).cache().capacity(),
                glyph_key(font, size, glyph),
                raw_mask(raster),
            ),
            r@ == rendered(raw_mask(raster), textcolor, destcolor),
    {
        let key: GlyphCacheKey = (font.id, size, glyph);
        let mask = match raster {
            Some(mask) => mask,
            None => ImageBuffer::empty(),
        };
        let stored = mask.clone();
        self.glyph_cache.insert(key, stored);
        Self::finish(mask, textcolor, destcolor)
    }

    /// The final image of a raw mask; a mask that covers no pixel is not
    /// composited.
    fn finish(mask: ImageBuffer, textcolor: [u8; 4], destcolor: [u8; 4]) -> (r: ImageBuffer)
        ensures
            r@ == rendered(mask@, textcolor, destcolor),
    {
        let mut img = mask;
        if img.width != 0 && img.height != 0 {
            Self::apply_mask(&mut img, textcolor, destcolor);
        }
        img
    }

    /// Composites the image's bytes in place.
    fn apply_mask(img: &mut ImageBuffer, textcolor: [u8; 4], destcolor: [u8; 4])
        ensures
            final(img)@ == (ImageView { data: composited(old(img).data@, textcolor, destcolor), ..old(img)@ }),
    {
        composite_wide(&mut img.data, textcolor, destcolor);
    }
}

/// Rendering a glyph leaves its raw mask cached under the glyph's key: a
/// second render of the glyph, whatever its colors, is answered from the
/// cache with the very mask that the first render composited. So the
/// rasterizer runs at most once for the glyph, and renders with equal colors
/// give identical images. (`raster` is what the rasterizer hands back on a
/// miss.)
pub proof fn lemma_render_caches_glyph(
    entries: Seq<(GlyphCacheKey, ImageView)>,
    cap: nat,
    key: GlyphCacheKey,
    raster: Option<ImageBuffer>,
    textcolor: [u8; 4],
    destcolor: [u8; 4],
)
    requires
        keys_unique(entries),
        entries.len() <= cap,
        cap >= 1,
    ensures
        ({
            let hit = holds_key(entries, key);
            let mask = if hit { entries[key_index(entries, key)].1 } else { raw_mask(raster) };
            let after = if hit { promoted(entries, key) } else { put_entries(entries, cap, key, raw_mask(raster)) };
            &&& holds_key(after, key)
            &&& after[key_index(after, key)].1 == mask
            &&& rendered(after[key_index(after, key)].1, textcolor, destcolor) == rendered(mask, textcolor, destcolor)
        }),
{
    let hit = holds_key(entries, key);
    let after = if hit { promoted(entries, key) } else { put_entries(entries, cap, key, raw_mask(raster)) };
    lemma_promoted_keeps_unique(entries, key);
    lemma_put_keeps_unique(entries, cap, key, raw_mask(raster));
    assert(after[0].0 == key);
    assert(holds_key(after, key));
    assert(key_index(after, key) == 0);
}

} // verus!
