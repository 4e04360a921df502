//! Surfaces that are painted once and shown again for as long as nothing they
//! depend on changes. What a surface is, is left to the painter.

use vstd::prelude::*;

use crate::text::{alignment_bits, alignment_code, Alignment};

verus! {

// ---------------------------------------------------------------------------
// Packed numbers
// ---------------------------------------------------------------------------

/// A window's width and height in one number.
pub fn pack_dims(w: u32, h: u32) -> (dims: u64)
    ensures
        dims == w * 0x1_0000_0000 + h,
{
    proof {
        assert(((w as u64) << 32u64) | (h as u64) == (w as u64) * 0x1_0000_0000 + (h as u64))
            by (bit_vector);
    }
    ((w as u64) << 32u64) | (h as u64)
}

/// Both font sizes, in hundredths of a pixel, and the alignment in one number.
pub open spec fn packed_fonts(body: u64, author: u64, align: Alignment) -> u64 {
    (body << 32u64) | author | (alignment_code(align) << 56u64)
}

/// Both font sizes, in hundredths of a pixel, and the alignment in one number.
pub fn pack_fonts(body: u64, author: u64, align: Alignment) -> (fonts: u64)
    ensures
        fonts == packed_fonts(body, author, align),
{
    (body << 32u64) | author | (alignment_bits(align) << 56u64)
}

/// The packed number tells font sizes below 167 772 pixels and all alignments apart.
pub proof fn packed_fonts_tell_apart(
    body1: u64,
    author1: u64,
    align1: Alignment,
    body2: u64,
    author2: u64,
    align2: Alignment,
)
    requires
        body1 < 0x100_0000,
        body2 < 0x100_0000,
        author1 < 0x1_0000_0000,
        author2 < 0x1_0000_0000,
    ensures
        packed_fonts(body1, author1, align1) == packed_fonts(body2, author2, align2) <==> body1
            == body2 && author1 == author2 && align1 == align2,
{
    let (c1, c2) = (alignment_code(align1), alignment_code(align2));
    assert((body1 << 32u64) | author1 | (c1 << 56u64) == (body2 << 32u64) | author2 | (c2 << 56u64)
        ==> body1 == body2 && author1 == author2 && c1 == c2) by (bit_vector)
        requires
            body1 < 0x100_0000u64,
            body2 < 0x100_0000u64,
            author1 < 0x1_0000_0000u64,
            author2 < 0x1_0000_0000u64,
            c1 < 4u64,
            c2 < 4u64,
    ;
}

/// The packed number tells all window sizes apart.
pub proof fn packed_dims_tell_apart(w1: u32, h1: u32, w2: u32, h2: u32)
    ensures
        w1 * 0x1_0000_0000 + h1 == w2 * 0x1_0000_0000 + h2 <==> w1 == w2 && h1 == h2,
{
}

// ---------------------------------------------------------------------------
// The steady text block
// ---------------------------------------------------------------------------

/// Everything that the look of a steady text block depends on. Colours and what
/// measures the glow are in thousandths.
#[derive(Debug)]
pub struct TextKey {
    /// The window's size, packed.
    pub dims: u64,
    pub text: String,
    pub author: String,
    pub font_family: String,
    /// The font sizes and the alignment, packed.
    pub fonts: u64,
    pub ink: (u32, u32, u32),
    pub author_ink: (u32, u32, u32),
    /// The strength of the glow.
    pub glow: u32,
    pub glow_color: (u32, u32, u32),
    pub glow_radius: u32,
    pub glow_thickness: u32,
}

impl TextKey {
    /// Whether two keys stand for the same look.
    pub open spec fn same(self, other: TextKey) -> bool {
        &&& self.dims == other.dims
        &&& self.text@ == other.text@
        &&& self.author@ == other.author@
        &&& self.font_family@ == other.font_family@
        &&& self.fonts == other.fonts
        &&& self.ink == other.ink
        &&& self.author_ink == other.author_ink
        &&& self.glow == other.glow
        &&& self.glow_color == other.glow_color
        &&& self.glow_radius == other.glow_radius
        &&& self.glow_thickness == other.glow_thickness
    }

    /// Whether two keys stand for the same look.
    pub fn matches_key(&self, other: &TextKey) -> (yes: bool)
        ensures
            yes == self.same(*other),
    {
        self.dims == other.dims && self.text == other.text && self.author == other.author
            && self.font_family == other.font_family && self.fonts == other.fonts && self.ink.0
            == other.ink.0 && self.ink.1 == other.ink.1 && self.ink.2 == other.ink.2
            && self.author_ink.0 == other.author_ink.0 && self.author_ink.1 == other.author_ink.1
            && self.author_ink.2 == other.author_ink.2 && self.glow == other.glow
            && self.glow_color.0 == other.glow_color.0 && self.glow_color.1 == other.glow_color.1
            && self.glow_color.2 == other.glow_color.2 && self.glow_radius == other.glow_radius
            && self.glow_thickness == other.glow_thickness
    }
}

/// Keeps the steady text block that was painted last.
#[derive(Debug)]
pub struct TextSurfaceCache<S> {
    pub key: TextKey,
    pub surface: Option<S>,
}

impl<S> TextSurfaceCache<S> {
    /// The surface kept for `key`, if there is one.
    pub open spec fn kept(self, key: TextKey) -> Option<S> {
        if self.key.same(key) {
            self.surface
        } else {
            None
        }
    }

    /// A cache that keeps nothing yet.
    pub fn new() -> (cache: TextSurfaceCache<S>)
        ensures
            cache.surface is None,
            forall|key: TextKey| #[trigger] cache.kept(key) is None,
    {
        TextSurfaceCache {
            key: TextKey {
                dims: 0,
                text: String::new(),
                author: String::new(),
                font_family: String::new(),
                fonts: 0,
                ink: (0, 0, 0),
                author_ink: (0, 0, 0),
                glow: 0,
                glow_color: (0, 0, 0),
                glow_radius: 0,
                glow_thickness: 0,
            },
            surface: None,
        }
    }

    /// The surface painted for `key`, if it is the one kept.
    pub fn lookup(&self, key: &TextKey) -> (surface: Option<&S>)
        ensures
            match surface {
                Some(s) => self.kept(*key) == Some(*s),
                None => self.kept(*key) is None,
            },
    {
        if self.key.matches_key(key) {
            match &self.surface {
                Some(s) => Some(s),
                None => None,
            }
        } else {
            None
        }
    }

    /// Keeps `surface` for `key`, in place of what was kept before.
    pub fn store(&mut self, key: TextKey, surface: S)
        ensures
            final(self).key == key,
            final(self).surface == Some(surface),
    {
        self.key = key;
        self.surface = Some(surface);
    }
}

/// What was stored last comes back for the key it was stored under, and for no
/// key that differs in phrase, author, window, fonts, colours or glow.
pub proof fn last_stored_block_comes_back<S>(cache: TextSurfaceCache<S>, key: TextKey, surface: S)
    requires
        cache.key.same(key),
        cache.surface == Some(surface),
    ensures
        cache.kept(key) == Some(surface),
        forall|other: TextKey|
            #![trigger cache.kept(other)]
            other.text@ != key.text@ || other.author@ != key.author@ || other.dims != key.dims
                || other.font_family@ != key.font_family@ || other.fonts != key.fonts || other.ink
                != key.ink || other.author_ink != key.author_ink || other.glow != key.glow
                || other.glow_color != key.glow_color || other.glow_radius != key.glow_radius
                || other.glow_thickness != key.glow_thickness
                ==> cache.kept(other) is None,
{
}

// ---------------------------------------------------------------------------
// The halo
// ---------------------------------------------------------------------------

/// Everything that a halo, and where it stands, depends on. The author counts,
/// since the height of its line decides where the quote stands. Colours and what
/// measures the glow are in thousandths.
#[derive(Debug)]
pub struct GlowKey {
    pub w: u32,
    pub h: u32,
    pub text: String,
    pub author: String,
    pub font_family: String,
    /// The font sizes and the alignment, packed.
    pub fonts: u64,
    /// The strength of the glow.
    pub glow: u32,
    pub glow_color: (u32, u32, u32),
    pub glow_radius: u32,
    pub glow_thickness: u32,
}

impl GlowKey {
    /// Whether two keys ask for the same halo.
    pub open spec fn same(self, other: GlowKey) -> bool {
        &&& self.w == other.w
        &&& self.h == other.h
        &&& self.text@ == other.text@
        &&& self.author@ == other.author@
        &&& self.font_family@ == other.font_family@
        &&& self.fonts == other.fonts
        &&& self.glow == other.glow
        &&& self.glow_color == other.glow_color
        &&& self.glow_radius == other.glow_radius
        &&& self.glow_thickness == other.glow_thickness
    }

    /// Whether two keys ask for the same halo.
    pub fn matches_key(&self, other: &GlowKey) -> (yes: bool)
        ensures
            yes == self.same(*other),
    {
        self.w == other.w && self.h == other.h && self.text == other.text && self.author
            == other.author && self.font_family == other.font_family && self.fonts == other.fonts
            && self.glow == other.glow && self.glow_color.0 == other.glow_color.0
            && self.glow_color.1 == other.glow_color.1 && self.glow_color.2 == other.glow_color.2
            && self.glow_radius == other.glow_radius && self.glow_thickness
            == other.glow_thickness
    }
}

/// Keeps the halo of the current phrase. A phrase without ink has none, which is
/// kept as well.
#[derive(Debug)]
pub struct GlowCache<S> {
    pub key: GlowKey,
    pub halo: Option<S>,
}

impl<S> GlowCache<S> {
    /// A cache that keeps nothing yet.
    pub fn new() -> (cache: GlowCache<S>)
        ensures
            cache.key.w == 0,
            cache.key.h == 0,
            cache.key.text@ == Seq::<char>::empty(),
            cache.key.author@ == Seq::<char>::empty(),
            cache.key.font_family@ == Seq::<char>::empty(),
            cache.key.fonts == 0,
            cache.key.glow == 0,
            cache.key.glow_color == (0u32, 0u32, 0u32),
            cache.key.glow_radius == 0,
            cache.key.glow_thickness == 0,
            cache.halo is None,
    {
        GlowCache {
            key: GlowKey {
                w: 0,
                h: 0,
                text: String::new(),
                author: String::new(),
                font_family: String::new(),
                fonts: 0,
                glow: 0,
                glow_color: (0, 0, 0),
                glow_radius: 0,
                glow_thickness: 0,
            },
            halo: None,
        }
    }

    /// Whether the halo for `key` has yet to be built.
    pub fn is_stale(&self, key: &GlowKey) -> (stale: bool)
        ensures
            stale == !self.key.same(*key),
    {
        !self.key.matches_key(key)
    }

    /// Keeps the halo built for `key`, in place of what was kept before.
    pub fn store(&mut self, key: GlowKey, halo: Option<S>)
        ensures
            final(self).key == key,
            final(self).halo == halo,
    {
        self.key = key;
        self.halo = halo;
    }
}

/// A halo is built once: the key it was stored under does not ask for another,
/// and every key with another phrase, author, window size, font or setting of the
/// glow does.
pub proof fn halo_is_built_once<S>(cache: GlowCache<S>, key: GlowKey, other: GlowKey)
    requires
        cache.key == key,
    ensures
        cache.key.same(key),
        other.w != key.w || other.h != key.h || other.text@ != key.text@ || other.author@
            != key.author@ || other.font_family@ != key.font_family@ || other.fonts != key.fonts
            || other.glow != key.glow || other.glow_color != key.glow_color || other.glow_radius
            != key.glow_radius || other.glow_thickness != key.glow_thickness
            <==> !cache.key.same(other),
{
}

/// Whether a scanline tile has to be painted afresh: there is none, or it was
/// made for another window size.
pub fn tile_is_stale(made_for: Option<(usize, usize)>, w: usize, h: usize) -> (stale: bool)
    ensures
        stale == (made_for != Some((w, h))),
{
    match made_for {
        Some((tw, th)) => tw != w || th != h,
        None => true,
    }
}

} // verus!
