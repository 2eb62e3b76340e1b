//! Where rasterized glyphs lie in the pages of the glyph atlas.

use std::collections::HashMap;
use vstd::prelude::*;
use crate::terminal::frame;
use crate::terminal::frame::{CellView, TerminalCellPatch};

verus! {

/// The width and the height of a page in pixels.
pub const PAGE_SIZE: u32 = 2048;

/// With more pages than this the atlas is emptied between two frames.
pub const MAXIMUM_PAGES: usize = 4;

/// With more glyphs than this the atlas is emptied between two frames.
pub const MAXIMUM_SPRITES: usize = 16384;

/// A glyph in the atlas.
#[derive(Clone, Copy, Debug, PartialEq, Eq, Structural)]
pub struct Sprite {
    pub page: usize,
    pub x: u32,
    pub y: u32,
    pub width: u32,
    pub height: u32,
    pub left: i32,
    pub top: i32,
    pub colored: bool,
}

/// The size of a rasterized glyph and its place relative to the pen.
#[derive(Clone, Copy, Debug, PartialEq, Eq, Structural)]
pub struct GlyphImage {
    pub width: u32,
    pub height: u32,
    pub left: i32,
    pub top: i32,
    pub colored: bool,
}

/// How far a page is filled: the next glyph goes to `x` in the row at `y`,
/// whose tallest glyph has `row_height`.
#[derive(Clone, Copy, Debug, PartialEq, Eq, Structural)]
pub struct Page {
    pub x: u32,
    pub y: u32,
    pub row_height: u32,
}

/// The pages, and the glyphs by the number that stands for each; a glyph
/// without an image has no sprite.
pub struct Atlas {
    pages: Vec<Page>,
    sprites: HashMap<u64, Option<Sprite>>,
}

/// What an `Atlas` holds.
#[verifier::ext_equal]
pub struct AtlasView {
    pub pages: Seq<Page>,
    pub sprites: Map<u64, Option<Sprite>>,
}

impl View for Atlas {
    type V = AtlasView;

    closed spec fn view(&self) -> AtlasView {
        AtlasView { pages: self.pages@, sprites: self.sprites@ }
    }
}

/// Whether an image has pixels and fits into a page.
pub open spec fn drawable(image: GlyphImage) -> bool {
    0 < image.width <= PAGE_SIZE && 0 < image.height <= PAGE_SIZE
}

/// A page of which nothing is used.
pub open spec fn fresh_page() -> Page {
    Page { x: 0, y: 0, row_height: 0 }
}

/// The page as it is before a glyph of some width is put into it: where the
/// width does not fit any more, a new row starts.
pub open spec fn with_row(page: Page, width: u32) -> Page {
    if page.x + width > PAGE_SIZE {
        Page { x: 0, y: (page.y + page.row_height) as u32, row_height: 0 }
    } else {
        page
    }
}

/// The pages as they are before a glyph is put into the last one.
pub open spec fn with_room(pages: Seq<Page>, image: GlyphImage) -> Seq<Page> {
    let some = if pages.len() == 0 {
        seq![fresh_page()]
    } else {
        pages
    };
    let last = with_row(some.last(), image.width);
    let rowed = some.drop_last().push(last);
    if last.y + image.height > PAGE_SIZE {
        rowed.push(fresh_page())
    } else {
        rowed
    }
}

/// The page with a glyph put into it.
pub open spec fn filled(page: Page, image: GlyphImage) -> Page {
    Page {
        x: (page.x + image.width) as u32,
        y: page.y,
        row_height: if page.row_height < image.height {
            image.height
        } else {
            page.row_height
        },
    }
}

/// The sprite of an image that goes to the end of the last page.
pub open spec fn sprite_at_end(pages: Seq<Page>, image: GlyphImage) -> Sprite {
    Sprite {
        page: (pages.len() - 1) as usize,
        x: pages.last().x,
        y: pages.last().y,
        width: image.width,
        height: image.height,
        left: image.left,
        top: image.top,
        colored: image.colored,
    }
}

/// The atlas with the glyph that a number stands for; one that it has already
/// stays as it is.
pub open spec fn with_glyph(atlas: AtlasView, key: u64, image: Option<GlyphImage>) -> AtlasView {
    if atlas.sprites.contains_key(key) {
        atlas
    } else if image is Some && drawable(image->0) {
        let pages = with_room(atlas.pages, image->0);
        AtlasView {
            pages: pages.drop_last().push(filled(pages.last(), image->0)),
            sprites: atlas.sprites.insert(key, Some(sprite_at_end(pages, image->0))),
        }
    } else {
        AtlasView { sprites: atlas.sprites.insert(key, None), ..atlas }
    }
}

/// An atlas that holds nothing.
pub open spec fn empty_atlas() -> AtlasView {
    AtlasView { pages: Seq::empty(), sprites: Map::empty() }
}

/// Whether two sprites have no pixel in common.
pub open spec fn apart(one: Sprite, other: Sprite) -> bool {
    ||| one.page != other.page
    ||| one.x + one.width <= other.x
    ||| other.x + other.width <= one.x
    ||| one.y + one.height <= other.y
    ||| other.y + other.height <= one.y
}

/// Whether a sprite lies in the used part of a page.
pub open spec fn in_used_part(sprite: Sprite, page: Page) -> bool {
    sprite.y + sprite.height <= page.y || (sprite.x + sprite.width <= page.x && sprite.y
        + sprite.height <= page.y + page.row_height)
}

/// Whether a key has a sprite.
pub open spec fn has_sprite(atlas: AtlasView, key: u64) -> bool {
    atlas.sprites.contains_key(key) && atlas.sprites[key] is Some
}

impl AtlasView {
    /// Whether every sprite lies within its page and none covers another.
    pub open spec fn valid(self) -> bool {
        &&& self.pages.len() <= usize::MAX
        &&& forall|i: int|
            0 <= i < self.pages.len() ==> (#[trigger] self.pages[i]).x <= PAGE_SIZE
                && self.pages[i].y + self.pages[i].row_height <= PAGE_SIZE
        &&& forall|key: u64| #[trigger]
            has_sprite(self, key) ==> {
                let sprite = self.sprites[key]->0;
                &&& sprite.page < self.pages.len()
                &&& 0 < sprite.width
                &&& 0 < sprite.height
                &&& sprite.x + sprite.width <= PAGE_SIZE
                &&& sprite.y + sprite.height <= PAGE_SIZE
                &&& in_used_part(sprite, self.pages[sprite.page as int])
            }
        &&& forall|one: u64, other: u64|
            one != other && #[trigger] has_sprite(self, one) && #[trigger] has_sprite(self, other)
                ==> apart(self.sprites[one]->0, self.sprites[other]->0)
    }
}

/// A glyph that comes into the atlas lies within a page and covers no glyph
/// that is there.
pub proof fn glyphs_never_overlap(atlas: AtlasView, key: u64, image: Option<GlyphImage>)
    requires
        atlas.valid(),
        atlas.pages.len() < usize::MAX,
    ensures
        with_glyph(atlas, key, image).valid(),
{
    let after = with_glyph(atlas, key, image);
    if !atlas.sprites.contains_key(key) {
        if image is Some && drawable(image->0) {
            let picture = image->0;
            let pages = with_room(atlas.pages, picture);
            let sprite = sprite_at_end(pages, picture);
            let last = pages.last();
            assert(last.x + picture.width <= PAGE_SIZE);
            assert(last.y + picture.height <= PAGE_SIZE);
            assert forall|i: int| 0 <= i < after.pages.len() implies (
            #[trigger] after.pages[i]).x <= PAGE_SIZE && after.pages[i].y
                + after.pages[i].row_height <= PAGE_SIZE by {
                if i < atlas.pages.len() {
                    assert(atlas.pages[i].x <= PAGE_SIZE);
                }
            }
            assert forall|other: u64| #[trigger] has_sprite(after, other) && other != key implies {
                let old = atlas.sprites[other]->0;
                &&& has_sprite(atlas, other)
                &&& after.sprites[other]->0 == old
                &&& in_used_part(old, after.pages[old.page as int])
                &&& apart(old, sprite)
            } by {
                assert(has_sprite(atlas, other));
                let old = atlas.sprites[other]->0;
                assert(in_used_part(old, atlas.pages[old.page as int]));
            }
            assert forall|other: u64| #[trigger] has_sprite(after, other) implies {
                let found = after.sprites[other]->0;
                &&& found.page < after.pages.len()
                &&& 0 < found.width
                &&& 0 < found.height
                &&& found.x + found.width <= PAGE_SIZE
                &&& found.y + found.height <= PAGE_SIZE
                &&& in_used_part(found, after.pages[found.page as int])
            } by {
                if other != key {
                    assert(has_sprite(atlas, other));
                }
            }
            assert forall|one: u64, other: u64|
                one != other && #[trigger] has_sprite(after, one) && #[trigger] has_sprite(
                    after,
                    other,
                ) implies apart(after.sprites[one]->0, after.sprites[other]->0) by {
                if one != key && other != key {
                    assert(has_sprite(atlas, one));
                    assert(has_sprite(atlas, other));
                }
            }
        } else {
            assert forall|other: u64| #[trigger] has_sprite(after, other) implies has_sprite(
                atlas,
                other,
            ) && after.sprites[other] == atlas.sprites[other] by {}
        }
    }
}

impl Atlas {
    pub fn new() -> (atlas: Atlas)
        ensures
            atlas@ == empty_atlas(),
            atlas@.valid(),
    {
        broadcast use vstd::std_specs::hash::group_hash_axioms;

        let atlas = Atlas { pages: Vec::new(), sprites: HashMap::new() };
        assert(atlas@ =~= empty_atlas());
        atlas
    }

    pub fn page_count(&self) -> (count: usize)
        ensures
            count == self@.pages.len(),
    {
        self.pages.len()
    }

    /// What is known of the glyph that a number stands for.
    pub fn find(&self, key: u64) -> (known: Option<Option<Sprite>>)
        ensures
            known == (if self@.sprites.contains_key(key) {
                Some(self@.sprites[key])
            } else {
                None
            }),
    {
        broadcast use vstd::std_specs::hash::group_hash_axioms;

        match self.sprites.get(&key) {
            Some(sprite) => Some(*sprite),
            None => None,
        }
    }

    /// Gives the sprite of a glyph; a glyph that the atlas does not have yet is
    /// put into it.
    pub fn sprite(&mut self, key: u64, image: Option<GlyphImage>) -> (sprite: Option<Sprite>)
        requires
            old(self)@.valid(),
            old(self)@.pages.len() < usize::MAX,
        ensures
            final(self)@ == with_glyph(old(self)@, key, image),
            final(self)@.valid(),
            sprite == final(self)@.sprites[key],
    {
        broadcast use vstd::std_specs::hash::group_hash_axioms;

        proof {
            glyphs_never_overlap(self@, key, image);
        }
        if let Some(known) = self.find(key) {
            return known;
        }
        let ghost before = self@;
        let mut sprite: Option<Sprite> = None;
        if let Some(picture) = image {
            if picture.width > 0 && picture.height > 0 && picture.width <= PAGE_SIZE
                && picture.height <= PAGE_SIZE {
                sprite = Some(self.place(picture));
                let ghost pages = with_room(before.pages, picture);
                assert(sprite == Some(sprite_at_end(pages, picture)));
            }
        }
        self.sprites.insert(key, sprite);
        assert(self@ =~= with_glyph(before, key, image));
        sprite
    }

    fn place(&mut self, image: GlyphImage) -> (sprite: Sprite)
        requires
            old(self)@.valid(),
            old(self)@.pages.len() < usize::MAX,
            drawable(image),
        ensures
            ({
                let pages = with_room(old(self)@.pages, image);
                &&& final(self)@.pages == pages.drop_last().push(filled(pages.last(), image))
                &&& final(self)@.sprites == old(self)@.sprites
                &&& sprite == sprite_at_end(pages, image)
            }),
    {
        let ghost before = self.pages@;
        if self.pages.len() == 0 {
            self.pages.push(Page { x: 0, y: 0, row_height: 0 });
        }
        let ghost some = self.pages@;
        assert(before.len() == 0 ==> some =~= seq![fresh_page()]);
        let last: usize = self.pages.len() - 1;
        assert(before.len() > 0 ==> before[last as int].x <= PAGE_SIZE);
        let mut page: Page = self.pages[last];
        assert(page.x <= PAGE_SIZE && page.y + page.row_height <= PAGE_SIZE);
        if page.x + image.width > PAGE_SIZE {
            page = Page { x: 0, y: page.y + page.row_height, row_height: 0 };
        }
        assert(page == with_row(some.last(), image.width));
        self.pages.set(last, page);
        assert(self.pages@ =~= some.drop_last().push(page));
        if page.y + image.height > PAGE_SIZE {
            self.pages.push(Page { x: 0, y: 0, row_height: 0 });
        }
        assert(self.pages@ =~= with_room(before, image));
        let ghost pages = self.pages@;
        let index: usize = self.pages.len() - 1;
        let chosen: Page = self.pages[index];
        assert(chosen == pages.last());
        let sprite = Sprite {
            page: index,
            x: chosen.x,
            y: chosen.y,
            width: image.width,
            height: image.height,
            left: image.left,
            top: image.top,
            colored: image.colored,
        };
        let height: u32 = if chosen.row_height < image.height {
            image.height
        } else {
            chosen.row_height
        };
        self.pages.set(
            index,
            Page { x: chosen.x + image.width, y: chosen.y, row_height: height },
        );
        assert(self.pages@ =~= pages.drop_last().push(filled(pages.last(), image)));
        sprite
    }

    /// Empties the atlas.
    pub fn clear_cache(&mut self)
        ensures
            final(self)@ == empty_atlas(),
            final(self)@.valid(),
    {
        *self = Atlas::new();
    }

    /// Empties the atlas where it has grown too large. This happens between
    /// frames only, so that no sprite moves while a frame uses it.
    pub fn start_frame(&mut self)
        requires
            old(self)@.valid(),
        ensures
            final(self)@ == (if old(self)@.pages.len() > MAXIMUM_PAGES || old(self)@.sprites.len()
                > MAXIMUM_SPRITES {
                empty_atlas()
            } else {
                old(self)@
            }),
            final(self)@ == started(old(self)@),
            final(self)@.valid(),
    {
        broadcast use vstd::std_specs::hash::group_hash_axioms;

        if self.pages.len() > MAXIMUM_PAGES || self.sprites.len() > MAXIMUM_SPRITES {
            self.clear_cache();
        }
    }
}

/// What the bytes of a rasterized glyph stand for.
#[derive(Clone, Copy, Debug, PartialEq, Eq, Structural)]
pub enum PixelContent {
    /// One byte of coverage for each pixel.
    Mask,
    /// Four bytes for each pixel, the first three of which are the coverage of
    /// its parts.
    SubpixelMask,
    /// Four bytes of colour for each pixel.
    Color,
}

/// The greatest of three.
pub open spec fn greatest(a: u8, b: u8, c: u8) -> u8 {
    if a >= b && a >= c {
        a
    } else if b >= c {
        b
    } else {
        c
    }
}

/// The pixels as four bytes each: colours as they are, coverages as the opacity
/// of white.
pub open spec fn as_rgba(content: PixelContent, data: Seq<u8>) -> Seq<u8> {
    match content {
        PixelContent::Color => data,
        PixelContent::Mask => Seq::new(
            4 * data.len(),
            |i: int|
                if i % 4 == 3 {
                    data[i / 4]
                } else {
                    255u8
                },
        ),
        PixelContent::SubpixelMask => Seq::new(
            4 * (data.len() / 4),
            |i: int|
                if i % 4 == 3 {
                    greatest(data[i - 3], data[i - 2], data[i - 1])
                } else {
                    255u8
                },
        ),
    }
}

/// The pixels of a glyph as the atlas stores them.
pub fn rgba_pixels(content: PixelContent, data: Vec<u8>) -> (pixels: Vec<u8>)
    ensures
        pixels@ == as_rgba(content, data@),
{
    match content {
        PixelContent::Color => data,
        PixelContent::Mask => {
            let mut pixels: Vec<u8> = Vec::new();
            let mut index: usize = 0;
            while index < data.len()
                invariant
                    index <= data@.len(),
                    pixels@ == as_rgba(content, data@).take(4 * index),
                    content == PixelContent::Mask,
                decreases data.len() - index,
            {
                let ghost before = pixels@;
                pixels.push(255);
                pixels.push(255);
                pixels.push(255);
                pixels.push(data[index]);
                assert(pixels@ =~= as_rgba(content, data@).take(4 * (index + 1)));
                index += 1;
            }
            assert(as_rgba(content, data@).take(4 * data@.len() as int) =~= as_rgba(content, data@));
            pixels
        },
        PixelContent::SubpixelMask => {
            let mut pixels: Vec<u8> = Vec::new();
            let mut index: usize = 0;
            while data.len() - index >= 4
                invariant
                    index <= data@.len(),
                    index % 4 == 0,
                    pixels@ == as_rgba(content, data@).take(index as int),
                    content == PixelContent::SubpixelMask,
                decreases data.len() - index,
            {
                let (a, b, c) = (data[index], data[index + 1], data[index + 2]);
                let coverage: u8 = if a >= b && a >= c {
                    a
                } else if b >= c {
                    b
                } else {
                    c
                };
                pixels.push(255);
                pixels.push(255);
                pixels.push(255);
                pixels.push(coverage);
                assert(pixels@ =~= as_rgba(content, data@).take(index + 4));
                index += 4;
            }
            assert(index == 4 * (data@.len() / 4));
            assert(as_rgba(content, data@).take(index as int) =~= as_rgba(content, data@));
            pixels
        },
    }
}

/// Vertices `start..end` that are drawn from one page.
#[derive(Clone, Copy, Debug, PartialEq, Eq, Structural)]
pub struct Batch {
    pub page: usize,
    pub start: u32,
    pub end: u32,
}

/// The batches with one more quad, which starts at the vertex `start`.
pub open spec fn with_quad(batches: Seq<Batch>, page: usize, start: u32) -> Seq<Batch> {
    if batches.len() > 0 && batches.last().page == page {
        let last = batches.last();
        batches.drop_last().push(Batch { end: (last.end + 6) as u32, ..last })
    } else {
        batches.push(Batch { page, start, end: (start + 6) as u32 })
    }
}

/// Whether the batches draw the vertices from the first to the one before
/// `count`, each once and in order.
pub open spec fn covers(batches: Seq<Batch>, count: u32) -> bool {
    &&& batches.len() == 0 ==> count == 0
    &&& batches.len() > 0 ==> batches[0].start == 0 && batches.last().end == count
    &&& forall|i: int|
        0 <= i < batches.len() - 1 ==> (#[trigger] batches[i]).end == batches[i + 1].start
    &&& forall|i: int| 0 <= i < batches.len() ==> (#[trigger] batches[i]).start < batches[i].end
}

/// Draws six more vertices from a page; they join the last batch where that
/// draws from the same page.
pub fn add_quad(batches: &mut Vec<Batch>, page: usize, start: u32)
    requires
        covers(old(batches)@, start),
        start + 6 <= u32::MAX,
    ensures
        final(batches)@ == with_quad(old(batches)@, page, start),
        covers(final(batches)@, (start + 6) as u32),
{
    let ghost before = batches@;
    let count: usize = batches.len();
    if count > 0 && batches[count - 1].page == page {
        let last: Batch = batches[count - 1];
        batches.set(count - 1, Batch { page: last.page, start: last.start, end: last.end + 6 });
        assert(batches@ =~= with_quad(before, page, start));
        assert forall|i: int| 0 <= i < batches@.len() - 1 implies (#[trigger] batches@[i]).end
            == batches@[i + 1].start by {
            assert(before[i].end == before[i + 1].start);
        }
    } else {
        batches.push(Batch { page, start, end: start + 6 });
        assert forall|i: int| 0 <= i < batches@.len() - 1 implies (#[trigger] batches@[i]).end
            == batches@[i + 1].start by {
            if i < before.len() - 1 {
                assert(before[i].end == before[i + 1].start);
            }
        }
    }
}

/// How many of the first cells end at a column or before it.
pub open spec fn cells_ended_by(cells: Seq<CellView>, column: int) -> int
    decreases cells.len(),
{
    if cells.len() > 0 && cells[0].column + cells[0].width_in_columns <= column {
        1 + cells_ended_by(cells.skip(1), column)
    } else {
        0
    }
}

/// How many of the first cells start before a column.
pub open spec fn cells_started_before(cells: Seq<CellView>, column: int) -> int
    decreases cells.len(),
{
    if cells.len() > 0 && cells[0].column < column {
        1 + cells_started_before(cells.skip(1), column)
    } else {
        0
    }
}

/// Which cells of a run the ink of a glyph touches: those from the first to the
/// one before the second index.
pub fn painted_cells(cells: &Vec<TerminalCellPatch>, start: usize, end: usize) -> (painted: (
    usize,
    usize,
))
    ensures
        painted.0 == cells_ended_by(frame::cell_views(cells@), start as int),
        painted.1 == cells_started_before(frame::cell_views(cells@), end as int),
        painted.0 <= cells@.len(),
        painted.1 <= cells@.len(),
{
    let ghost all = frame::cell_views(cells@);
    let mut first: usize = 0;
    assert(all.skip(0) == all);
    while first < cells.len() && cells[first].column <= start && cells[first].width_in_columns
        <= start - cells[first].column
        invariant
            first <= cells@.len(),
            all == frame::cell_views(cells@),
            cells_ended_by(all, start as int) == first + cells_ended_by(
                all.skip(first as int),
                start as int,
            ),
        decreases cells.len() - first,
    {
        assert(all.skip(first as int).skip(1) == all.skip(first + 1));
        assert(all.skip(first as int)[0] == cells@[first as int]@);
        first += 1;
    }
    assert(first < cells@.len() ==> all.skip(first as int)[0] == cells@[first as int]@);
    let mut last: usize = 0;
    while last < cells.len() && cells[last].column < end
        invariant
            last <= cells@.len(),
            all == frame::cell_views(cells@),
            cells_started_before(all, end as int) == last + cells_started_before(
                all.skip(last as int),
                end as int,
            ),
        decreases cells.len() - last,
    {
        assert(all.skip(last as int).skip(1) == all.skip(last + 1));
        assert(all.skip(last as int)[0] == cells@[last as int]@);
        last += 1;
    }
    assert(last < cells@.len() ==> all.skip(last as int)[0] == cells@[last as int]@);
    (first, last)
}

/// A glyph that comes into the atlas is found there with its own size, its own place
/// relative to the pen and its own kind; one without pixels, or one that is larger
/// than a page of 2048 pixels, is found as one that is not drawn. A glyph that is
/// there already stays where it is, and so does every other one.
pub proof fn glyphs_are_found_again(
    atlas: AtlasView,
    key: u64,
    image: Option<GlyphImage>,
    other: u64,
)
    ensures
        ({
            let after = with_glyph(atlas, key, image);
            &&& after.sprites.contains_key(key)
            &&& atlas.sprites.contains_key(other) ==> after.sprites.contains_key(other)
                && after.sprites[other] == atlas.sprites[other]
            &&& other != key && after.sprites.contains_key(other) ==> atlas.sprites.contains_key(
                other,
            )
            &&& atlas.sprites.contains_key(key) ==> after == atlas
            &&& !atlas.sprites.contains_key(key) ==> match image {
                None => after.sprites[key] is None && after.pages == atlas.pages,
                Some(picture) => if picture.width == 0 || picture.height == 0 || picture.width
                    > 2048 || picture.height > 2048 {
                    after.sprites[key] is None && after.pages == atlas.pages
                } else {
                    after.sprites[key] matches Some(sprite) && sprite.width == picture.width
                        && sprite.height == picture.height && sprite.left == picture.left
                        && sprite.top == picture.top && sprite.colored == picture.colored
                },
            }
        }),
{
}

/// A page is given up for a new one only where a glyph would not fit below the row
/// that is being filled, and a row only where it would not fit beside the glyphs
/// in it.
pub proof fn pages_are_filled_row_by_row(atlas: AtlasView, key: u64, image: GlyphImage)
    requires
        atlas.valid(),
        atlas.pages.len() > 0,
        atlas.pages.len() < usize::MAX,
        !atlas.sprites.contains_key(key),
        0 < image.width <= 2048,
        0 < image.height <= 2048,
    ensures
        ({
            let page = atlas.pages.last();
            let after = with_glyph(atlas, key, Some(image));
            let sprite = after.sprites[key]->0;
            let beside = page.x + image.width <= 2048;
            let fits = page.y + image.height + (if beside {
                0int
            } else {
                page.row_height as int
            }) <= 2048;
            &&& fits ==> after.pages.len() == atlas.pages.len() && sprite.page == atlas.pages.len()
                - 1
            &&& fits && beside ==> sprite.x == page.x && sprite.y == page.y
            &&& fits && !beside ==> sprite.x == 0 && sprite.y == page.y + page.row_height
            &&& !fits ==> after.pages.len() == atlas.pages.len() + 1 && sprite.page
                == atlas.pages.len() && sprite.x == 0 && sprite.y == 0
        }),
{
    assert(atlas.pages[atlas.pages.len() - 1].x <= PAGE_SIZE);
}

/// Each pixel of a glyph becomes four bytes. Colours stay as they are; a coverage
/// becomes the opacity of white, and of three coverages the greatest counts.
pub proof fn pixels_become_four_bytes(content: PixelContent, data: Seq<u8>, pixel: int)
    ensures
        content is Color ==> as_rgba(content, data) == data,
        content is Mask ==> as_rgba(content, data).len() == 4 * data.len(),
        content is Mask && 0 <= pixel < data.len() ==> as_rgba(content, data).subrange(
            4 * pixel,
            4 * pixel + 4,
        ) == seq![255u8, 255u8, 255u8, data[pixel]],
        content is SubpixelMask && 0 <= pixel && 4 * pixel + 4 <= data.len() ==> ({
            let bytes = as_rgba(content, data).subrange(4 * pixel, 4 * pixel + 4);
            let (a, b, c) = (data[4 * pixel], data[4 * pixel + 1], data[4 * pixel + 2]);
            &&& bytes[0] == 255 && bytes[1] == 255 && bytes[2] == 255
            &&& bytes[3] >= a && bytes[3] >= b && bytes[3] >= c
            &&& bytes[3] == a || bytes[3] == b || bytes[3] == c
        }),
        content is SubpixelMask ==> as_rgba(content, data).len() == data.len() - data.len() % 4,
{
    if content is Mask && 0 <= pixel < data.len() {
        let bytes = as_rgba(content, data).subrange(4 * pixel, 4 * pixel + 4);
        assert((4 * pixel + 3) / 4 == pixel && (4 * pixel + 3) % 4 == 3);
        assert(bytes =~= seq![255u8, 255u8, 255u8, data[pixel]]);
    }
    if content is SubpixelMask && 0 <= pixel && 4 * pixel + 4 <= data.len() {
        assert((4 * pixel + 3) % 4 == 3);
        assert(4 * pixel + 4 <= 4 * (data.len() / 4));
    }
}

/// One more quad is drawn behind all others and from its own page; the quads before
/// it are drawn as they were, and no batch is started where the last one can go on.
pub proof fn quads_are_drawn_in_their_order(
    batches: Seq<Batch>,
    page: usize,
    start: u32,
    place: int,
)
    requires
        covers(batches, start),
        start + 6 <= u32::MAX,
        0 <= place < batches.len(),
    ensures
        ({
            let after = with_quad(batches, page, start);
            &&& after.last().page == page
            &&& after.last().end == start + 6
            &&& after.last().start <= start
            &&& after[place].page == batches[place].page
            &&& after[place].start == batches[place].start
            &&& place < batches.len() - 1 ==> after[place] == batches[place]
            &&& batches.last().page == page ==> after.len() == batches.len()
            &&& batches.last().page != page ==> after.len() == batches.len() + 1
                && after.last().start == start && after[place] == batches[place]
        }),
{
}

proof fn lemma_ended(cells: Seq<CellView>, column: int, place: int)
    requires
        0 <= place < cells.len(),
        forall|i: int, j: int|
            0 <= i < j < cells.len() ==> (#[trigger] cells[i]).column + cells[i].width_in_columns
                <= (#[trigger] cells[j]).column,
        forall|i: int| 0 <= i < cells.len() ==> (#[trigger] cells[i]).width_in_columns >= 1,
    ensures
        place < cells_ended_by(cells, column) <==> cells[place].column
            + cells[place].width_in_columns <= column,
        place < cells_started_before(cells, column) <==> cells[place].column < column,
    decreases cells.len(),
{
    let rest = cells.skip(1);
    assert forall|i: int, j: int| 0 <= i < j < rest.len() implies (#[trigger] rest[i]).column
        + rest[i].width_in_columns <= (#[trigger] rest[j]).column by {
        assert(cells[i + 1].column + cells[i + 1].width_in_columns <= cells[j + 1].column);
    }
    assert forall|i: int| 0 <= i < rest.len() implies (#[trigger] rest[i]).width_in_columns
        >= 1 by {
        assert(cells[i + 1].width_in_columns >= 1);
    }
    assert(cells[place].width_in_columns >= 1);
    if place > 0 {
        lemma_ended(rest, column, place - 1);
        assert(cells[0].column + cells[0].width_in_columns <= cells[place].column);
        assert(cells[0].width_in_columns >= 1);
        lemma_counts(rest, column);
    } else {
        lemma_counts(rest, column);
    }
}

proof fn lemma_counts(cells: Seq<CellView>, column: int)
    ensures
        cells_ended_by(cells, column) >= 0,
        cells_started_before(cells, column) >= 0,
    decreases cells.len(),
{
    if cells.len() > 0 {
        lemma_counts(cells.skip(1), column);
    }
}

/// The ink of a glyph from one column to another touches exactly the cells that have
/// a column in that range, where the cells stand in their order.
pub proof fn ink_touches_the_cells_below_it(
    cells: Seq<CellView>,
    start: int,
    end: int,
    place: int,
)
    requires
        0 <= place < cells.len(),
        forall|i: int, j: int|
            0 <= i < j < cells.len() ==> (#[trigger] cells[i]).column + cells[i].width_in_columns
                <= (#[trigger] cells[j]).column,
        forall|i: int| 0 <= i < cells.len() ==> (#[trigger] cells[i]).width_in_columns >= 1,
    ensures
        cells_ended_by(cells, start) <= place < cells_started_before(cells, end) <==> start
            < cells[place].column + cells[place].width_in_columns && cells[place].column < end,
{
    lemma_ended(cells, start, place);
    lemma_ended(cells, end, place);
}

/// The atlas at the start of a frame.
pub open spec fn started(atlas: AtlasView) -> AtlasView {
    if atlas.pages.len() > MAXIMUM_PAGES || atlas.sprites.len() > MAXIMUM_SPRITES {
        empty_atlas()
    } else {
        atlas
    }
}

/// Between two frames the atlas keeps every glyph as long as it has no more than four
/// pages and 16384 glyphs, and keeps none with more.
pub proof fn atlases_are_emptied_when_they_are_large(atlas: AtlasView)
    ensures
        atlas.pages.len() <= 4 && atlas.sprites.len() <= 16384 ==> started(atlas) == atlas,
        atlas.pages.len() > 4 || atlas.sprites.len() > 16384 ==> started(atlas).pages.len() == 0
            && forall|key: u64| !(#[trigger] started(atlas).sprites.contains_key(key)),
{
}

} // verus!
